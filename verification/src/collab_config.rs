//! Deploy-time collaboration UI configuration.

use vstd::prelude::*;
use crate::text::str_equals;

verus! {

/// Collaboration UI and connection defaults (build-time values, with an
/// optional override from the page).
#[derive(Debug, Clone)]
pub struct CollabConfig {
    pub default_server_url: String,
    pub hide_server_url: bool,
    pub lock_server_url: bool,
    pub auto_connect: bool,
}

/// Overrides that a page may set; each one present replaces the configured value.
#[derive(Debug, Clone)]
pub struct WindowCollabJs {
    pub default_server_url: Option<String>,
    pub hide_server_url: Option<bool>,
    pub lock_server_url: Option<bool>,
    pub auto_connect: Option<bool>,
}

/// A boolean setting read from text: `true`, `1`, `yes` are true; `false`, `0`,
/// `no` are false; anything else (an unset variable reads as empty text) gives
/// the default.
pub open spec fn flag_value(v: Seq<char>, default: bool) -> bool {
    if v == "true"@ || v == "1"@ || v == "yes"@ {
        true
    } else if v == "false"@ || v == "0"@ || v == "no"@ {
        false
    } else {
        default
    }
}

/// Reads a boolean setting as [`flag_value`] describes.
pub fn env_bool(value: &str, default: bool) -> (r: bool)
    ensures
        r == flag_value(value@, default),
{
    if str_equals(value, "true") || str_equals(value, "1") || str_equals(value, "yes") {
        true
    } else if str_equals(value, "false") || str_equals(value, "0") || str_equals(value, "no") {
        false
    } else {
        default
    }
}

impl CollabConfig {
    /// The configuration from the build settings: the default server URL as
    /// given, and the three flags read by [`env_bool`] with default `false`.
    pub fn from_build(
        default_server_url: &str,
        hide_server_url: &str,
        lock_server_url: &str,
        auto_connect: &str,
    ) -> (c: CollabConfig)
        ensures
            c.default_server_url@ == default_server_url@,
            c.hide_server_url == flag_value(hide_server_url@, false),
            c.lock_server_url == flag_value(lock_server_url@, false),
            c.auto_connect == flag_value(auto_connect@, false),
    {
        CollabConfig {
            default_server_url: default_server_url.to_owned(),
            hide_server_url: env_bool(hide_server_url, false),
            lock_server_url: env_bool(lock_server_url, false),
            auto_connect: env_bool(auto_connect, false),
        }
    }

    /// The server URL to use: the configured default when the URL is locked or
    /// nothing was entered, otherwise what was entered.
    pub fn effective_server_url(&self, current: &str) -> (url: String)
        ensures
            url@ == (if self.lock_server_url || current@.len() == 0 {
                self.default_server_url@
            } else {
                current@
            }),
    {
        if self.lock_server_url || current.is_empty() {
            self.default_server_url.clone()
        } else {
            current.to_owned()
        }
    }

    /// Whether the UI shows the server URL field.
    pub fn show_server_url_field(&self) -> (show: bool)
        ensures
            show == !self.hide_server_url,
    {
        !self.hide_server_url
    }

    /// Applies the overrides that the page set, if it set any.
    pub fn apply_window_override(&mut self, js: Option<WindowCollabJs>)
        ensures
            match js {
                None => *final(self) == *old(self),
                Some(o) => {
                    &&& final(self).default_server_url == (match o.default_server_url {
                        Some(u) => u,
                        None => old(self).default_server_url,
                    })
                    &&& final(self).hide_server_url == (match o.hide_server_url {
                        Some(v) => v,
                        None => old(self).hide_server_url,
                    })
                    &&& final(self).lock_server_url == (match o.lock_server_url {
                        Some(v) => v,
                        None => old(self).lock_server_url,
                    })
                    &&& final(self).auto_connect == (match o.auto_connect {
                        Some(v) => v,
                        None => old(self).auto_connect,
                    })
                },
            },
    {
        if let Some(js) = js {
            if let Some(url) = js.default_server_url {
                self.default_server_url = url;
            }
            if let Some(v) = js.hide_server_url {
                self.hide_server_url = v;
            }
            if let Some(v) = js.lock_server_url {
                self.lock_server_url = v;
            }
            if let Some(v) = js.auto_connect {
                self.auto_connect = v;
            }
        }
    }
}

} // verus!
