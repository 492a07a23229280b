//! Server configuration from environment values.

use vstd::prelude::*;
use vstd::string::StringSliceAdditionalSpecFns;
use vstd::utf8::encode_utf8;
use crate::text::{str_equals, str_to_lowercase, lowercase};

verus! {

/// The file-system path type of the standard library (opaque here).
#[verifier::external_type_specification]
#[verifier::external_body]
pub struct ExPathBuf(std::path::PathBuf);

/// `PathBuf::clone` (nothing is stated of the copy).
pub assume_specification[ <std::path::PathBuf as Clone>::clone ](p: &std::path::PathBuf) -> std::path::PathBuf;

/// The path that `PathBuf::from` makes of a string.
pub uninterp spec fn path_of(s: Seq<char>) -> std::path::PathBuf;

/// `PathBuf::from` a string: the named path of that string.
#[verifier::external_body]
pub(crate) fn path_from_str(s: &str) -> (p: std::path::PathBuf)
    ensures
        p == path_of(s@),
{
    std::path::PathBuf::from(s)
}

/// Where room snapshots are kept.
#[derive(Debug, Clone, Copy, PartialEq, Eq, Structural)]
pub enum StoreKind {
    Memory,
    File,
    Redis,
}

/// Server configuration.
#[derive(Debug, Clone)]
pub struct ServerConfig {
    pub host: String,
    pub port: u16,
    pub store: StoreKind,
    pub persistence_dir: std::path::PathBuf,
    pub room_ttl_secs: Option<u64>,
    pub max_room_bytes: usize,
    pub max_ws_message_bytes: usize,
    pub redis_url: Option<String>,
}

/// The environment variables that configure the server, each `None` when unset:
/// `HOST`, `PORT`, `STORE`, `REDIS_URL`, `PERSISTENCE_DIR`, `ROOM_TTL_SECS`,
/// `MAX_ROOM_BYTES`, `MAX_WS_MESSAGE_BYTES`.
#[derive(Debug, Clone, Default)]
pub struct EnvVars {
    pub host: Option<String>,
    pub port: Option<String>,
    pub store: Option<String>,
    pub redis_url: Option<String>,
    pub persistence_dir: Option<String>,
    pub room_ttl_secs: Option<String>,
    pub max_room_bytes: Option<String>,
    pub max_ws_message_bytes: Option<String>,
}

/// Default listening port.
pub const DEFAULT_PORT: u16 = 3030;

/// Default limit on a stored room snapshot, in bytes (32 MiB).
pub const DEFAULT_MAX_ROOM_BYTES: usize = 33554432;

/// Default limit on one WebSocket message, in bytes (16 MiB).
pub const DEFAULT_MAX_WS_MESSAGE_BYTES: usize = 16777216;

/// Whether a byte is an ASCII decimal digit.
pub open spec fn is_digit(b: u8) -> bool {
    0x30 <= b <= 0x39
}

/// The number written by a sequence of decimal digits.
pub open spec fn digits_value(d: Seq<u8>) -> nat
    decreases d.len(),
{
    if d.len() == 0 {
        0
    } else {
        digits_value(d.drop_last()) * 10 + (d.last() - 0x30) as nat
    }
}

/// The number that text reads as, the way the standard library parses unsigned
/// integers: an optional `+`, then one or more decimal digits and nothing else.
pub open spec fn decimal_value(b: Seq<u8>) -> Option<nat> {
    let d = digits_part(b);
    if d.len() > 0 && all_digits(d) {
        Some(digits_value(d))
    } else {
        None
    }
}

/// The text after an optional leading `+`.
pub open spec fn digits_part(b: Seq<u8>) -> Seq<u8> {
    if b.len() > 0 && b[0] == 0x2b {
        b.skip(1)
    } else {
        b
    }
}

/// Whether every byte is a decimal digit.
pub open spec fn all_digits(d: Seq<u8>) -> bool {
    forall|i: int| 0 <= i < d.len() ==> is_digit(#[trigger] d[i])
}

/// The number that text reads as, when it is at most `max`.
pub open spec fn decimal_at_most(b: Seq<u8>, max: nat) -> Option<nat> {
    match decimal_value(b) {
        Some(v) => if v <= max { Some(v) } else { None },
        None => None,
    }
}

proof fn lemma_digits_value_monotone(d: Seq<u8>, i: int)
    requires
        0 <= i <= d.len(),
        forall|j: int| 0 <= j < d.len() ==> is_digit(#[trigger] d[j]),
    ensures
        digits_value(d.take(i)) <= digits_value(d),
    decreases d.len() - i,
{
    let n = d.len() as int;
    if i < n {
        lemma_digits_value_monotone(d, i + 1);
        assert(d.take(i + 1).drop_last() =~= d.take(i));
        assert(d.take(i + 1).last() == d[i]);
        assert(is_digit(d[i]));
        let x = digits_value(d.take(i));
        let y = (d[i] - 0x30) as nat;
        assert(x * 10 + y >= x) by (nonlinear_arith);
    } else {
        assert(d.take(n) =~= d);
    }
}

/// Parses unsigned decimal text as [`decimal_at_most`] describes.
pub fn parse_decimal(s: &str, max: u64) -> (r: Option<u64>)
    ensures
        match decimal_at_most(s.spec_bytes(), max as nat) {
            Some(v) => r == Some(v as u64),
            None => r is None,
        },
{
    let b = s.as_bytes();
    let n = b.len();
    let start: usize = if n > 0 && b[0] == 0x2b { 1 } else { 0 };
    let ghost d = digits_part(b@);
    assert(d =~= b@.subrange(start as int, n as int));
    if start >= n {
        return None;
    }
    let mut acc: u64 = 0;
    let mut i = start;
    while i < n
        invariant
            start <= i <= n == b@.len(),
            b@ == s.spec_bytes(),
            d == digits_part(b@),
            d == b@.subrange(start as int, n as int),
            acc <= max,
            acc == digits_value(d.take(i - start)),
            forall|j: int| 0 <= j < i - start ==> is_digit(#[trigger] d[j]),
        decreases n - i,
    {
        let c = b[i];
        assert(d[i - start] == c);
        if c < 0x30 || c > 0x39 {
            assert(!is_digit(d[i - start]));
            return None;
        }
        let digit = (c - 0x30) as u64;
        proof {
            assert(d.take(i - start + 1).drop_last() =~= d.take(i - start));
            assert(d.take(i - start + 1).last() == c);
        }
        if digit > max || acc > (max - digit) / 10 {
            proof {
                assert(acc * 10 + digit > max) by (nonlinear_arith)
                    requires digit > max || acc > (max - digit) / 10;
                // the whole number is at least this prefix
                if forall|j: int| 0 <= j < d.len() ==> is_digit(#[trigger] d[j]) {
                    lemma_digits_value_monotone(d, i - start + 1);
                }
                assert(decimal_at_most(s.spec_bytes(), max as nat) is None);
            }
            return None;
        }
        proof {
            assert(acc * 10 + digit <= max) by (nonlinear_arith)
                requires acc <= (max - digit) / 10, digit <= max;
        }
        acc = acc * 10 + digit;
        i = i + 1;
    }
    assert(d.take(n - start) =~= d);
    Some(acc)
}

impl Default for ServerConfig {
    /// Listen on `0.0.0.0:3030`, keep rooms in memory without expiry, and allow
    /// 32 MiB snapshots and 16 MiB messages.
    fn default() -> (c: Self)
        ensures
            c.host@ == "0.0.0.0"@,
            c.port == DEFAULT_PORT,
            c.store == StoreKind::Memory,
            c.persistence_dir == path_of("./data/rooms"@),
            c.room_ttl_secs is None,
            c.max_room_bytes == DEFAULT_MAX_ROOM_BYTES,
            c.max_ws_message_bytes == DEFAULT_MAX_WS_MESSAGE_BYTES,
            c.redis_url is None,
    {
        ServerConfig {
            host: "0.0.0.0".to_owned(),
            port: DEFAULT_PORT,
            store: StoreKind::Memory,
            persistence_dir: path_from_str("./data/rooms"),
            room_ttl_secs: None,
            max_room_bytes: DEFAULT_MAX_ROOM_BYTES,
            max_ws_message_bytes: DEFAULT_MAX_WS_MESSAGE_BYTES,
            redis_url: None,
        }
    }
}

/// The store that a `STORE` value selects, compared after lower-casing:
/// `file`, `redis`, and memory for anything else.
pub open spec fn store_kind_of(v: Seq<char>) -> StoreKind {
    store_kind_named(lowercase(v))
}

/// The store a lower-case `STORE` value names: `file`, `redis`, and anything
/// else the memory store.
pub open spec fn store_kind_named(lower: Seq<char>) -> StoreKind {
    if lower == "file"@ {
        StoreKind::File
    } else if lower == "redis"@ {
        StoreKind::Redis
    } else {
        StoreKind::Memory
    }
}

/// The store a lower-case `STORE` value names (see [`store_kind_named`]).
pub fn store_kind_from_lowercase(lower: &str) -> (k: StoreKind)
    ensures
        k == store_kind_named(lower@),
{
    if str_equals(lower, "file") {
        StoreKind::File
    } else if str_equals(lower, "redis") {
        StoreKind::Redis
    } else {
        StoreKind::Memory
    }
}

/// The store a `STORE` value selects, in any letter case (see [`store_kind_of`]).
pub fn store_kind(value: &str) -> (k: StoreKind)
    ensures
        k == store_kind_of(value@),
{
    let lower = str_to_lowercase(value);
    store_kind_from_lowercase(lower.as_str())
}

/// A number setting: the parsed value where it parses within `max`, else the
/// current value.
pub open spec fn number_setting(v: Option<String>, max: nat, current: nat) -> nat {
    match v {
        Some(s) => match decimal_at_most(encode_utf8(s@), max) {
            Some(n) => n,
            None => current,
        },
        None => current,
    }
}


/// The `STORE` choice before `REDIS_URL` is considered.
pub open spec fn store_setting(v: Option<String>) -> StoreKind {
    match v {
        Some(s) => store_kind_of(s@),
        None => StoreKind::Memory,
    }
}

impl ServerConfig {
    /// The Redis server to use: the configured URL, or `redis://127.0.0.1:6379`.
    pub fn redis_url_or_default(&self) -> (u: String)
        ensures
            u@ == (match self.redis_url {
                Some(url) => url@,
                None => "redis://127.0.0.1:6379"@,
            }),
    {
        match &self.redis_url {
            Some(url) => url.clone(),
            None => "redis://127.0.0.1:6379".to_owned(),
        }
    }

    /// The configuration from environment values, starting from the defaults:
    /// `HOST` and `REDIS_URL` are taken as given; `PORT`, `MAX_ROOM_BYTES` and
    /// `MAX_WS_MESSAGE_BYTES` replace the default only when they parse;
    /// `ROOM_TTL_SECS` sets the expiry to its parsed value, or to none when it
    /// does not parse; `STORE` selects the store, and a `REDIS_URL` turns a
    /// memory store into a Redis store.
    pub fn from_env(env: &EnvVars) -> (c: ServerConfig)
        ensures
            c.host@ == (match env.host {
                Some(h) => h@,
                None => "0.0.0.0"@,
            }),
            c.port as nat == number_setting(env.port, 65535, DEFAULT_PORT as nat),
            c.store == (if env.redis_url is Some && store_setting(env.store) == StoreKind::Memory {
                StoreKind::Redis
            } else {
                store_setting(env.store)
            }),
            c.redis_url == env.redis_url,
            c.persistence_dir == (match env.persistence_dir {
                Some(d) => path_of(d@),
                None => path_of("./data/rooms"@),
            }),
            c.room_ttl_secs == (match env.room_ttl_secs {
                Some(t) => match decimal_at_most(encode_utf8(t@), u64::MAX as nat) {
                    Some(v) => Some(v as u64),
                    None => None,
                },
                None => None::<u64>,
            }),
            c.max_room_bytes as nat == number_setting(
                env.max_room_bytes,
                usize::MAX as nat,
                DEFAULT_MAX_ROOM_BYTES as nat,
            ),
            c.max_ws_message_bytes as nat == number_setting(
                env.max_ws_message_bytes,
                usize::MAX as nat,
                DEFAULT_MAX_WS_MESSAGE_BYTES as nat,
            ),
    {
        let mut cfg = ServerConfig::default();
        if let Some(host) = &env.host {
            cfg.host = host.clone();
        }
        if let Some(port) = &env.port {
            if let Some(p) = parse_decimal(port.as_str(), 65535) {
                cfg.port = p as u16;
            }
        }
        if let Some(store) = &env.store {
            cfg.store = store_kind(store.as_str());
        }
        if let Some(url) = &env.redis_url {
            cfg.redis_url = Some(url.clone());
            if cfg.store == StoreKind::Memory {
                cfg.store = StoreKind::Redis;
            }
        }
        if let Some(dir) = &env.persistence_dir {
            cfg.persistence_dir = path_from_str(dir.as_str());
        }
        if let Some(ttl) = &env.room_ttl_secs {
            cfg.room_ttl_secs = parse_decimal(ttl.as_str(), u64::MAX);
        }
        if let Some(max) = &env.max_room_bytes {
            if let Some(n) = parse_decimal(max.as_str(), usize::MAX as u64) {
                cfg.max_room_bytes = n as usize;
            }
        }
        if let Some(max) = &env.max_ws_message_bytes {
            if let Some(n) = parse_decimal(max.as_str(), usize::MAX as u64) {
                cfg.max_ws_message_bytes = n as usize;
            }
        }
        cfg
    }
}

} // verus!
