use drafftink::collab_config::{env_bool, CollabConfig, WindowCollabJs};

#[test]
fn env_bool_values() {
    for v in ["true", "1", "yes"] {
        assert!(env_bool(v, false));
    }
    for v in ["false", "0", "no"] {
        assert!(!env_bool(v, true));
    }
    assert!(env_bool("", true));
    assert!(!env_bool("TRUE", false));
    assert!(env_bool("maybe", true));
}

#[test]
fn from_build_reads_flags() {
    let c = CollabConfig::from_build("/ws", "true", "0", "");
    assert_eq!(c.default_server_url, "/ws");
    assert!(c.hide_server_url);
    assert!(!c.lock_server_url);
    assert!(!c.auto_connect);
    assert!(!c.show_server_url_field());
}

#[test]
fn effective_server_url_rules() {
    let mut c = CollabConfig::from_build("/ws", "false", "false", "false");
    assert_eq!(c.effective_server_url(""), "/ws");
    assert_eq!(c.effective_server_url("ws://other/ws"), "ws://other/ws");
    c.lock_server_url = true;
    assert_eq!(c.effective_server_url("ws://other/ws"), "/ws");
}

#[test]
fn window_override_replaces_given_values() {
    let mut c = CollabConfig::from_build("/ws", "false", "false", "false");
    c.apply_window_override(Some(WindowCollabJs {
        default_server_url: Some("wss://relay/ws".to_string()),
        hide_server_url: None,
        lock_server_url: Some(true),
        auto_connect: Some(true),
    }));
    assert_eq!(c.default_server_url, "wss://relay/ws");
    assert!(!c.hide_server_url);
    assert!(c.lock_server_url);
    assert!(c.auto_connect);
    c.apply_window_override(None);
    assert_eq!(c.default_server_url, "wss://relay/ws");
    assert!(c.lock_server_url);
}
