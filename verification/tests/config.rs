use drafftink::server::config::{
    parse_decimal, store_kind, store_kind_from_lowercase, EnvVars, ServerConfig, StoreKind,
};

#[test]
fn config_from_env_defaults() {
    let cfg = ServerConfig::default();
    assert_eq!(cfg.port, 3030);
    assert!(matches!(cfg.store, StoreKind::Memory));
}

#[test]
fn defaults_match_documented_values() {
    let cfg = ServerConfig::default();
    assert_eq!(cfg.host, "0.0.0.0");
    assert_eq!(cfg.persistence_dir, std::path::PathBuf::from("./data/rooms"));
    assert_eq!(cfg.room_ttl_secs, None);
    assert_eq!(cfg.max_room_bytes, 32 * 1024 * 1024);
    assert_eq!(cfg.max_ws_message_bytes, 16 * 1024 * 1024);
    assert_eq!(cfg.redis_url, None);
}

fn some(s: &str) -> Option<String> {
    Some(s.to_string())
}

#[test]
fn from_env_reads_every_variable() {
    let env = EnvVars {
        host: some("127.0.0.1"),
        port: some("8080"),
        store: some("File"),
        redis_url: None,
        persistence_dir: some("/tmp/rooms"),
        room_ttl_secs: some("3600"),
        max_room_bytes: some("1024"),
        max_ws_message_bytes: some("+512"),
    };
    let cfg = ServerConfig::from_env(&env);
    assert_eq!(cfg.host, "127.0.0.1");
    assert_eq!(cfg.port, 8080);
    assert_eq!(cfg.store, StoreKind::File);
    assert_eq!(cfg.persistence_dir, std::path::PathBuf::from("/tmp/rooms"));
    assert_eq!(cfg.room_ttl_secs, Some(3600));
    assert_eq!(cfg.max_room_bytes, 1024);
    assert_eq!(cfg.max_ws_message_bytes, 512);
}

#[test]
fn from_env_keeps_defaults_for_bad_numbers() {
    let env = EnvVars {
        port: some("70000"),
        max_room_bytes: some("-1"),
        max_ws_message_bytes: some("12ab"),
        room_ttl_secs: some("soon"),
        ..EnvVars::default()
    };
    let cfg = ServerConfig::from_env(&env);
    assert_eq!(cfg.port, 3030);
    assert_eq!(cfg.max_room_bytes, 32 * 1024 * 1024);
    assert_eq!(cfg.max_ws_message_bytes, 16 * 1024 * 1024);
    assert_eq!(cfg.room_ttl_secs, None);
}

#[test]
fn store_choice_and_redis_url() {
    let cfg = ServerConfig::from_env(&EnvVars { store: some("REDIS"), ..EnvVars::default() });
    assert_eq!(cfg.store, StoreKind::Redis);
    let cfg = ServerConfig::from_env(&EnvVars { store: some("disk"), ..EnvVars::default() });
    assert_eq!(cfg.store, StoreKind::Memory);
    let cfg = ServerConfig::from_env(&EnvVars {
        redis_url: some("redis://r:6379"),
        ..EnvVars::default()
    });
    assert_eq!(cfg.store, StoreKind::Redis);
    assert_eq!(cfg.redis_url.as_deref(), Some("redis://r:6379"));
    let cfg = ServerConfig::from_env(&EnvVars {
        store: some("file"),
        redis_url: some("redis://r"),
        ..EnvVars::default()
    });
    assert_eq!(cfg.store, StoreKind::File);
}

#[test]
fn decimal_parsing() {
    assert_eq!(parse_decimal("0", 10), Some(0));
    assert_eq!(parse_decimal("+7", 10), Some(7));
    assert_eq!(parse_decimal("007", 10), Some(7));
    assert_eq!(parse_decimal("11", 10), None);
    assert_eq!(parse_decimal("", 10), None);
    assert_eq!(parse_decimal("+", 10), None);
    assert_eq!(parse_decimal("-1", 10), None);
    assert_eq!(parse_decimal(" 1", 10), None);
    assert_eq!(parse_decimal("18446744073709551615", u64::MAX), Some(u64::MAX));
    assert_eq!(parse_decimal("18446744073709551616", u64::MAX), None);
}

#[test]
fn redis_url_default() {
    let cfg = ServerConfig::default();
    assert_eq!(cfg.redis_url_or_default(), "redis://127.0.0.1:6379");
    let cfg = ServerConfig::from_env(&EnvVars { redis_url: some("redis://r:1"), ..EnvVars::default() });
    assert_eq!(cfg.redis_url_or_default(), "redis://r:1");
}

#[test]
fn store_choice_ignores_letter_case() {
    assert_eq!(store_kind_from_lowercase("file"), StoreKind::File);
    assert_eq!(store_kind_from_lowercase("redis"), StoreKind::Redis);
    assert_eq!(store_kind_from_lowercase("File"), StoreKind::Memory);
    assert_eq!(store_kind_from_lowercase("memory"), StoreKind::Memory);
    assert_eq!(store_kind("FILE"), StoreKind::File);
    assert_eq!(store_kind("ReDiS"), StoreKind::Redis);
    assert_eq!(store_kind("disk"), StoreKind::Memory);
}
