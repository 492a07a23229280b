use drafftink::share_url::{
    build_share_query, parse_params, percent_decode, url_encode, url_params_from_location,
    UrlParams,
};

#[test]
fn parse_query_room_and_server() {
    let p = parse_params("?room=abc&server=host%3A3030");
    assert_eq!(p.room.as_deref(), Some("abc"));
    assert_eq!(p.server.as_deref(), Some("host:3030"));
}

#[test]
fn parse_hash_fragment() {
    let p = parse_params("#room=xyz");
    assert_eq!(p.room.as_deref(), Some("xyz"));
}

#[test]
fn build_share_same_origin() {
    assert_eq!(build_share_query("room-1", None, false), "?room=room-1");
}

#[test]
fn build_share_with_server() {
    assert_eq!(
        build_share_query("r", Some("relay.example:3030"), true),
        "?room=r&server=relay.example%3A3030"
    );
}

#[test]
fn build_share_skips_empty_or_excluded_server() {
    assert_eq!(build_share_query("r", Some(""), true), "?room=r");
    assert_eq!(build_share_query("r", Some("h"), false), "?room=r");
    assert_eq!(build_share_query("r", None, true), "?room=r");
}

#[test]
fn share_link_reads_back() {
    let q = build_share_query("team room/1", Some("ws://relay:3030"), true);
    assert_eq!(q, "?room=team%20room%2F1&server=ws%3A%2F%2Frelay%3A3030");
    let p = parse_params(&q);
    assert_eq!(p.room.as_deref(), Some("team room/1"));
    assert_eq!(p.server.as_deref(), Some("ws://relay:3030"));
}

#[test]
fn empty_room_reads_back_as_none() {
    let p = parse_params(&build_share_query("", Some("s"), true));
    assert_eq!(p, UrlParams { room: None, server: Some("s".to_string()) });
}

#[test]
fn parse_skips_pairs_without_value_or_unknown_keys() {
    let p = parse_params("??#room=&server&foo=bar&room=a");
    assert_eq!(p, UrlParams { room: Some("a".to_string()), server: None });
}

#[test]
fn parse_later_pair_wins() {
    let p = parse_params("room=first&room=second");
    assert_eq!(p.room.as_deref(), Some("second"));
}

#[test]
fn parse_value_keeps_extra_equals() {
    let p = parse_params("?server=a=b");
    assert_eq!(p.server.as_deref(), Some("a=b"));
}

#[test]
fn url_encode_keeps_unreserved_and_escapes_rest() {
    assert_eq!(url_encode("Az09-_.~"), "Az09-_.~");
    assert_eq!(url_encode("a b&c"), "a%20b%26c");
    assert_eq!(url_encode("é"), "%C3%A9");
}

#[test]
fn percent_decode_reads_hex_pairs() {
    assert_eq!(percent_decode("a%20b"), "a b");
    assert_eq!(percent_decode("%3a%3A"), "::");
    // `+` followed by a hex digit reads as that digit's value
    assert_eq!(percent_decode("%+41"), "\u{4}1");
    // incomplete or invalid escapes stay as they are
    assert_eq!(percent_decode("%4"), "%4");
    assert_eq!(percent_decode("100%"), "100%");
    assert_eq!(percent_decode("%zz"), "%zz");
}

#[test]
fn percent_decode_gives_one_char_per_byte() {
    // the two bytes of "é" come back as two characters
    assert_eq!(percent_decode("%C3%A9"), "\u{c3}\u{a9}");
    assert_eq!(percent_decode("é"), "\u{c3}\u{a9}");
}

#[test]
fn location_prefers_query_over_hash() {
    let p = url_params_from_location(Some("?room=q"), Some("#room=h&server=s"));
    assert_eq!(p.room.as_deref(), Some("q"));
    assert_eq!(p.server.as_deref(), Some("s"));
    let p = url_params_from_location(None, Some("#room=h"));
    assert_eq!(p.room.as_deref(), Some("h"));
    let p = url_params_from_location(None, None);
    assert_eq!(p, UrlParams::default());
}
