use drafftink::protocol::{base64_decode, base64_encode, f64_bits_equal, CursorPosition};

#[test]
fn base64_roundtrip() {
    let data = b"Hello, Loro!";
    let enc = base64_encode(data);
    assert_eq!(base64_decode(&enc).as_deref(), Some(data.as_slice()));
}

#[test]
fn test_base64_roundtrip() {
    let data = b"Hello, World!";
    let encoded = base64_encode(data);
    let decoded = base64_decode(&encoded).unwrap();
    assert_eq!(data.to_vec(), decoded);
}

#[test]
fn test_base64_empty() {
    let data = b"";
    let encoded = base64_encode(data);
    let decoded = base64_decode(&encoded).unwrap();
    assert_eq!(data.to_vec(), decoded);
}

#[test]
fn test_base64_padding() {
    // 1 byte -> 2 chars + 2 padding
    assert_eq!(base64_encode(b"a"), "YQ==");
    // 2 bytes -> 3 chars + 1 padding
    assert_eq!(base64_encode(b"ab"), "YWI=");
    // 3 bytes -> 4 chars, no padding
    assert_eq!(base64_encode(b"abc"), "YWJj");
}

#[test]
fn base64_decode_trims_whitespace() {
    assert_eq!(base64_decode("  YWJj\n").as_deref(), Some(b"abc".as_slice()));
}

#[test]
fn base64_decode_rejects_invalid_text() {
    assert_eq!(base64_decode("YWJ"), None);
    assert_eq!(base64_decode("!!!!"), None);
    assert_eq!(base64_decode("YW Jj"), None);
}

#[test]
fn base64_exact_texts() {
    assert_eq!(base64_encode(b"a"), "YQ==");
    assert_eq!(base64_encode(b"ab"), "YWI=");
    assert_eq!(base64_encode(b"abc"), "YWJj");
    assert_eq!(base64_encode(&[0xfb, 0xff]), "+/8=");
    assert_eq!(base64_decode("YQ==").as_deref(), Some(&b"a"[..]));
    assert_eq!(base64_decode("  YWJj\n").as_deref(), Some(&b"abc"[..]));
    // non-canonical padding and trailing bits are refused
    assert_eq!(base64_decode("YQ"), None);
    assert_eq!(base64_decode("YR=="), None);
    assert_eq!(base64_decode("Y==="), None);
}

#[test]
fn cursor_positions_compare_as_doubles() {
    let zero = CursorPosition { x_bits: 0.0f64.to_bits(), y_bits: 1.5f64.to_bits() };
    let neg_zero = CursorPosition { x_bits: (-0.0f64).to_bits(), y_bits: 1.5f64.to_bits() };
    assert!(zero == neg_zero);
    let nan = CursorPosition { x_bits: f64::NAN.to_bits(), y_bits: 0 };
    assert!(nan != nan);
    assert!(zero != CursorPosition { x_bits: 2.0f64.to_bits(), y_bits: 1.5f64.to_bits() });
    assert!(f64_bits_equal(f64::INFINITY.to_bits(), f64::INFINITY.to_bits()));
    assert!(!f64_bits_equal(f64::NAN.to_bits(), f64::NAN.to_bits()));
}
