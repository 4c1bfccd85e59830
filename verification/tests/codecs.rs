//! The byte-level codecs: decimal and hexadecimal renderings and parsers.

use rrdp_cache::hexnum::{format_u64, hex_decode, hex_encode, parse_u64};

#[test]
fn decimal_round_trip() {
    for n in [0u64, 1, 9, 10, 99, 100, 424_242, u64::MAX] {
        let bytes = format_u64(n);
        assert_eq!(parse_u64(&bytes), Some(n));
        assert_eq!(bytes, n.to_string().into_bytes());
    }
}

#[test]
fn decimal_parse_limits() {
    assert_eq!(parse_u64(b"18446744073709551615"), Some(u64::MAX));
    assert_eq!(parse_u64(b"18446744073709551616"), None);
    assert_eq!(parse_u64(b"999999999999999999999"), None);
    assert_eq!(parse_u64(b""), None);
    assert_eq!(parse_u64(b"12a"), None);
    assert_eq!(parse_u64(b"-1"), None);
    assert_eq!(parse_u64(b"007"), Some(7));
}

#[test]
fn hex_round_trip() {
    let bytes: Vec<u8> = vec![0x00, 0x0f, 0xf0, 0xff, 0xab, 0x12];
    let hex = hex_encode(&bytes);
    assert_eq!(hex, b"000ff0ffab12".to_vec());
    assert_eq!(hex_decode(&hex), Some(bytes));
}

#[test]
fn hex_decode_rejects() {
    assert_eq!(hex_decode(b"abc"), None);
    assert_eq!(hex_decode(b"AB"), None);
    assert_eq!(hex_decode(b"zz"), None);
    assert_eq!(hex_decode(b""), Some(Vec::new()));
}
