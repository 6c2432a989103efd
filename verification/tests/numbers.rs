use qhttp::bytes::{
    push_u16, push_u24, push_u32, push_u64, read_u16, read_u24, read_u32, read_u64,
};
use qhttp::number::{parse_u64, parse_usize, to_decimal, to_hex};
use qhttp::text::{ascii_bytes, ascii_text, chars_equal, from_chars, to_chars};

#[test]
fn numbers_are_stored_with_the_first_byte_first() {
    let mut out = Vec::new();
    push_u16(&mut out, 0x0102);
    push_u24(&mut out, 0x030405);
    push_u32(&mut out, 0x06070809);
    push_u64(&mut out, 0x0a0b0c0d0e0f1011);
    assert_eq!(out, (1u8..=17).collect::<Vec<u8>>());
    assert_eq!(read_u16(&out), 0x0102);
    assert_eq!(read_u24(&out[2..]), 0x030405);
    assert_eq!(read_u32(&out[5..]), 0x06070809);
    assert_eq!(read_u64(&out[9..]), 0x0a0b0c0d0e0f1011);
}

#[test]
fn decimal_numbers_are_read_and_written() {
    assert_eq!(parse_u64(b"18446744073709551615"), Some(u64::MAX));
    assert_eq!(parse_u64(b"18446744073709551616"), None);
    assert_eq!(parse_u64(b""), None);
    assert_eq!(parse_u64(b"+5"), Some(5));
    assert_eq!(parse_u64(b"-5"), None);
    assert_eq!(parse_usize(b"0042"), Some(42));
    assert_eq!(to_decimal(0), b"0".to_vec());
    assert_eq!(to_decimal(9070), b"9070".to_vec());
}

#[test]
fn hexadecimal_numbers_are_written() {
    assert_eq!(to_hex(0), b"0".to_vec());
    assert_eq!(to_hex(255), b"ff".to_vec());
    assert_eq!(to_hex(65536), b"10000".to_vec());
}

#[test]
fn texts_are_converted() {
    assert_eq!(ascii_bytes("abc"), b"abc".to_vec());
    assert_eq!(ascii_text(b"xyz"), "xyz");
    assert_eq!(to_chars("a\u{e4}"), vec!['a', '\u{e4}']);
    assert_eq!(from_chars(&['b', '\u{fc}']), "b\u{fc}");
    assert!(chars_equal(&['a'], &['a']));
    assert!(!chars_equal(&['a'], &['a', 'b']));
}
