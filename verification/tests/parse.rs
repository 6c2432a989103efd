use qhttp::error::ErrorKind;
use qhttp::message::Version;
use qhttp::parse::{
    find_chunk_header_end, find_chunk_header_extension_end, find_header_end, find_hex_end,
    find_lws_end, find_multi_lws_end, find_next_sp, find_quoted_string_end, find_start_line_end,
    find_text_end, find_token_end, is_char, is_ctl, is_hex, is_lws, is_lws_full, is_seperator,
    is_text, is_token, parse_chunk_header, parse_hex, parse_hex_byte, parse_request_header_new,
    parse_start_line2,
};

#[test]
fn bytes_are_classified() {
    assert!(is_char(127) && !is_char(128));
    assert!(is_ctl(31) && is_ctl(32) && is_ctl(127) && !is_ctl(33));
    assert!(is_hex(b'f') && is_hex(b'A') && is_hex(b'0') && !is_hex(b'g'));
    assert!(is_lws(b' ') && is_lws(b'\t') && !is_lws(b'\r'));
    assert!(is_lws_full(b'\r') && is_lws_full(b'\n') && !is_lws_full(b'a'));
    assert!(is_text(b' ') && is_text(160) && !is_text(127) && !is_text(159));
    assert!(is_token(b'a') && is_token(b'-') && !is_token(b':') && !is_token(b' '));
    assert!(is_seperator(b'{') && is_seperator(b'"') && !is_seperator(b'!'));
}

#[test]
fn ends_are_found() {
    assert_eq!(find_next_sp(b"GET /").unwrap(), Some(3));
    assert_eq!(find_next_sp(b"GET").unwrap(), None);
    assert_eq!(find_text_end(b"abc\r\n").unwrap(), Some(3));
    assert_eq!(find_hex_end(b"1aFg").unwrap(), Some(3));
    assert_eq!(find_token_end(b"host: x").unwrap(), Some(4));
    assert_eq!(find_token_end(b"host").unwrap(), None);
}

#[test]
fn start_line_end_is_found() {
    assert_eq!(find_start_line_end(b"GET / HTTP/1.1\r\nHost").unwrap(), Some(16));
    assert_eq!(find_start_line_end(b"GET / HTTP/1.1\r").unwrap(), None);
    assert_eq!(find_start_line_end(b"GET / HTTP/1.1\rx").unwrap_err().kind(), ErrorKind::InvalidData);
}

#[test]
fn header_end_is_found() {
    assert_eq!(find_header_end(b"a: b\r\nc").unwrap(), Some(6));
    assert_eq!(find_header_end(b"a: b\r\n").unwrap(), None);
    assert_eq!(find_header_end(b"a: b\r\n c\r\nd").unwrap(), Some(10));
    assert_eq!(find_header_end(b"\r\n").unwrap_err().message, "The header started with a CR.");
    assert_eq!(find_header_end(b"a: b\rxyz").unwrap_err().message, "A CR was not followed by NL.");
}

#[test]
fn white_space_ends_are_found() {
    assert_eq!(find_lws_end(b"  a").unwrap(), Some(2));
    assert_eq!(find_lws_end(b"\r\n a").unwrap(), Some(3));
    assert_eq!(find_lws_end(b"\r\nab").unwrap(), Some(0));
    assert!(find_lws_end(b"\rabc").is_err());
    assert_eq!(find_multi_lws_end(b" \r\n \r\n\tx").unwrap(), Some(7));
    assert_eq!(find_multi_lws_end(b"  ").unwrap(), None);
}

#[test]
fn start_line_is_parsed() {
    let (method, target, version) = parse_start_line2(b"GET /index.html?a=b HTTP/1.0\r\n").unwrap();
    assert_eq!(method, b"GET".to_vec());
    assert_eq!(target, b"/index.html?a=b".to_vec());
    assert_eq!(version, Version::Http10);
    assert_eq!(parse_start_line2(b"GET / HTTP/2.0\r\n").unwrap().2, Version::Http2);
    assert_eq!(parse_start_line2(b"GET / HTTP/9.9\r\n").unwrap().2, Version::Http11);
}

#[test]
fn broken_start_lines_are_refused() {
    let message = |line: &[u8]| parse_start_line2(line).unwrap_err().message;
    assert_eq!(message(b"GET\r\n"), "Start line do not contain a SP.");
    assert_eq!(message(b"G(T / HTTP/1.1\r\n"), "Invalid http method.");
    assert_eq!(message(b"GET /\r\n"), "Start line do not contain a second SP.");
    assert_eq!(message(b"GET / HTTP\r\n"), "Start line ended early.");
    assert_eq!(message(b"GET /\x01 HTTP/1.1\r\n"), "URI was invalid.");
}

#[test]
fn header_line_is_parsed() {
    let (name, values) = parse_request_header_new(b"Host: example.org\r\nx").unwrap();
    assert_eq!(name, b"host".to_vec());
    assert_eq!(values, vec![b"example.org".to_vec()]);
    let (_, values) = parse_request_header_new(b"A: b\r\n c\r\nx").unwrap();
    assert_eq!(values, vec![b"b".to_vec(), b"c".to_vec()]);
    assert_eq!(
        parse_request_header_new(b"A b: c\r\nx").unwrap_err().message,
        "The header name token was not followed by a ':'."
    );
    assert!(parse_request_header_new(b": c\r\nx").is_err());
}

#[test]
fn hexadecimal_numbers_are_parsed() {
    assert_eq!(parse_hex_byte(b'c').unwrap(), 12);
    assert_eq!(parse_hex_byte(b'C').unwrap(), 12);
    assert!(parse_hex_byte(b'x').is_err());
    assert_eq!(parse_hex(b"1aF").unwrap(), 0x1af);
    assert!(parse_hex(b"1g").is_err());
}

#[test]
fn chunk_headers_are_parsed() {
    assert_eq!(find_chunk_header_end(b"1a\r\nxyz").unwrap(), Some(4));
    assert_eq!(find_chunk_header_end(b"1a\r").unwrap(), None);
    assert!(find_chunk_header_end(b"xy\r\n").is_err());
    assert_eq!(parse_chunk_header(b"1a\r\n").unwrap(), 26);
    assert!(find_chunk_header_extension_end(b";a=b\r\n").is_err());
    assert_eq!(find_chunk_header_extension_end(b";a").unwrap(), None);
    assert_eq!(find_quoted_string_end(b"\"abc\"").unwrap(), Some(1));
    assert_eq!(find_quoted_string_end(b"").unwrap(), None);
    assert!(find_quoted_string_end(b"abc").is_err());
}
