use qhttp::http2::error::{ErrorCode, H2Error};
use qhttp::http2::frame::{Flags, FrameType};
use qhttp::http2::headers::{request_from_headers, response_headers, split_block};
use qhttp::http2::hpack::find_bad_update;
use qhttp::http2::reader::FrameReader;
use qhttp::http2::window::distribute;
use qhttp::http2::stream::StreamHandle;
use qhttp::error::ErrorKind;
use qhttp::message::{Request, Version};
use qhttp::response::Response;
use std::collections::HashMap;

fn build(lines: &[(&str, &str)]) -> Result<Request, H2Error> {
    let list: Vec<(Vec<u8>, Vec<u8>)> = lines
        .iter()
        .map(|(name, value)| (name.as_bytes().to_vec(), value.as_bytes().to_vec()))
        .collect();
    request_from_headers(&list).unwrap()
}

#[test]
fn request_is_built_out_of_headers() {
    let req = build(&[
        (":method", "POST"),
        (":scheme", "https"),
        (":path", "/a?b"),
        (":authority", "example.org"),
        ("accept", "*/*"),
        ("cookie", "a"),
        ("cookie", "b"),
    ])
    .unwrap();
    assert_eq!(req.method, b"POST".to_vec());
    assert_eq!(req.target, b"/a?b".to_vec());
    assert_eq!(req.version, Version::Http2);
    assert_eq!(req.get_header("accept"), Some("*/*".to_string()));
    assert_eq!(req.get_header_full("cookie"), Some("a b".to_string()));
}

#[test]
fn connect_request_has_an_authority_only() {
    let req = build(&[(":method", "CONNECT"), (":authority", "a:1"), ("x", "y")]).unwrap();
    assert_eq!(req.method, b"CONNECT".to_vec());
    assert!(build(&[(":method", "CONNECT"), ("x", "y")]).is_err());
    assert!(build(&[(":method", "CONNECT"), (":authority", "a"), (":path", "/"), ("x", "y")]).is_err());
}

#[test]
fn broken_header_lists_are_refused() {
    let refused = |lines: &[(&str, &str)]| {
        assert_eq!(build(lines).unwrap_err(), H2Error::Stream(ErrorCode::ProtocolError));
    };
    refused(&[(":method", "GET"), (":method", "GET")]);
    refused(&[(":method", "G T")]);
    refused(&[(":path", "not a uri")]);
    refused(&[(":odd", "x")]);
    refused(&[("x", "y")]);
    refused(&[(":method", "GET"), (":scheme", "http"), ("x", "y")]);
    let front = [(":method", "GET"), (":scheme", "http"), (":path", "/")];
    let with = |line: (&'static str, &'static str)| {
        let mut lines = front.to_vec();
        lines.push(line);
        lines
    };
    assert!(build(&front).is_ok());
    assert!(build(&with(("x", "y"))).is_ok());
    refused(&with(("x y", "z")));
    refused(&with(("x", "\n")));
    let mut behind = with(("x", "y"));
    behind.push((":authority", "z"));
    refused(&behind);
}

#[test]
fn incomplete_pseudo_headers_are_accepted_alone() {
    let req = build(&[(":scheme", "http")]).unwrap();
    assert_eq!((req.method, req.target), (b"GET".to_vec(), b"/".to_vec()));
    assert!(build(&[]).is_ok());
}

#[test]
fn response_is_listed() {
    let mut resp = Response::with_status(204);
    assert!(resp.set_content_type(b"text/html"));
    assert_eq!(
        response_headers(&resp),
        vec![
            (b":status".to_vec(), b"204".to_vec()),
            (b"content-type".to_vec(), b"text/html".to_vec()),
        ]
    );
}

#[test]
fn header_block_is_split() {
    let frames = split_block(5, true, vec![7; 10]);
    assert_eq!(frames.len(), 1);
    assert_eq!(frames[0].header.frame_type, FrameType::Headers);
    assert_eq!(frames[0].header.flags.bits(), Flags::END_STREAM | Flags::END_HEADERS);
    let block: Vec<u8> = (0..40_000u32).map(|n| n as u8).collect();
    let frames = split_block(5, false, block.clone());
    assert_eq!(frames.len(), 3);
    let types: Vec<FrameType> = frames.iter().map(|frame| frame.header.frame_type).collect();
    assert_eq!(
        types,
        vec![FrameType::Headers, FrameType::Continuation, FrameType::Continuation]
    );
    let ends: Vec<u8> = frames.iter().map(|frame| frame.header.flags.bits()).collect();
    assert_eq!(ends, vec![0, 0, Flags::END_HEADERS]);
    let whole: Vec<u8> = frames.iter().flat_map(|frame| frame.payload.clone()).collect();
    assert_eq!(whole, block);
    assert!(frames.iter().all(|frame| frame.payload.len() <= 16_384));
}

#[test]
fn unreadable_table_size_updates_are_found() {
    assert_eq!(find_bad_update(&[0x82, 0x86, 0x84]), None);
    assert_eq!(find_bad_update(&[0x82, 0x20]), None);
    assert_eq!(find_bad_update(&[0x82, 0x3f]), Some(1));
    assert_eq!(find_bad_update(&[0x3f, 0xff, 0xff, 0xff, 0xff, 0xff, 0x01]), Some(0));
}

#[test]
fn preface_is_read() {
    let preface = b"PRI * HTTP/2.0\r\n\r\nSM\r\n\r\n";
    let mut reader = FrameReader::new(64, None);
    assert!(reader.read_preface(false).is_none());
    reader.buffer.write(&preface[..10]);
    assert!(reader.read_preface(false).is_none());
    assert_eq!(reader.read_preface(true).unwrap().unwrap_err().kind, ErrorKind::UnexpectedEof);
    reader.buffer.write(&preface[10..]);
    reader.buffer.write(b"rest");
    assert!(reader.read_preface(false).unwrap().is_ok());
    assert_eq!(reader.buffer.as_ref(), b"rest");
    let mut reader = FrameReader::new(64, None);
    reader.buffer.write(b"GET / HTTP/1.1\r\nHost: abc");
    let err = reader.read_preface(false).unwrap().unwrap_err();
    assert_eq!((err.kind, err.message), (ErrorKind::InvalidData, "Invalid H2 preface was send."));
}

#[test]
fn frames_are_read_in_pieces() {
    let bytes = [0, 0, 8, 6, 0, 0, 0, 0, 0, 1, 2, 3, 4, 5, 6, 7, 8, 99];
    let mut reader = FrameReader::new(32, None);
    for byte in &bytes[..16] {
        assert!(reader.read_next_frame(false).is_none());
        reader.buffer.write(&[*byte]);
    }
    assert!(reader.read_next_frame(false).is_none());
    reader.buffer.write(&bytes[16..]);
    let frame = reader.read_next_frame(false).unwrap().unwrap();
    assert_eq!(frame.header.frame_type, FrameType::Ping);
    assert_eq!(frame.payload, vec![1, 2, 3, 4, 5, 6, 7, 8]);
    assert_eq!(reader.buffer.as_ref(), &[99]);
}

#[test]
fn broken_frames_are_reported() {
    let broken = H2Error::Connection(ErrorCode::ProtocolError);
    let mut reader = FrameReader::new(32, None);
    assert_eq!(reader.read_next_frame(true).unwrap().unwrap_err(), broken);
    reader.buffer.write(&[0, 0, 8, 6, 0, 0, 0, 0, 0, 1]);
    assert_eq!(reader.read_next_frame(true).unwrap().unwrap_err(), broken);
    let mut reader = FrameReader::new(16, None);
    reader.buffer.write(&[0, 0, 32, 0, 0, 0, 0, 0, 1, 1, 1, 1, 1, 1, 1, 1]);
    assert!(reader.read_next_frame(false).is_none());
    reader.buffer.write(&[1; 16]);
    assert_eq!(reader.read_next_frame(false).unwrap().unwrap_err(), broken);
}

#[test]
fn window_is_distributed_in_order() {
    let mut streams = HashMap::new();
    streams.insert(1, StreamHandle { closed: false });
    streams.insert(3, StreamHandle { closed: false });
    let mut window = 100;
    let mut reqs = vec![(1, 40), (5, 10), (3, 0), (3, 80), (1, 5)];
    assert_eq!(distribute(&streams, &mut window, &mut reqs), vec![(1, 40), (3, 60)]);
    assert_eq!(window, 0);
    assert_eq!(reqs, vec![(3, 20), (1, 5)]);
    assert_eq!(distribute(&streams, &mut window, &mut reqs), vec![]);
    window = 30;
    assert_eq!(distribute(&streams, &mut window, &mut reqs), vec![(3, 20), (1, 5)]);
    assert_eq!((window, reqs.len()), (5, 0));
    window = -7;
    reqs.push((1, 1));
    assert_eq!(distribute(&streams, &mut window, &mut reqs), vec![]);
    assert_eq!((window, reqs.len()), (-7, 1));
}

#[test]
fn frame_with_a_bad_size_breaks_the_connection() {
    let mut reader = FrameReader::new(64, None);
    reader.buffer.write(&[0, 0, 4, 2, 0, 0, 0, 0, 1, 0, 0, 0, 0]);
    assert_eq!(
        reader.read_next_frame(false).unwrap().unwrap_err(),
        H2Error::Connection(ErrorCode::FrameSizeError)
    );
}
