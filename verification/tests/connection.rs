use qhttp::buffer::Buffer;
use qhttp::config::{Config, SECOND};
use qhttp::connection::{
    Connection, FixedBody, HeadPart, ReadOutcome, ReadStep, Reply, RequestReader,
};
use qhttp::error::{Error, ErrorKind};
use qhttp::http2::stream::HandlerOutcome;
use qhttp::message::{HttpError, Request, Version};

fn read(input: &[u8]) -> (RequestReader, Buffer, ReadStep) {
    let mut reader = RequestReader::new();
    let mut buffer = Buffer::with_capacity(256);
    buffer.write(input);
    let step = reader.advance(&mut buffer, 128, false);
    (reader, buffer, step)
}

fn failure(input: &[u8]) -> Error {
    match read(input).2 {
        ReadStep::Failed(err) => err,
        step => panic!("{:?}", step),
    }
}

#[test]
fn request_head_is_read() {
    let (reader, buffer, step) =
        read(b"POST /a?b HTTP/1.1\r\nHost: x\r\nAccept: a\r\nAccept: b\r\n\r\nbody");
    assert!(matches!(step, ReadStep::Done));
    assert_eq!(reader.req.method, b"POST".to_vec());
    assert_eq!(reader.req.target, b"/a?b".to_vec());
    assert_eq!(reader.req.version, Version::Http11);
    assert_eq!(reader.req.get_header("host"), Some("x".to_string()));
    assert_eq!(reader.req.get_header_full("accept"), Some("a b".to_string()));
    assert_eq!(buffer.as_ref(), b"body");
}

#[test]
fn request_head_is_read_in_pieces() {
    let input = b"GET / HTTP/1.0\r\nA: b\r\n c\r\nD: e\r\n\r\n";
    let mut reader = RequestReader::new();
    let mut buffer = Buffer::with_capacity(64);
    for byte in &input[..input.len() - 1] {
        buffer.write(&[*byte]);
        assert!(matches!(reader.advance(&mut buffer, 128, false), ReadStep::NeedMore));
    }
    buffer.write(b"\n");
    assert!(matches!(reader.advance(&mut buffer, 128, false), ReadStep::Done));
    assert_eq!(reader.part, HeadPart::Headers);
    assert_eq!(reader.req.version, Version::Http10);
    assert_eq!(reader.req.get_header_full("a"), Some("b c".to_string()));
    assert_eq!(reader.req.get_header("d"), Some("e".to_string()));
}

#[test]
fn missing_parts_are_reported() {
    let at_end = |input: &[u8]| {
        let (mut reader, mut buffer, step) = read(input);
        assert!(matches!(step, ReadStep::NeedMore));
        match reader.advance(&mut buffer, 128, true) {
            ReadStep::Failed(err) => {
                assert_eq!(err.kind, ErrorKind::UnexpectedEof);
                err.message
            }
            step => panic!("{:?}", step),
        }
    };
    assert_eq!(at_end(b"GET / HT"), "No full request header start line was send.");
    assert_eq!(at_end(b"GET / HTTP/1.1\r\n"), "No request header was send.");
    assert_eq!(at_end(b"GET / HTTP/1.1\r\nA: b"), "No full request header was send.");
    assert_eq!(at_end(b"GET / HTTP/1.1\r\n\r"), "No full request header was send.");
}

#[test]
fn heads_are_limited_by_the_buffer() {
    let feed = |input: &[u8]| {
        let mut reader = RequestReader::new();
        let mut buffer = Buffer::with_capacity(36);
        for byte in input {
            assert_eq!(buffer.write(&[*byte]), 1);
            match reader.advance(&mut buffer, 128, false) {
                ReadStep::NeedMore => {}
                step => return (step, reader.taken),
            }
        }
        panic!("The head is incomplete.");
    };
    let (step, taken) = feed(b"GET / HTTP/1.1\r\nA: b\r\nC: d\r\nE: f\r\n\r\n");
    assert!(matches!(step, ReadStep::Done));
    assert_eq!(taken, 36);
    let (step, taken) = feed(b"GET / HTTP/1.1\r\nA: b\r\nC: d\r\nE: fg\r\n\r\n");
    assert_eq!(taken, 35);
    match step {
        ReadStep::Failed(err) => {
            assert_eq!(err.kind, ErrorKind::UnexpectedEof);
            assert_eq!(err.message, "No full request header was send.");
        }
        step => panic!("{:?}", step),
    }
}

#[test]
fn broken_heads_are_refused() {
    assert_eq!(failure(b"GET\r\n").message, "Start line do not contain a SP.");
    assert_eq!(
        failure(b"GET / HTTP/1.1\r\n\rx").message,
        "A header line started with a CR but was not followed by NL."
    );
    assert_eq!(
        failure(b"GET / HTTP/1.1\r\nA: b\rc\r\n\r\n").message,
        "A CR was not followed by NL."
    );
    let mut long = b"GET / HTTP/1.1\r\nA: ".to_vec();
    long.extend_from_slice(&[b'x'; 130]);
    long.extend_from_slice(b"\r\n\r\n");
    assert_eq!(failure(&long).message, "A header line exceeded the limit.");
}

#[test]
fn too_many_headers_are_reported() {
    let mut input = b"GET / HTTP/1.1\r\n".to_vec();
    for n in 0..40_000 {
        input.extend_from_slice(format!("h{}: v\r\n", n).as_bytes());
    }
    input.extend_from_slice(b"\r\n");
    let mut buffer = Buffer::from(input);
    let mut reader = RequestReader::new();
    assert!(matches!(reader.advance(&mut buffer, 128, false), ReadStep::Full));
    assert!(reader.req.headers.keys_len() > 6553);
}

#[test]
fn next_request_is_awaited() {
    let mut conn = Connection::new(Config::default(), Some(Buffer::with_capacity(1)));
    assert_eq!(conn.buffer.available_for_write(), 4096);
    conn.buffer.write(b"x");
    assert_eq!(conn.peek_request(), None);
    conn.buffer.reset();
    assert_eq!(conn.peek_request(), Some(5 * SECOND));
    assert_eq!(conn.peek_request(), Some(60 * SECOND));
}

#[test]
fn permission_to_send_a_body_is_given_once() {
    let mut conn = Connection::new(Config::default(), None);
    let mut req = Request::new(Version::Http11);
    conn.begin_request(&req);
    assert_eq!(conn.take_continue(Version::Http11), None);
    assert!(req.append_header(b"expect", b"100-continue"));
    conn.begin_request(&req);
    assert_eq!(
        conn.take_continue(Version::Http11),
        Some(b"HTTP/1.1 100 Continue\r\n\r\n".to_vec())
    );
    assert_eq!(conn.take_continue(Version::Http11), None);
}

#[test]
fn errors_of_handlers_are_answered() {
    assert!(matches!(Connection::reply(HandlerOutcome::Answered), Reply::Handler));
    for closing in [false, true] {
        let err = HttpError { status: 404, close: closing };
        match Connection::reply(HandlerOutcome::Failed(err)) {
            Reply::Error(resp, close) => {
                assert_eq!(resp.head(), b"HTTP/1.1 404 Not Found\r\ncontent-length: 0\r\n\r\n".to_vec());
                assert_eq!(close, closing);
            }
            reply => panic!("{:?}", reply),
        }
    }
    assert!(matches!(Connection::reply(HandlerOutcome::TimedOut), Reply::Nothing));
    assert!(matches!(Connection::reply(HandlerOutcome::Panicked), Reply::Nothing));
}

#[test]
fn body_is_filled_from_the_connection() {
    let mut conn = Connection::new(Config::default(), None);
    let mut body = conn.body_buffer(Some(vec![9; 8]));
    assert_eq!((body.available_for_read(), body.available_for_write()), (0, 8));
    assert_eq!(conn.body_buffer(None).available_for_write(), 4096);
    let amount = Connection::begin_body_read(&mut body, 100);
    assert_eq!(amount, 8);
    conn.buffer.write(b"abc");
    assert_eq!(conn.serve_buffered(&mut body, amount), Some(5));
    assert_eq!(body.as_ref(), b"abc");
    conn.buffer.write(b"defghijk");
    assert!(conn.serve_after_read(&mut body, 5, ReadOutcome::Read(8)).is_ok());
    assert_eq!(body.as_ref(), b"abcdefgh");
    assert_eq!(conn.buffer.as_ref(), b"ijk");
    let mut body = conn.body_buffer(None);
    assert_eq!(conn.serve_buffered(&mut body, 2), None);
    assert_eq!((body.as_ref(), conn.buffer.as_ref()), (&b"ij"[..], &b"k"[..]));
}

#[test]
fn failed_reads_are_reported() {
    let mut conn = Connection::new(Config::default(), None);
    let mut body = conn.body_buffer(None);
    let err = conn.serve_after_read(&mut body, 5, ReadOutcome::TimedOut).unwrap_err();
    assert_eq!(
        (err.kind, err.message),
        (ErrorKind::TimedOut, "Reading into the buffer timed out.")
    );
    let err = conn.serve_after_read(&mut body, 5, ReadOutcome::Read(0)).unwrap_err();
    assert_eq!((err.kind, err.message), (ErrorKind::UnexpectedEof, "No full body was send."));
    let broken = Error::new(ErrorKind::BrokenPipe, "broken");
    let err = conn.serve_after_read(&mut body, 5, ReadOutcome::Failed(broken)).unwrap_err();
    assert_eq!((err.kind, err.message), (ErrorKind::BrokenPipe, "broken"));
}

#[test]
fn fixed_body_is_counted() {
    let mut body = FixedBody::new(5);
    assert!(body.wants_more());
    body.wrote(3);
    assert!(body.wants_more());
    body.wrote(4);
    assert!(!body.wants_more());
    assert!(!FixedBody::new(0).wants_more());
}
