use qhttp::error::{Error, ErrorKind};
use qhttp::message::{is_safe_method, BodyType, HttpError, Request, Version};
use qhttp::response::{continue_response, date_from_text, Response};
use qhttp::util::byterange::ByteRange;

fn request(method: &str, headers: &[(&str, &str)]) -> Request {
    let mut req = Request::new(Version::Http11);
    req.method = method.as_bytes().to_vec();
    for (name, value) in headers {
        assert!(req.append_header(name.as_bytes(), value.as_bytes()));
    }
    req
}

#[test]
fn new_request_asks_for_the_root() {
    let req = Request::new(Version::Http2);
    assert_eq!(req.method, b"GET".to_vec());
    assert_eq!(req.target, b"/".to_vec());
    assert_eq!(req.version, Version::Http2);
    assert_eq!(req.headers.len(), 0);
}

#[test]
fn headers_are_found_by_their_name_in_any_case() {
    let req = request("GET", &[("X-Test", "one"), ("x-test", "two"), ("Host", "here")]);
    assert_eq!(req.get_header("x-TEST"), Some("one".to_string()));
    assert_eq!(req.get_header("missing"), None);
    assert_eq!(req.get_header("not a name"), None);
    assert_eq!(req.get_header_full("X-Test"), Some("one two".to_string()));
    assert_eq!(
        req.get_header_full_with_seperator("X-Test", ", "),
        Some("one, two".to_string())
    );
    assert_eq!(req.get_header_full("missing"), None);
    assert_eq!(req.headers.len(), 3);
    assert_eq!(req.headers.keys_len(), 2);
}

#[test]
fn unreadable_headers_are_skipped() {
    let mut req = request("GET", &[]);
    assert!(req.append_header(b"x", b"\xff"));
    assert!(req.append_header(b"x", b"ok"));
    assert_eq!(req.get_header("x"), None);
    assert_eq!(req.get_header_full("x"), Some("ok".to_string()));
}

#[test]
fn expectation_is_recognized() {
    assert!(request("POST", &[("Expect", "100-continue")]).expects_continue());
    assert!(!request("POST", &[("Expect", "100-Continue")]).expects_continue());
    assert!(!request("POST", &[]).expects_continue());
}

#[test]
fn content_length_is_read() {
    assert_eq!(request("POST", &[("Content-Length", "42")]).get_content_length(), Some(42));
    assert_eq!(request("POST", &[("Content-Length", "x")]).get_content_length(), None);
    assert_eq!(request("POST", &[]).get_content_length(), None);
}

#[test]
fn dates_are_read() {
    let date = "Thu, 01 Jan 1970 01:00:05 +0100";
    let req = request("GET", &[("If-Modified-Since", date)]);
    assert_eq!(req.get_if_modified_since(), Some((5, 0, 3600)));
    assert_eq!(req.get_if_unmodified_since(), None);
    let req = request("GET", &[("If-Unmodified-Since", "Fri, 13 Feb 2009 23:31:30 GMT")]);
    assert_eq!(req.get_if_unmodified_since(), Some((1234567890, 0, 0)));
    assert_eq!(request("GET", &[("If-Modified-Since", "soon")]).get_if_modified_since(), None);
}

#[test]
fn ranges_are_read() {
    let req = request("GET", &[("Range", "bytes=1-2")]);
    assert_eq!(
        req.get_range().unwrap(),
        Some(vec![ByteRange { begin: Some(1), end: Some(2) }])
    );
    assert_eq!(request("GET", &[]).get_range().unwrap(), None);
    let err = request("GET", &[("Range", "bytes=2-1")]).get_range().unwrap_err();
    assert_eq!(err, HttpError { status: 400, close: false });
    let mut req = request("GET", &[]);
    assert!(req.append_header(b"Range", b"bytes=1-2\xff"));
    assert_eq!(req.get_range().unwrap_err(), HttpError { status: 400, close: false });
}

#[test]
fn body_of_a_first_version_request_is_framed() {
    let ok = |method: &str, headers: &[(&str, &str)]| {
        request(method, headers).determine_body_type().unwrap()
    };
    assert_eq!(ok("GET", &[("Content-Length", "5")]), BodyType::NoBody);
    assert_eq!(ok("POST", &[("Content-Length", "5")]), BodyType::Fixed(5));
    assert_eq!(ok("POST", &[("Content-Length", "0")]), BodyType::NoBody);
    assert_eq!(ok("POST", &[]), BodyType::NoBody);
    assert_eq!(
        ok("POST", &[("Content-Length", "5"), ("Transfer-Encoding", "chunked")]),
        BodyType::Chunked
    );
    let err = request("POST", &[("Transfer-Encoding", "gzip")]).determine_body_type().unwrap_err();
    assert_eq!(err.kind, ErrorKind::InvalidData);
    assert_eq!(err.message, "Unknown transfer encoding.");
    let err = request("POST", &[("Content-Length", "x")]).determine_body_type().unwrap_err();
    assert_eq!(err.message, "Invalid header value. (Not an integer)");
}

#[test]
fn body_of_a_second_version_request_is_framed() {
    let ok = |method: &str, headers: &[(&str, &str)]| {
        request(method, headers).determine_body_type_h2().unwrap()
    };
    assert_eq!(ok("HEAD", &[("Content-Length", "5")]), BodyType::NoBody);
    assert_eq!(ok("PUT", &[("Content-Length", "5")]), BodyType::Fixed(5));
    assert_eq!(ok("PUT", &[]), BodyType::Chunked);
    assert_eq!(ok("PUT", &[("Transfer-Encoding", "gzip")]), BodyType::Chunked);
    let req = request("PUT", &[("Transfer-Encoding", "chunked")]);
    assert_eq!(req.determine_body_type_h2().unwrap_err().message, "Unknown transfer encoding.");
    assert!(req.validate().is_ok());
}

#[test]
fn safe_methods_are_recognized() {
    for method in ["GET", "HEAD", "OPTIONS", "TRACE"] {
        assert!(is_safe_method(method.as_bytes()));
    }
    assert!(!is_safe_method(b"POST"));
    assert!(!is_safe_method(b"get"));
}

#[test]
fn errors_are_turned_into_answers() {
    let status = |kind| HttpError::from(Error::new(kind, "")).status;
    assert_eq!(status(ErrorKind::InvalidData), 400);
    assert_eq!(status(ErrorKind::NotFound), 404);
    assert_eq!(status(ErrorKind::PermissionDenied), 403);
    assert_eq!(status(ErrorKind::TimedOut), 500);
    assert_eq!(HttpError::from(418).to_string(), "HttpError(status: 418, close: false)");
    let err = HttpError { status: 500, close: true };
    assert_eq!(err.to_string(), "HttpError(status: 500, close: true)");
    assert_eq!(Error::new(ErrorKind::Other, "x").kind(), ErrorKind::Other);
}

#[test]
fn versions_have_names() {
    assert_eq!(Version::Http09.to_bytes(), b"HTTP/0.9".to_vec());
    assert_eq!(Version::Http10.to_bytes(), b"HTTP/1.0".to_vec());
    assert_eq!(Version::Http11.to_bytes(), b"HTTP/1.1".to_vec());
    assert_eq!(Version::Http2.to_bytes(), b"HTTP/2.0".to_vec());
    assert_eq!(Version::Http3.to_bytes(), b"HTTP/3.0".to_vec());
}

#[test]
fn response_head_is_written() {
    let mut resp = Response::with_status(404);
    assert!(resp.set_content_type(b"text/plain"));
    assert!(resp.finalize_response(Some(Some(12))));
    assert_eq!(
        resp.head(),
        b"HTTP/1.1 404 Not Found\r\ncontent-type: text/plain\r\ncontent-length: 12\r\n\r\n".to_vec()
    );
    let resp = Response::with_status(599);
    assert_eq!(resp.head(), b"HTTP/1.1 599 \r\n\r\n".to_vec());
    assert_eq!(resp.head_with_reason(Some("Odd")), b"HTTP/1.1 599 Odd\r\n\r\n".to_vec());
}

#[test]
fn response_body_is_framed() {
    let mut resp = Response::new();
    assert!(resp.finalize_response(Some(None)));
    assert_eq!(resp.head(), b"HTTP/1.1 200 OK\r\ntransfer-encoding: chunked\r\n\r\n".to_vec());
    let mut resp = Response::new();
    assert!(resp.finalize_response(None));
    assert_eq!(resp.head(), b"HTTP/1.1 200 OK\r\ncontent-length: 0\r\n\r\n".to_vec());
    let resp = Response::without_body(500);
    assert_eq!(
        resp.head(),
        b"HTTP/1.1 500 Internal Server Error\r\ncontent-length: 0\r\n\r\n".to_vec()
    );
}

#[test]
fn response_is_dated_once() {
    let mut resp = Response::new();
    assert!(resp.add_date(1234567890));
    assert!(resp.add_date(0));
    assert_eq!(
        resp.head(),
        b"HTTP/1.1 200 OK\r\ndate: Fri, 13 Feb 2009 23:31:30 GMT\r\n\r\n".to_vec()
    );
    let mut resp = Response::new();
    assert!(resp.add_date_text("Tue, 1 Jul 2003 10:52:37 +0000"));
    assert_eq!(
        resp.head(),
        b"HTTP/1.1 200 OK\r\ndate: Tue, 1 Jul 2003 10:52:37 GMT\r\n\r\n".to_vec()
    );
    assert_eq!(date_from_text("now +0000"), b"now GMT".to_vec());
}

#[test]
fn interim_response_is_written() {
    assert_eq!(
        continue_response(Version::Http11),
        b"HTTP/1.1 100 Continue\r\n\r\n".to_vec()
    );
}
