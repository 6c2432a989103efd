use qhttp::http2::error::{ErrorCode, H2Error};
use qhttp::http2::frame::{DataFrame, FrameType};
use qhttp::http2::stream::{
    BackgroundRead, BodyRead, BodySender, ConnectionReq, HandlerOutcome, RequestBody, Stream,
    StreamHandle, StreamReq, StreamState, StreamStep,
};
use qhttp::message::{HttpError, Request, Version};

fn stream() -> Stream {
    Stream::new(7, StreamState::Open, 100, 50)
}

fn data(len: usize) -> DataFrame {
    DataFrame { stream: 7, end_stream: false, data: vec![1; len] }
}

fn post(headers: &[(&str, &str)]) -> Request {
    let mut req = Request::new(Version::Http2);
    req.method = b"POST".to_vec();
    for (name, value) in headers {
        assert!(req.append_header(name.as_bytes(), value.as_bytes()));
    }
    req
}

#[test]
fn states_forbid_frames() {
    let check = |state: StreamState, frame_type| state.is_frame_forbidden(frame_type);
    assert_eq!(check(StreamState::Idle, FrameType::Headers), Ok(()));
    assert_eq!(
        check(StreamState::Idle, FrameType::Data),
        Err(H2Error::Connection(ErrorCode::ProtocolError))
    );
    assert_eq!(check(StreamState::ReservedLocal, FrameType::RstStream), Ok(()));
    assert!(check(StreamState::ReservedLocal, FrameType::Headers).is_err());
    assert_eq!(check(StreamState::ReservedRemote, FrameType::Headers), Ok(()));
    assert!(check(StreamState::ReservedRemote, FrameType::WindowUpdate).is_err());
    assert_eq!(check(StreamState::Open, FrameType::Data), Ok(()));
    assert_eq!(check(StreamState::HalfClosedLocal, FrameType::Data), Ok(()));
    assert_eq!(
        check(StreamState::HalfClosedRemote, FrameType::Data),
        Err(H2Error::Stream(ErrorCode::StreamClosed))
    );
    assert_eq!(check(StreamState::Closed, FrameType::WindowUpdate), Ok(()));
    assert_eq!(
        check(StreamState::Closed, FrameType::Headers),
        Err(H2Error::Stream(ErrorCode::StreamClosed))
    );
}

#[test]
fn windows_of_a_stream_are_updated() {
    let mut stream = stream();
    assert!(stream.handle_req(StreamReq::WindowUpdate(20)).is_ok());
    assert!(stream.handle_req(StreamReq::AvailableWindow(30)).is_ok());
    assert_eq!((stream.window, stream.available_window), (120, 30));
    assert!(stream.handle_req(StreamReq::WindowUpdate(-200)).is_ok());
    assert_eq!(stream.window, -80);
    let overflow = stream.handle_req(StreamReq::AvailableWindow(i32::MAX)).unwrap_err();
    assert_eq!(overflow, H2Error::Connection(ErrorCode::ProtocolError));
    let reset = stream.handle_req(StreamReq::Reset).unwrap_err();
    assert_eq!(reset, H2Error::Stream(ErrorCode::NoError));
}

#[test]
fn body_data_needs_a_reader_and_a_window() {
    let mut stream = stream();
    let err = stream.handle_req(StreamReq::RequestBody(data(1))).unwrap_err();
    assert_eq!(err, H2Error::Connection(ErrorCode::ProtocolError));
    stream.has_body = true;
    let err = stream.handle_req(StreamReq::RequestBody(data(51))).unwrap_err();
    assert_eq!(err, H2Error::Connection(ErrorCode::FlowControlError));
    match stream.handle_req(StreamReq::RequestBody(data(50))).unwrap() {
        StreamStep::Deliver(data, 50) => assert_eq!(data, vec![1; 50]),
        step => panic!("{:?}", step),
    }
    assert!(stream.body_delivered(50, true).is_none());
    assert_eq!(stream.peer_window, 0);
    assert!(matches!(
        stream.body_consumed(50),
        Ok(ConnectionReq::UpdatePeerWindow(7, 50))
    ));
    assert_eq!(stream.peer_window, 50);
    assert!(matches!(
        stream.body_delivered(20, false),
        Some(ConnectionReq::UpdatePeerWindow(7, 20))
    ));
    assert_eq!(stream.peer_window, 50);
    let err = stream.body_consumed(i32::MAX).unwrap_err();
    assert_eq!(err, H2Error::Connection(ErrorCode::InternalError));
}

#[test]
fn body_of_a_stream_is_opened() {
    let mut open = stream();
    match open.open_body(&post(&[("content-length", "5")]), false) {
        RequestBody::Body(Some(5)) => assert!(open.has_body),
        body => panic!("{:?}", body),
    }
    let mut open = stream();
    assert!(matches!(open.open_body(&post(&[]), false), RequestBody::Body(None)));
    let mut open = stream();
    assert!(matches!(open.open_body(&post(&[]), true), RequestBody::Empty));
    assert!(!open.has_body);
    assert!(matches!(
        open.open_body(&Request::new(Version::Http2), false),
        RequestBody::Empty
    ));
    match open.open_body(&post(&[("content-length", "x")]), false) {
        RequestBody::Refused(resp) => assert_eq!(resp.status, 400),
        body => panic!("{:?}", body),
    }
}

#[test]
fn failed_handlers_are_answered() {
    assert!(Stream::answer(HandlerOutcome::Answered).is_none());
    let resp = Stream::answer(HandlerOutcome::Failed(HttpError::from(403))).unwrap();
    assert_eq!((resp.status, resp.headers.len()), (403, 1));
    assert_eq!(resp.headers["content-length"], "0");
    let resp = Stream::answer(HandlerOutcome::TimedOut).unwrap();
    assert_eq!((resp.status, resp.headers.len()), (500, 0));
    assert_eq!(Stream::answer(HandlerOutcome::Panicked).unwrap().status, 500);
    assert_eq!(Stream::generate_resp(418).status, 418);
}

#[test]
fn unused_window_is_given_back() {
    let mut ending = stream();
    ending.available_window = 12;
    let reqs = ending.finish(Some(H2Error::Stream(ErrorCode::Cancel)));
    assert_eq!(reqs.len(), 3);
    assert!(matches!(reqs[0], ConnectionReq::PutWindow(12)));
    assert!(matches!(
        reqs[1],
        ConnectionReq::StreamClosing(7, Some(H2Error::Stream(ErrorCode::Cancel)))
    ));
    assert!(matches!(reqs[2], ConnectionReq::StreamClosed(7)));
    assert_eq!(stream().finish(None).len(), 2);
}

#[test]
fn body_is_sent_as_far_as_the_windows_allow() {
    let mut sending = stream();
    let mut sender = BodySender::new();
    sender.buffer.write(&[5; 130]);
    sender.received(130).unwrap();
    let progress = sending.advance_body(&mut sender);
    assert!(!progress.done);
    assert_eq!(progress.reqs.len(), 1);
    assert!(matches!(progress.reqs[0], ConnectionReq::GetWindow(7, 100)));
    assert_eq!((sending.window, sender.window_needed), (0, 30));
    sending.handle_req(StreamReq::AvailableWindow(100)).unwrap();
    sending.handle_req(StreamReq::WindowUpdate(500)).unwrap();
    let progress = sending.advance_body(&mut sender);
    assert!(!progress.done);
    assert_eq!(progress.reqs.len(), 2);
    assert!(matches!(progress.reqs[0], ConnectionReq::GetWindow(7, 30)));
    match &progress.reqs[1] {
        ConnectionReq::Frame(frame) => assert_eq!(frame.payload, vec![5; 100]),
        req => panic!("{:?}", req),
    }
    sending.handle_req(StreamReq::AvailableWindow(30)).unwrap();
    let progress = sending.advance_body(&mut sender);
    assert!(progress.done);
    assert_eq!(progress.reqs.len(), 1);
    assert_eq!((sending.window, sending.available_window), (470, 0));
    match sending.end_body() {
        ConnectionReq::Frame(frame) => {
            assert_eq!((frame.header.flags.bits(), frame.payload.len()), (1, 0));
        }
        req => panic!("{:?}", req),
    }
}

#[test]
fn handles_build_messages() {
    let handle = StreamHandle { closed: false };
    assert!(matches!(handle.update_window(5), StreamReq::WindowUpdate(5)));
    assert!(matches!(handle.give_from_global_window(6), StreamReq::AvailableWindow(6)));
    let req = handle.send_data(data(2));
    assert_eq!(req.undelivered(), H2Error::Stream(ErrorCode::StreamClosed));
    assert!(matches!(req, StreamReq::RequestBody(_)));
    assert_eq!(
        StreamReq::AvailableWindow(1).undelivered(),
        H2Error::Connection(ErrorCode::InternalError)
    );
}

#[test]
fn read_data_is_credited() {
    let mut read = BackgroundRead::new();
    assert!(matches!(read.next_step(3), BodyRead::Wait(None)));
    let (got, credit) = read.received(Some(b"abcde".to_vec()), 3);
    assert_eq!((got, credit), (b"abc".to_vec(), None));
    match read.next_step(3) {
        BodyRead::Deliver(data, credit) => {
            assert_eq!((data, credit), (b"de".to_vec(), Some(5)));
        }
        step => panic!("{:?}", step),
    }
    let (got, credit) = read.received(Some(Vec::new()), 3);
    assert_eq!((got.len(), credit), (0, None));
    let (got, credit) = read.received(None, 3);
    assert_eq!((got.len(), credit), (0, None));
    let _ = read.received(Some(b"xyz".to_vec()), 1);
    assert_eq!(read.abandon(), Some(3));
    assert_eq!(read.abandon(), None);
    assert_eq!(BackgroundRead::abandon_frame(9), Some(9));
}
