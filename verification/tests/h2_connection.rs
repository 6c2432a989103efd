use qhttp::config::{Config, SECOND};
use qhttp::http2::connection::{Action, After, Connection, Next, Rest, Step};
use qhttp::http2::error::{ErrorCode, H2Error};
use qhttp::http2::frame::{
    ContinuationFrame, DataFrame, Frame, FrameType, GoAwayFrame, HeadersFrame, PingFrame, Priority,
    PriorityFrame, RstStreamFrame, SettingsFrame, WindowUpdateFrame,
};
use qhttp::http2::stream::{ConnectionReq, StreamHandle, StreamReq};
use qhttp::response::Response;

fn connection() -> Connection {
    Connection::new(Config::default(), None, 0)
}

/// The header block of a GET request for the root, in indexed fields.
const GET: [u8; 3] = [0x82, 0x86, 0x84];

fn headers(stream: u32, block: &[u8]) -> Frame {
    Frame::from(HeadersFrame {
        stream,
        end_stream: true,
        end_headers: true,
        priority: None,
        data: block.to_vec(),
    })
}

fn failure(step: &Step) -> Option<H2Error> {
    match &step.next {
        Next::Exit(Err(err)) => Some(*err),
        _ => None,
    }
}

fn fails(step: &Step, code: ErrorCode) {
    assert_eq!(failure(step), Some(H2Error::Connection(code)));
    assert!(step.actions.is_empty());
}

fn written(step: &Step) -> Vec<&Frame> {
    step.actions
        .iter()
        .filter_map(|action| match action {
            Action::Write(frame) => Some(frame),
            _ => None,
        })
        .collect()
}

#[test]
fn connection_is_opened() {
    let mut conn = connection();
    let (frames, serve) = conn.opening();
    assert!(serve);
    assert_eq!(frames.len(), 1);
    assert_eq!(frames[0].header.frame_type, FrameType::Settings);
    conn.opened(5);
    assert_eq!(conn.settings_ack_timeouts, vec![5 + 5 * SECOND]);
    let mut config = Config::default();
    config.h2_initial_global_window_size = 100_000;
    let mut conn = Connection::new(config, None, 0);
    let (frames, serve) = conn.opening();
    assert!(serve);
    assert_eq!(frames.len(), 2);
    assert_eq!(frames[1].header.frame_type, FrameType::WindowUpdate);
    assert_eq!(frames[1].payload, (100_000u32 - 65_535).to_be_bytes().to_vec());
    assert_eq!(conn.peer_window, 100_000);
    config.h2_initial_global_window_size = 65_534;
    assert!(!Connection::new(config, None, 0).opening().1);
}

#[test]
fn request_opens_a_stream() {
    let mut conn = connection();
    let step = conn.on_frame(headers(1, &GET), 3);
    assert_eq!(conn.last_frame_received, 3);
    assert_eq!(step.actions.len(), 1);
    match &step.actions[0] {
        Action::Open(stream, req, true) => {
            assert_eq!((stream.id, stream.window, stream.peer_window), (1, 65_535, 65_535));
            assert_eq!(req.method, b"GET".to_vec());
            assert_eq!(req.target, b"/".to_vec());
        }
        action => panic!("{:?}", action),
    }
    assert!(matches!(step.next, Next::Continue));
    assert_eq!((conn.open_streams, conn.biggest_open_stream), (1, 1));
    assert!(!conn.streams[&1].closed);
}

#[test]
fn bad_stream_identifiers_are_refused() {
    let mut conn = connection();
    fails(&conn.on_frame(headers(2, &GET), 0), ErrorCode::ProtocolError);
    conn.on_frame(headers(5, &GET), 0);
    fails(&conn.on_frame(headers(3, &GET), 0), ErrorCode::ProtocolError);
    assert_eq!(conn.on_frame(headers(7, &GET), 0).actions.len(), 1);
}

#[test]
fn bad_header_blocks_are_refused() {
    let mut conn = connection();
    fails(&conn.on_frame(headers(1, &[0xff]), 0), ErrorCode::CompresssionError);
    let mut conn = connection();
    assert!(matches!(conn.on_frame(headers(1, &[0x3f]), 0).next, Next::Abort));
    let mut conn = connection();
    // A literal header without the pseudo headers which it needs.
    let step = conn.on_frame(headers(1, &[0x00, 1, b'x', 1, b'y']), 0);
    let frames = written(&step);
    assert_eq!(frames.len(), 1);
    assert_eq!(frames[0].header.frame_type, FrameType::RstStream);
    assert_eq!(frames[0].payload, vec![0, 0, 0, 1]);
    assert!(matches!(step.next, Next::Continue));
    assert_eq!(conn.open_streams, 0);
    let mut config = Config::default();
    config.request_header_buf_size = 2;
    let mut conn = Connection::new(config, None, 0);
    fails(&conn.on_frame(headers(1, &GET), 0), ErrorCode::ProtocolError);
}

#[test]
fn header_blocks_may_continue() {
    let mut conn = connection();
    let begin = Frame::from(HeadersFrame {
        stream: 1,
        end_stream: false,
        end_headers: false,
        priority: None,
        data: GET[..1].to_vec(),
    });
    assert!(conn.on_frame(begin, 1).actions.is_empty());
    assert_eq!(conn.pending_headers, Some((1, false)));
    let rest = |stream| {
        Frame::from(ContinuationFrame { stream, end_headers: true, data: GET[1..].to_vec() })
    };
    let step = conn.on_frame(rest(1), 9);
    assert!(matches!(step.actions[0], Action::Open(_, _, false)));
    assert_eq!((conn.pending_headers, conn.last_frame_received), (None, 1));
    conn.pending_headers = Some((1, false));
    fails(&conn.on_frame(rest(3), 9), ErrorCode::ProtocolError);
    let ping = Frame::from(PingFrame { ack: false, data: 0 });
    fails(&conn.on_frame(ping, 9), ErrorCode::ProtocolError);
    conn.pending_headers = None;
    fails(&conn.on_frame(rest(1), 9), ErrorCode::ProtocolError);
}

#[test]
fn streams_are_refused_above_the_limit() {
    let mut config = Config::default();
    config.h2_settings.max_concurrent_streams = Some(1);
    let mut conn = Connection::new(config, None, 0);
    assert!(matches!(conn.on_frame(headers(1, &GET), 0).actions[0], Action::Open(_, _, _)));
    let step = conn.on_frame(headers(3, &GET), 0);
    assert_eq!(step.actions.len(), 1);
    assert_eq!(written(&step)[0].payload, vec![0, 0, 0, 7]);
    assert_eq!(conn.open_streams, 1);
    assert_eq!(conn.header_buffer.available_for_read(), 0);
}

#[test]
fn data_is_passed_to_its_stream() {
    let mut conn = connection();
    let data = |stream, len| Frame::from(DataFrame { stream, end_stream: false, data: vec![0; len] });
    fails(&conn.on_frame(data(1, 5), 0), ErrorCode::ProtocolError);
    conn.on_frame(headers(1, &GET), 0);
    let step = conn.on_frame(data(1, 5), 0);
    assert!(matches!(step.actions[0], Action::Send(1, StreamReq::RequestBody(_))));
    assert_eq!(conn.peer_window, 65_530);
    fails(&conn.on_frame(data(1, 65_531), 0), ErrorCode::FlowControlError);
    let step = conn.on_request(ConnectionReq::UpdatePeerWindow(1, 5));
    let frames = written(&step);
    assert_eq!((frames[0].header.stream, frames[1].header.stream), (0, 1));
    assert_eq!(frames[0].payload, vec![0, 0, 0, 5]);
    assert_eq!(conn.peer_window, 65_535);
    fails(
        &conn.on_request(ConnectionReq::UpdatePeerWindow(1, i32::MAX)),
        ErrorCode::InternalError,
    );
    fails(&conn.on_request(ConnectionReq::UpdatePeerWindow(1, -1)), ErrorCode::InternalError);
}

#[test]
fn settings_of_the_peer_are_acknowledged() {
    let mut conn = connection();
    let mut frame = SettingsFrame::default();
    frame.initial_window_size = Some(65_545);
    let step = conn.on_frame(Frame::from(frame), 0);
    assert_eq!(step.actions.len(), 2);
    assert!(matches!(step.actions[0], Action::UpdateWindows(10)));
    assert_eq!(written(&step)[0].header.flags.bits(), 1);
    assert_eq!(conn.remote_settings.initial_window_size, 65_545);
    frame.initial_window_size = Some(u32::MAX);
    fails(&conn.on_frame(Frame::from(frame), 0), ErrorCode::FlowControlError);
    conn.opened(0);
    let mut ack = SettingsFrame::default();
    ack.ack = true;
    assert!(conn.on_frame(Frame::from(ack), 0).actions.is_empty());
    assert!(conn.settings_ack_timeouts.is_empty());
}

#[test]
fn pings_are_answered() {
    let mut conn = connection();
    let step = conn.on_frame(Frame::from(PingFrame { ack: false, data: 77 }), 0);
    let pong = PingFrame::try_from(Frame {
        header: written(&step)[0].header,
        payload: written(&step)[0].payload.clone(),
    });
    assert!(pong.unwrap().ack);
    assert_eq!(written(&step)[0].payload, 77u64.to_be_bytes().to_vec());
    conn.ping_ack_timeout = Some(9);
    fails(
        &conn.on_frame(Frame::from(PingFrame { ack: true, data: 77 }), 0),
        ErrorCode::ProtocolError,
    );
    conn.on_frame(Frame::from(PingFrame { ack: true, data: 42 }), 0);
    assert_eq!(conn.ping_ack_timeout, None);
}

#[test]
fn other_frames_are_handled() {
    let mut conn = connection();
    let priority = Priority { stream_dependency: 0, exclusive: false, weight: 1 };
    let step = conn.on_frame(Frame::from(PriorityFrame { stream: 1, priority }), 0);
    assert!(step.actions.is_empty() && matches!(step.next, Next::Continue));
    let reset = RstStreamFrame { stream: 1, error_code: Some(ErrorCode::Cancel) };
    let step = conn.on_frame(Frame::from(reset), 0);
    assert!(step.actions.is_empty() && matches!(step.next, Next::Continue));
    let away = GoAwayFrame { last_stream_id: 0, error_code: None, debug_data: Vec::new() };
    assert!(matches!(conn.on_frame(Frame::from(away), 0).next, Next::Exit(Ok(()))));
    let mut promise = headers(1, &GET);
    promise.header.frame_type = FrameType::PushPromise;
    fails(&conn.on_frame(promise, 0), ErrorCode::ProtocolError);
    let mut cramped = headers(1, &GET);
    cramped.header.flags = cramped.header.flags.union(32);
    assert!(matches!(conn.on_frame(cramped, 0).next, Next::Abort));
}

#[test]
fn window_is_given_to_waiting_streams() {
    let mut conn = connection();
    conn.on_frame(headers(1, &GET), 0);
    let step = conn.on_request(ConnectionReq::GetWindow(1, 70_000));
    assert!(matches!(step.actions[0], Action::Send(1, StreamReq::AvailableWindow(65_535))));
    assert_eq!(conn.global_window, 0);
    let update = WindowUpdateFrame { stream: 0, window_size_increment: 10_000 };
    let step = conn.on_frame(Frame::from(update), 0);
    assert!(matches!(step.actions[0], Action::Send(1, StreamReq::AvailableWindow(4_465))));
    assert_eq!(conn.global_window, 5_535);
    conn.on_request(ConnectionReq::PutWindow(65));
    assert_eq!(conn.global_window, 5_600);
    fails(&conn.on_request(ConnectionReq::PutWindow(i32::MAX)), ErrorCode::InternalError);
}

#[test]
fn window_of_a_stream_is_delivered() {
    let mut conn = connection();
    conn.on_frame(headers(1, &GET), 0);
    let update = || Frame::from(WindowUpdateFrame { stream: 1, window_size_increment: 9 });
    let step = conn.on_frame(update(), 0);
    let after = match step.next {
        Next::Deliver(1, StreamReq::WindowUpdate(9), after) => after,
        next => panic!("{:?}", next),
    };
    assert!(matches!(conn.delivered(after, true).next, Next::Continue));
    // The stream is gone, so that it gets reset.
    let step = conn.delivered(after, false);
    let after = match step.next {
        Next::Deliver(1, StreamReq::Reset, after) => after,
        next => panic!("{:?}", next),
    };
    assert_eq!(after, After::Reset(1, ErrorCode::StreamClosed, Rest::Distribute));
    assert!(conn.streams[&1].closed);
    let step = conn.delivered(after, false);
    assert!(matches!(step.actions[0], Action::Forget(1)));
    assert_eq!(written(&step)[0].payload, vec![0, 0, 0, 5]);
    assert!(conn.streams.is_empty());
    // Nobody is there to be told.
    let step = conn.on_frame(update(), 0);
    assert!(step.actions.is_empty() && matches!(step.next, Next::Continue));
}

#[test]
fn stream_errors_reset_the_stream() {
    let mut conn = connection();
    conn.streams.insert(1, StreamHandle { closed: false });
    conn.open_streams = 1;
    let error = H2Error::Stream(ErrorCode::Cancel);
    let step = conn.on_request(ConnectionReq::StreamClosing(1, Some(error)));
    let after = match step.next {
        Next::Deliver(1, StreamReq::Reset, after) => after,
        next => panic!("{:?}", next),
    };
    let step = conn.delivered(after, true);
    assert_eq!(written(&step)[0].payload, vec![0, 0, 0, 8]);
    assert_eq!(conn.open_streams, 0);
    fails(
        &conn.handle_possible_stream_error(error, 0, Rest::Nothing),
        ErrorCode::InternalError,
    );
    let error = H2Error::Connection(ErrorCode::Cancel);
    fails(&conn.handle_possible_stream_error(error, 1, Rest::Nothing), ErrorCode::Cancel);
    fails(
        &conn.on_request(ConnectionReq::StreamClosing(1, None)),
        ErrorCode::InternalError,
    );
    assert!(matches!(
        conn.on_request(ConnectionReq::StreamClosed(1)).actions[0],
        Action::Forget(1)
    ));
    assert!(conn.streams.is_empty());
}

#[test]
fn shutdown_waits_for_the_last_stream() {
    let mut conn = connection();
    assert!(matches!(conn.on_shutdown(0).next, Next::Exit(Ok(()))));
    conn.on_frame(headers(1, &GET), 0);
    conn.opened(2);
    let step = conn.on_shutdown(7);
    assert_eq!(written(&step)[0].payload, vec![0, 3, 0, 0, 0, 0]);
    assert_eq!(conn.settings_ack_timeouts, vec![2 + 5 * SECOND, 7 + 5 * SECOND]);
    let step = conn.on_frame(headers(3, &GET), 8);
    assert_eq!(written(&step)[0].payload, vec![0, 0, 0, 7]);
    assert!(matches!(
        conn.on_request(ConnectionReq::StreamClosing(1, None)).next,
        Next::Exit(Ok(()))
    ));
}

#[test]
fn timeouts_are_checked() {
    let mut conn = connection();
    assert!(conn.on_timer(60 * SECOND).actions.is_empty());
    let step = conn.on_timer(60 * SECOND + 1);
    assert_eq!(written(&step)[0].payload, 42u64.to_be_bytes().to_vec());
    assert_eq!(conn.ping_ack_timeout, Some(65 * SECOND + 1));
    for second in 61..=65 {
        let step = conn.on_timer(second * SECOND + 1);
        assert!(step.actions.is_empty());
        assert!(matches!(step.next, Next::Continue));
        assert_eq!(conn.ping_ack_timeout, Some(65 * SECOND + 1));
    }
    fails(&conn.on_timer(65 * SECOND + 2), ErrorCode::ProtocolError);
    conn.opened(0);
    fails(&conn.on_timer(65 * SECOND + 2), ErrorCode::SettingsTimeout);
}

#[test]
fn each_settings_frame_has_its_own_deadline() {
    let mut conn = connection();
    conn.on_frame(headers(1, &GET), 0);
    conn.opened(0);
    conn.on_shutdown(4 * SECOND);
    let mut ack = SettingsFrame::default();
    ack.ack = true;
    conn.on_frame(Frame::from(ack), 4 * SECOND);
    assert!(matches!(conn.on_timer(6 * SECOND).next, Next::Continue));
    assert!(matches!(conn.on_timer(9 * SECOND).next, Next::Continue));
    fails(&conn.on_timer(9 * SECOND + 1), ErrorCode::SettingsTimeout);
    let mut conn = connection();
    conn.on_frame(headers(1, &GET), 0);
    conn.opened(0);
    conn.on_shutdown(4 * SECOND);
    fails(&conn.on_timer(5 * SECOND + 1), ErrorCode::SettingsTimeout);
}

#[test]
fn response_is_encoded() {
    let mut conn = connection();
    let resp = Response::with_status(200);
    let step = conn.on_request(ConnectionReq::Response(resp, 1, true));
    let frames = written(&step);
    assert_eq!(frames.len(), 1);
    assert_eq!(frames[0].header.frame_type, FrameType::Headers);
    assert_eq!(frames[0].header.flags.bits(), 5);
    let block = frames[0].payload.clone();
    assert_eq!(
        hpack::Decoder::new().decode(&block).unwrap(),
        vec![(b":status".to_vec(), b"200".to_vec())]
    );
    let frame = Frame::from(PingFrame { ack: false, data: 1 });
    assert_eq!(written(&conn.on_request(ConnectionReq::Frame(frame))).len(), 1);
}

#[test]
fn connection_says_goodbye() {
    let mut conn = connection();
    conn.on_frame(headers(5, &GET), 0);
    assert_eq!(conn.go_away(Ok(())).payload, vec![0, 0, 0, 5, 0, 0, 0, 0]);
    let err = Err(H2Error::Stream(ErrorCode::StreamClosed));
    assert_eq!(conn.go_away(err).payload, vec![0, 0, 0, 5, 0, 0, 0, 5]);
}
