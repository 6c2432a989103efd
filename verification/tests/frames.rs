use qhttp::http2::error::{ErrorCode, H2Error};
use qhttp::http2::frame::{
    ContinuationFrame, DataFrame, Flags, Frame, FrameHeader, FrameHeaderRaw, FrameType,
    GoAwayFrame, HeadersFrame, PingFrame, Priority, PriorityFrame, RstStreamFrame, SettingsFrame,
    WindowUpdateFrame,
};
use qhttp::http2::settings::{Settings, SettingsIdent};

fn raw(frame_type: u8, length: u32, flags: u8, stream: u32) -> FrameHeaderRaw {
    FrameHeaderRaw { length, frame_type, flags, stream }
}

fn reassemble(frame: &Frame) -> Result<Frame, H2Error> {
    let bytes = frame.to_bytes();
    let header = FrameHeaderRaw::from_slice(&bytes)?;
    assert_eq!(header.length as usize, bytes.len() - 9);
    Frame::from_header_and_payload(header, &bytes[9..])
}

#[test]
fn frame_bytes_are_written() {
    let frame = Frame::from(DataFrame { stream: 0x01020304, end_stream: true, data: vec![9, 8] });
    assert_eq!(frame.to_bytes(), vec![0, 0, 2, 0, 1, 1, 2, 3, 4, 9, 8]);
}

#[test]
fn frame_header_is_read() {
    let header = FrameHeaderRaw::from_slice(&[0, 1, 2, 3, 4, 0x80, 0, 0, 5]).unwrap();
    assert_eq!(header.length, 258);
    assert_eq!(header.frame_type, 3);
    assert_eq!(header.flags, 4);
    assert_eq!(header.stream, 5);
    assert_eq!(
        FrameHeaderRaw::from_slice(&[0; 8]).unwrap_err(),
        H2Error::Connection(ErrorCode::ProtocolError)
    );
}

#[test]
fn data_frame_round_trip() {
    let frame = Frame::from(DataFrame { stream: 1, end_stream: true, data: b"abc".to_vec() });
    let frame = DataFrame::try_from(reassemble(&frame).unwrap()).unwrap();
    assert_eq!((frame.stream, frame.end_stream, frame.data), (1, true, b"abc".to_vec()));
}

#[test]
fn padding_is_removed() {
    let frame = Frame::from_header_and_payload(raw(0, 6, 8, 1), &[2, b'a', b'b', b'c', 0, 0]);
    assert_eq!(frame.unwrap().payload, b"abc".to_vec());
    let frame = Frame::from_header_and_payload(raw(0, 3, 8, 1), &[3, 0, 0]);
    assert_eq!(frame.unwrap_err(), H2Error::Connection(ErrorCode::ProtocolError));
}

#[test]
fn headers_frame_round_trip() {
    let frame = Frame::from(HeadersFrame {
        stream: 3,
        end_stream: false,
        end_headers: true,
        priority: None,
        data: vec![1, 2, 3],
    });
    let frame = reassemble(&frame).unwrap();
    assert!(HeadersFrame::has_room(&frame));
    let frame = HeadersFrame::try_from(frame).unwrap();
    assert_eq!((frame.stream, frame.end_stream, frame.end_headers), (3, false, true));
    assert!(frame.priority.is_none());
    assert_eq!(frame.data, vec![1, 2, 3]);
}

#[test]
fn priority_of_a_headers_frame_is_read() {
    let payload = [0x80, 0, 0, 7, 42, 1, 2];
    let frame = Frame::from_header_and_payload(raw(1, 7, 32 | 4, 3), &payload).unwrap();
    let frame = HeadersFrame::try_from(frame).unwrap();
    let priority = frame.priority.unwrap();
    assert_eq!(
        (priority.stream_dependency, priority.exclusive, priority.weight),
        (7, true, 42)
    );
    assert_eq!(frame.data, vec![1, 2]);
    let bytes: Vec<u8> = Vec::from(priority);
    assert_eq!(bytes, payload[..5].to_vec());
}

#[test]
fn priority_frame_round_trip() {
    let priority = Priority { stream_dependency: 5, exclusive: false, weight: 200 };
    let frame = Frame::from(PriorityFrame { stream: 9, priority });
    let frame = PriorityFrame::try_from(reassemble(&frame).unwrap()).unwrap();
    assert_eq!((frame.stream, frame.priority.stream_dependency), (9, 5));
    assert_eq!((frame.priority.exclusive, frame.priority.weight), (false, 200));
}

#[test]
fn rst_stream_frame_round_trip() {
    let frame = Frame::from(RstStreamFrame { stream: 5, error_code: Some(ErrorCode::Cancel) });
    assert_eq!(frame.payload, vec![0, 0, 0, 8]);
    let frame = RstStreamFrame::try_from(reassemble(&frame).unwrap()).unwrap();
    assert_eq!((frame.stream, frame.error_code), (5, Some(ErrorCode::Cancel)));
    let frame = Frame::from(RstStreamFrame { stream: 5, error_code: None });
    assert_eq!(frame.payload, vec![0, 0, 0, 2]);
}

#[test]
fn settings_frame_round_trip() {
    let settings = Settings {
        header_table_size: 1,
        enable_push: false,
        max_concurrent_streams: Some(3),
        initial_window_size: 4,
        max_frame_size: 16_385,
        max_header_list_size: Some(6),
    };
    let frame = Frame::from(SettingsFrame::from(settings));
    assert_eq!(frame.payload.len(), 36);
    assert_eq!(&frame.payload[..12], &[0, 1, 0, 0, 0, 1, 0, 2, 0, 0, 0, 0]);
    let frame = SettingsFrame::try_from(reassemble(&frame).unwrap()).unwrap();
    assert_eq!(frame.ack, false);
    assert_eq!(frame.header_table_size, Some(1));
    assert_eq!(frame.enable_push, Some(false));
    assert_eq!(frame.max_concurrent_streams, Some(3));
    assert_eq!(frame.initial_window_size, Some(4));
    assert_eq!(frame.max_frame_size, Some(16_385));
    assert_eq!(frame.max_header_list_size, Some(6));
}

#[test]
fn broken_settings_are_refused() {
    let read = |flags: u8, payload: &[u8]| {
        let header = raw(4, payload.len() as u32, flags, 0);
        SettingsFrame::try_from(Frame::from_header_and_payload(header, payload).unwrap())
    };
    let protocol = H2Error::Connection(ErrorCode::ProtocolError);
    assert!(read(0, &[0, 1, 0, 0, 0, 1]).is_ok());
    assert_eq!(read(0, &[0, 2, 0, 0, 0, 2]).unwrap_err(), protocol);
    assert_eq!(read(0, &[0, 7, 0, 0, 0, 2]).unwrap_err(), protocol);
    assert_eq!(read(0, &[0, 1, 0, 0, 0, 1, 0, 1, 0, 0, 0, 1]).unwrap_err(), protocol);
    assert_eq!(
        read(1, &[0, 1, 0, 0, 0, 1]).unwrap_err(),
        H2Error::Connection(ErrorCode::FrameSizeError)
    );
    assert!(read(1, &[]).unwrap().ack);
}

#[test]
fn ping_frame_round_trip() {
    let frame = Frame::from(PingFrame { ack: true, data: 0x0102030405060708 });
    assert_eq!(frame.payload, vec![1, 2, 3, 4, 5, 6, 7, 8]);
    let frame = PingFrame::try_from(reassemble(&frame).unwrap()).unwrap();
    assert_eq!((frame.ack, frame.data), (true, 0x0102030405060708));
}

#[test]
fn go_away_frame_round_trip() {
    let frame = Frame::from(GoAwayFrame {
        last_stream_id: 7,
        error_code: Some(ErrorCode::EnhanceYourCalm),
        debug_data: b"calm".to_vec(),
    });
    let frame = GoAwayFrame::try_from(reassemble(&frame).unwrap()).unwrap();
    assert_eq!(frame.last_stream_id, 7);
    assert_eq!(frame.error_code, Some(ErrorCode::EnhanceYourCalm));
    assert_eq!(frame.debug_data, b"calm".to_vec());
}

#[test]
fn window_update_frame_round_trip() {
    let frame = Frame::from(WindowUpdateFrame { stream: 3, window_size_increment: 65_536 });
    assert_eq!(frame.payload, vec![0, 1, 0, 0]);
    let frame = WindowUpdateFrame::try_from(reassemble(&frame).unwrap()).unwrap();
    assert_eq!((frame.stream, frame.window_size_increment), (3, 65_536));
}

#[test]
fn continuation_frame_round_trip() {
    let frame =
        Frame::from(ContinuationFrame { stream: 3, end_headers: true, data: vec![7] });
    assert_eq!(frame.header.flags.bits(), Flags::END_HEADERS);
    let frame = ContinuationFrame::try_from(frame).unwrap();
    assert_eq!((frame.stream, frame.end_headers, frame.data), (3, true, vec![7]));
}

#[test]
fn frame_headers_are_checked() {
    let check = |frame_type, length, flags, stream| {
        FrameHeader::try_from(raw(frame_type, length, flags, stream)).map(|header| header.frame_type)
    };
    let protocol = Err(H2Error::Connection(ErrorCode::ProtocolError));
    let size = Err(H2Error::Connection(ErrorCode::FrameSizeError));
    assert_eq!(check(0, 0, 0, 1), Ok(FrameType::Data));
    assert_eq!(check(0, 0, 0, 0), protocol);
    assert_eq!(check(0, 0, 8, 1), protocol);
    assert_eq!(check(1, 4, 32, 1), protocol);
    assert_eq!(check(1, 5, 32, 1), Ok(FrameType::Headers));
    assert_eq!(check(2, 4, 0, 1), Err(H2Error::Stream(ErrorCode::FrameSizeError)));
    assert_eq!(check(3, 5, 0, 1), size);
    assert_eq!(check(4, 7, 0, 0), size);
    assert_eq!(check(4, 6, 0, 1), protocol);
    assert_eq!(check(5, 6, 0, 1), protocol);
    assert_eq!(check(6, 7, 0, 0), size);
    assert_eq!(check(7, 7, 0, 0), size);
    assert_eq!(check(8, 5, 0, 0), size);
    assert_eq!(check(9, 5, 0, 1), protocol);
    assert_eq!(check(10, 0, 0, 0), Err(H2Error::Connection(ErrorCode::InternalError)));
}

#[test]
fn frames_of_another_type_are_refused() {
    let ping = || Frame::from(PingFrame { ack: false, data: 1 });
    let wrong = H2Error::Connection(ErrorCode::InternalError);
    assert_eq!(DataFrame::try_from(ping()).unwrap_err(), wrong);
    assert_eq!(HeadersFrame::try_from(ping()).unwrap_err(), wrong);
    assert_eq!(SettingsFrame::try_from(ping()).unwrap_err(), wrong);
    assert_eq!(GoAwayFrame::try_from(ping()).unwrap_err(), wrong);
    assert_eq!(ContinuationFrame::try_from(ping()).unwrap_err(), wrong);
}

#[test]
fn settings_are_applied() {
    let mut settings = Settings::default();
    let mut frame = SettingsFrame::default();
    frame.initial_window_size = Some(70_000);
    frame.enable_push = Some(false);
    assert_eq!(settings.apply_settings_frame(frame), Ok(70_000 - 65_535));
    assert_eq!(settings.get_initial_window_size(), 70_000);
    assert_eq!(settings.get_enable_push(), false);
    assert_eq!(settings.apply_settings_frame(frame), Ok(0));
    frame.initial_window_size = Some(0x8000_0000);
    assert_eq!(
        settings.apply_settings_frame(frame),
        Err(H2Error::Connection(ErrorCode::FlowControlError))
    );
    frame.max_frame_size = Some(1);
    assert_eq!(
        settings.apply_settings_frame(frame),
        Err(H2Error::Connection(ErrorCode::ProtocolError))
    );
    assert_eq!(settings.get_max_frame_size(), 16_384);
}

#[test]
fn settings_are_set_one_by_one() {
    let mut settings = Settings::default();
    assert!(settings.set_header_table_size(7).is_ok());
    assert!(settings.set_enable_push(false).is_ok());
    assert!(settings.set_max_concurrent_streams(8).is_ok());
    assert!(settings.set_initial_window_size(9).is_ok());
    assert!(settings.set_max_frame_size(20_000).is_ok());
    assert!(settings.set_max_header_list_size(10).is_ok());
    assert_eq!(settings.get_header_table_size(), 7);
    assert_eq!(settings.get_max_concurrent_streams(), Some(8));
    assert_eq!(settings.get_initial_window_size(), 9);
    assert_eq!(settings.get_max_frame_size(), 20_000);
    assert_eq!(settings.get_max_header_list_size(), Some(10));
    assert!(settings.set_max_frame_size(16_777_216).is_err());
}

#[test]
fn codes_have_numbers() {
    for n in 0..14 {
        assert_eq!(ErrorCode::from_u32(n).unwrap().as_u32(), n);
    }
    assert_eq!(ErrorCode::from_u32(14), None);
    for n in 0..10 {
        assert_eq!(FrameType::from_u8(n).unwrap().as_u8(), n);
    }
    assert_eq!(FrameType::from_u8(10), None);
    for n in 1..7 {
        assert_eq!(SettingsIdent::from_u16(n).unwrap().as_u16(), n);
    }
    assert_eq!(SettingsIdent::from_u16(0), None);
    assert_eq!(H2Error::Stream(ErrorCode::Cancel).into_inner(), ErrorCode::Cancel);
    assert_eq!(H2Error::Connection(ErrorCode::NoError).into_inner(), ErrorCode::NoError);
}
