use qhttp::body::{
    body_length_of, check_amount, read_limit, BackgroundRead, BackgroundStep, LimitReader,
    LimitStep,
};
use qhttp::buffer::Buffer;
use qhttp::error::{Error, ErrorKind};
use qhttp::message::BodyType;

#[test]
fn limit_reader_stops_at_its_limit() {
    let mut reader = LimitReader::new(5);
    assert_eq!(reader.next_step(3).unwrap(), LimitStep::Read(3));
    reader.received(3);
    assert_eq!(reader.next_step(3).unwrap(), LimitStep::Read(2));
    reader.received(2);
    assert_eq!(reader.next_step(3).unwrap(), LimitStep::Eof);
    let broken = LimitReader { max: 1, current: 2 };
    assert_eq!(broken.next_step(1).unwrap_err().kind, ErrorKind::Other);
}

#[test]
fn length_of_a_body_is_known_from_its_type() {
    assert_eq!(body_length_of(BodyType::NoBody), None);
    assert_eq!(body_length_of(BodyType::Fixed(7)), Some(Some(7)));
    assert_eq!(body_length_of(BodyType::Chunked), Some(None));
}

#[test]
fn big_bodies_are_refused() {
    assert_eq!(read_limit(Some(5), 10).unwrap(), 5);
    assert_eq!(read_limit(None, 10).unwrap(), 10);
    assert_eq!(read_limit(Some(11), 10).unwrap_err().kind, ErrorKind::InvalidData);
    assert!(check_amount(10, 10).is_ok());
    assert_eq!(check_amount(11, 10).unwrap_err().kind, ErrorKind::Other);
}

#[test]
fn body_is_read_through_the_connection() {
    let mut read = BackgroundRead::new(Buffer::with_capacity(8));
    let buffer = match read.next_step(4) {
        BackgroundStep::Request(buffer, 4) => buffer,
        step => panic!("{:?}", step),
    };
    assert!(read.requested(true).is_ok());
    assert!(matches!(read.next_step(4), BackgroundStep::Wait));
    let mut buffer = buffer;
    buffer.write(b"abcdef");
    assert_eq!(read.received(Some(Ok(buffer)), 4).unwrap(), b"abcd".to_vec());
    match read.next_step(4) {
        BackgroundStep::Deliver(data) => assert_eq!(data, b"ef".to_vec()),
        step => panic!("{:?}", step),
    }
    assert!(matches!(read.next_step(4), BackgroundStep::Request(_, 4)));
}

#[test]
fn body_ends_with_an_empty_answer() {
    let mut read = BackgroundRead::new(Buffer::with_capacity(8));
    assert!(matches!(read.next_step(4), BackgroundStep::Request(_, _)));
    assert!(read.requested(true).is_ok());
    assert_eq!(read.received(Some(Ok(Buffer::with_capacity(8))), 4).unwrap(), Vec::<u8>::new());
    match read.next_step(4) {
        BackgroundStep::Fail(err) => assert_eq!(err.message, "This object is no longer usable."),
        step => panic!("{:?}", step),
    }
}

#[test]
fn errors_of_the_connection_are_passed_on() {
    let mut read = BackgroundRead::new(Buffer::with_capacity(8));
    assert_eq!(
        read.requested(false).unwrap_err().message,
        "Internal error. (Sending read request failed)"
    );
    let err = Error::new(ErrorKind::TimedOut, "late");
    assert_eq!(read.received(Some(Err(err)), 4).unwrap_err().message, "late");
    assert_eq!(
        read.received(None, 4).unwrap_err().message,
        "Internal error. (Receiving read response failed)"
    );
}
