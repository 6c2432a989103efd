use qhttp::buffer::Buffer;
use qhttp::chunked::{ChunkedReader, ChunkedReaderStatus, ChunkedWriter, ReadStep};
use qhttp::error::{Error, ErrorKind};

fn flush(writer: &mut ChunkedWriter, out: &mut Vec<u8>) {
    loop {
        let part = writer.pending().to_vec();
        if part.is_empty() {
            return;
        }
        // Send byte by byte, as a slow socket would.
        out.push(part[0]);
        writer.advance(1);
    }
}

fn write_all(writer: &mut ChunkedWriter, mut data: &[u8], out: &mut Vec<u8>) {
    while !data.is_empty() {
        if writer.must_flush().unwrap() {
            writer.begin_flush().unwrap();
            flush(writer, out);
            writer.finish_flush();
        }
        let n = writer.fill(data);
        data = &data[n..];
    }
}

fn shut_down(writer: &mut ChunkedWriter, out: &mut Vec<u8>) {
    if writer.begin_shutdown().unwrap() {
        writer.begin_flush().unwrap();
        flush(writer, out);
        writer.finish_flush();
    }
    writer.begin_last_chunk();
    flush(writer, out);
    writer.finish_shutdown();
}

fn read_all(reader: &mut ChunkedReader, mut input: &[u8]) -> Result<Vec<u8>, Error> {
    let mut data = Vec::new();
    loop {
        match reader.next_step(3)? {
            ReadStep::Byte => {
                let byte = input.first().copied();
                if byte.is_some() {
                    input = &input[1..];
                }
                reader.received_byte(byte)?;
            }
            ReadStep::Data(n) => {
                let n = n.min(input.len());
                data.extend_from_slice(&input[..n]);
                input = &input[n..];
                reader.received_data(n)?;
            }
            ReadStep::Eof => return Ok(data),
            ReadStep::Oversized => return Err(Error::new(ErrorKind::Other, "oversized")),
        }
    }
}

#[test]
fn chunks_are_written() {
    let mut writer = ChunkedWriter::new(12);
    let mut out = Vec::new();
    write_all(&mut writer, b"hello world, bye", &mut out);
    shut_down(&mut writer, &mut out);
    assert_eq!(out, b"a\r\nhello worl\r\n6\r\nd, bye\r\n0\r\n\r\n".to_vec());
}

#[test]
fn chunked_body_is_read_back() {
    let data: Vec<u8> = (0..200u8).collect();
    let mut writer = ChunkedWriter::new(32);
    let mut out = Vec::new();
    write_all(&mut writer, &data, &mut out);
    shut_down(&mut writer, &mut out);
    let mut reader = ChunkedReader::new(64, None);
    assert_eq!(read_all(&mut reader, &out).unwrap(), data);
    assert_eq!(reader.status, ChunkedReaderStatus::Done);
}

#[test]
fn empty_body_is_a_single_chunk() {
    let mut writer = ChunkedWriter::new(16);
    let mut out = Vec::new();
    shut_down(&mut writer, &mut out);
    assert_eq!(out, b"0\r\n\r\n".to_vec());
    let mut reader = ChunkedReader::new(16, Some(Buffer::with_capacity(3)));
    assert_eq!(read_all(&mut reader, &out).unwrap(), Vec::<u8>::new());
}

#[test]
fn writer_is_closed_after_its_shutdown() {
    let mut writer = ChunkedWriter::new(16);
    let mut out = Vec::new();
    shut_down(&mut writer, &mut out);
    assert_eq!(writer.must_flush().unwrap_err().kind, ErrorKind::BrokenPipe);
    assert_eq!(writer.begin_flush().unwrap_err().kind, ErrorKind::BrokenPipe);
    assert_eq!(writer.begin_shutdown().unwrap_err().kind, ErrorKind::BrokenPipe);
}

#[test]
fn broken_chunks_are_refused() {
    let error = |input: &[u8]| read_all(&mut ChunkedReader::new(16, None), input).unwrap_err();
    assert_eq!(error(b"3\r\nabcX").kind, ErrorKind::UnexpectedEof);
    assert_eq!(error(b"3\r\nabcXY").message, "Chunk data did not end with a CRNL.");
    assert_eq!(error(b"0\r\nXY").message, "Chunked body did not end with a CRNL.");
    assert_eq!(error(b"3\r\nab").message, "Incomplete chunk.");
    assert_eq!(error(b"3").message, "Incomplete chunk header.");
    assert_eq!(
        error(b"00000000000000000000000000\r\n").message,
        "The internal buffer was filled. The chunks are too big!"
    );
    let mut reader = ChunkedReader::new(64, None);
    assert_eq!(read_all(&mut reader, b"11111111111111111\r\n").unwrap_err().message, "oversized");
}

#[test]
fn buffered_bytes_belong_to_the_body() {
    let mut reader = ChunkedReader::new_with_buffer(Buffer::from(b"2\r\n".to_vec()));
    assert_eq!(reader.next_step(10).unwrap(), ReadStep::Data(2));
}
