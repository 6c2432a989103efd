use qhttp::buffer::{Buffer, RingBuffer};

#[test]
fn buffer_gives_back_what_was_written() {
    let mut buffer = Buffer::with_capacity(8);
    assert_eq!(buffer.available_for_write(), 8);
    assert_eq!(buffer.write(b"hello"), 5);
    assert_eq!(buffer.write(b" world"), 3);
    assert_eq!(buffer.as_ref(), b"hello wo");
    let mut place = [0u8; 5];
    assert_eq!(buffer.read(&mut place), 5);
    assert_eq!(&place, b"hello");
    assert_eq!(buffer.as_ref(), b" wo");
    assert_eq!(buffer.available_for_write(), 5);
}

#[test]
fn buffer_moves_unread_bytes_to_its_begin() {
    let mut buffer = Buffer::with_capacity(4);
    assert_eq!(buffer.write(b"abcd"), 4);
    buffer.progress(3);
    buffer.rotate_buffer();
    assert_eq!(buffer.as_ref(), b"d");
    assert_eq!(buffer.as_mut().len(), 3);
    buffer.as_mut()[0] = b'e';
    buffer.progress_write(1);
    assert_eq!(buffer.as_ref(), b"de");
    assert_eq!(buffer.write(b"fgh"), 2);
    assert_eq!(buffer.as_ref(), b"defg");
}

#[test]
fn buffer_progress_stops_at_the_ends() {
    let mut buffer = Buffer::with_capacity(4);
    buffer.write(b"ab");
    buffer.progress(10);
    assert_eq!(buffer.available_for_read(), 0);
    buffer.reset();
    buffer.progress_write(100);
    assert_eq!(buffer.available_for_read(), 4);
}

#[test]
fn buffer_over_given_bytes_is_full() {
    let mut buffer = Buffer::from(vec![1, 2, 3]);
    assert_eq!(buffer.as_ref(), &[1, 2, 3]);
    assert_eq!(buffer.available_for_write(), 0);
    buffer.wipe();
    assert_eq!(buffer.into_inner(), vec![0, 0, 0]);
}

#[test]
fn buffer_changes_its_capacity() {
    let mut buffer = Buffer::new();
    assert_eq!(buffer.inner().len(), 4096);
    buffer.write(b"abc");
    buffer.set_capacity(2);
    assert_eq!(buffer.available_for_read(), 0);
    assert_eq!(buffer.available_for_write(), 2);
    buffer.inner_mut()[0] = 7;
    assert_eq!(buffer.inner()[0], 7);
    assert_eq!(Buffer::default().available_for_write(), 4096);
}

fn put(ring: &mut RingBuffer, data: &[u8]) {
    for byte in data {
        ring.get_write_buf()[0] = *byte;
        ring.progress_write(1);
    }
}

#[test]
fn ring_buffer_wraps_around() {
    let mut ring = RingBuffer::with_len(4);
    put(&mut ring, b"abc");
    let mut place = [0u8; 2];
    assert_eq!(ring.read(&mut place), 2);
    assert_eq!(&place, b"ab");
    assert_eq!(ring.get_write_buf().len(), 1);
    put(&mut ring, b"de");
    assert_eq!(ring.get_write_buf().len(), 1);
    assert_eq!(ring.to_vec(), b"cde".to_vec());
    assert_eq!(ring.available_for_read(), 3);
    assert_eq!(ring.available_for_write(), 1);
    assert_eq!(ring.get(0), Some(&b'c'));
    assert_eq!(ring.get(2), Some(&b'e'));
    assert_eq!(ring.get(3), None);
    assert_eq!(*ring.index(1), b'd');
    assert_eq!(ring.len(), 3);
    let mut all = Vec::new();
    let mut iter = ring.iter();
    while let Some(byte) = iter.next() {
        all.push(byte);
    }
    assert_eq!(all, b"cde".to_vec());
    let slice = ring.get_slice(1, 3);
    assert_eq!(slice.to_vec(), b"de".to_vec());
    let mut place = [0u8; 8];
    assert_eq!(ring.read(&mut place), 3);
    assert_eq!(&place[..3], b"cde");
}

#[test]
fn ring_buffer_slices_its_unread_bytes() {
    let mut ring = RingBuffer::with_len(8);
    put(&mut ring, b"abcdef");
    ring.progress_read(1);
    let slice = ring.get_slice(1, 4);
    assert_eq!(slice.len(), 3);
    assert_eq!(*slice.index(0), b'c');
    assert_eq!(slice.to_vec(), b"cde".to_vec());
    let inner = slice.slice(1, 4);
    assert_eq!(inner.to_vec(), b"de".to_vec());
    assert_eq!(ring.slice(0, 2).to_vec(), b"bc".to_vec());
}

#[test]
fn ring_buffer_write_only_fills_the_room() {
    let mut ring = RingBuffer::with_len(4);
    assert_eq!(ring.write(b"ab"), 2);
    assert_eq!(ring.available_for_read(), 0);
    ring.progress_write(2);
    assert_eq!(ring.to_vec(), b"ab".to_vec());
    assert_eq!(ring.write(b"cdefgh"), 4);
    assert_eq!(ring.inner(), &b"abef".to_vec());
}

#[test]
fn ring_buffer_resizes_and_resets() {
    let mut ring = RingBuffer::from(vec![9, 9, 9]);
    assert_eq!(ring.available_for_read(), 0);
    put(&mut ring, b"ab");
    ring.resize(5);
    assert_eq!(ring.available_for_read(), 0);
    assert_eq!(ring.inner(), &vec![b'a', b'b', 9, 0, 0]);
    put(&mut ring, b"x");
    ring.reset();
    assert_eq!(ring.available_for_read(), 0);
    assert_eq!(ring.into_inner().len(), 5);
}
