//! Reads the preface and the frames of a connection out of its bytes.

use vstd::prelude::*;

use super::error::{ErrorCode, H2Error, H2Result};
use super::frame::{result_view, Frame, FrameHeaderRaw, FrameView, FRAME_HEADER_LEN};
use crate::buffer::Buffer;
use crate::error::{Error, ErrorKind, Result};
use crate::parse::bytes_equal;
use crate::text::ascii_bytes;

verus! {

/// The length of the connection preface.
pub const PREFACE_LEN: usize = 24;

/// What a client sends first.
pub open spec fn client_preface() -> Seq<u8> {
    crate::text::ascii("PRI * HTTP/2.0\r\n\r\nSM\r\n\r\n"@)
}

/// Collects the bytes of a connection until a frame is complete.
#[derive(Debug)]
pub struct FrameReader {
    pub buffer: Buffer,
    /// The header of the frame whose payload is awaited.
    pub pending: Option<FrameHeaderRaw>,
}

/// What a [`FrameReader`] holds.
#[verifier::ext_equal]
pub struct FrameReaderView {
    pub unread: Seq<u8>,
    pub capacity: nat,
    pub pending: Option<FrameHeaderRaw>,
}

impl View for FrameReader {
    type V = FrameReaderView;

    open spec fn view(&self) -> FrameReaderView {
        FrameReaderView {
            unread: self.buffer@,
            capacity: self.buffer.storage().len(),
            pending: self.pending,
        }
    }
}

/// The connection error which reports a frame that is incomplete or too big.
pub open spec fn broken_frame<T>() -> H2Result<T> {
    Err(H2Error::Connection(ErrorCode::ProtocolError))
}

/// An error about a frame as an error of the whole connection, with the same code.
pub open spec fn escalated(err: H2Error) -> H2Error {
    match err {
        H2Error::Stream(code) => H2Error::Connection(code),
        H2Error::Connection(code) => H2Error::Connection(code),
    }
}

impl FrameReaderView {
    /// The reader after some more bytes arrived.
    pub open spec fn with(self, bytes: Seq<u8>) -> FrameReaderView {
        FrameReaderView { unread: self.unread + bytes, ..self }
    }

    /// The reader after the header of the next frame is read, if it is complete.
    pub open spec fn header_read(self) -> FrameReaderView {
        if self.pending is None && self.unread.len() >= FRAME_HEADER_LEN {
            FrameReaderView {
                unread: self.unread.skip(FRAME_HEADER_LEN as int),
                pending: Some(FrameHeaderRaw::decoded(self.unread)),
                ..self
            }
        } else {
            self
        }
    }

    /// The reader after the next frame is read, and the frame. There is no frame as long as it is
    /// incomplete, unless there will be no more bytes or there is no room for them. All errors affect
    /// the whole connection.
    pub open spec fn next(self, eof: bool) -> (FrameReaderView, Option<H2Result<FrameView>>) {
        let reader = self.header_read();
        match reader.pending {
            None => (
                reader,
                if eof {
                    Some(broken_frame())
                } else {
                    None
                },
            ),
            Some(raw) => if reader.unread.len() >= raw.length {
                match FrameView::assembled(raw, reader.unread.take(raw.length as int)) {
                    Ok(frame) => (
                        FrameReaderView {
                            unread: reader.unread.skip(raw.length as int),
                            pending: None,
                            ..reader
                        },
                        Some(Ok(frame)),
                    ),
                    Err(err) => (reader, Some(Err(escalated(err)))),
                }
            } else if eof || reader.unread.len() >= reader.capacity {
                (reader, Some(broken_frame()))
            } else {
                (reader, None)
            },
        }
    }

    /// The outcome of checking the preface. There is none as long as it is incomplete.
    pub open spec fn preface(self, eof: bool) -> Option<Result<()>> {
        if self.unread.len() < PREFACE_LEN {
            if eof {
                Some(
                    Err(
                        Error {
                            kind: ErrorKind::UnexpectedEof,
                            message: "Incomplete H2 preface was send.",
                        },
                    ),
                )
            } else {
                None
            }
        } else if self.unread.take(PREFACE_LEN as int) != client_preface() {
            Some(
                Err(
                    Error { kind: ErrorKind::InvalidData, message: "Invalid H2 preface was send." },
                ),
            )
        } else {
            Some(Ok(()))
        }
    }
}

impl FrameReader {
    /// The buffer is intact.
    pub open spec fn wf(&self) -> bool {
        self.buffer.wf()
    }

    /// A reader for frames of up to `max_frame_size` bytes. An old buffer is used again, if there is
    /// one.
    pub fn new(max_frame_size: usize, recycled: Option<Buffer>) -> (reader: Self)
        ensures
            reader.wf(),
            reader@ == (FrameReaderView {
                unread: Seq::empty(),
                capacity: max_frame_size as nat,
                pending: None,
            }),
    {
        let buffer: Buffer = match recycled {
            Some(mut buffer) => {
                buffer.set_capacity(max_frame_size);

                buffer
            },
            None => Buffer::with_capacity(max_frame_size),
        };

        FrameReader { buffer, pending: None }
    }

    /// Reads the preface, which is sent once after the creation of a connection. Returns `None` as
    /// long as it is incomplete. `eof` tells that the last attempt to get more bytes gave none.
    pub fn read_preface(&mut self, eof: bool) -> (ret: Option<Result<()>>)
        requires
            old(self).wf(),
        ensures
            final(self).wf(),
            ret == old(self)@.preface(eof),
            final(self)@ == if ret == Some(Ok::<(), Error>(())) {
                FrameReaderView {
                    unread: old(self)@.unread.skip(PREFACE_LEN as int),
                    ..old(self)@
                }
            } else {
                old(self)@
            },
    {
        let _capacity: usize = self.buffer.inner().len();
        if PREFACE_LEN > self.buffer.available_for_read() {
            if eof {
                return Some(
                    Err(Error::new(ErrorKind::UnexpectedEof, "Incomplete H2 preface was send.")),
                );
            }
            return None;
        }
        proof {
            reveal_strlit("PRI * HTTP/2.0\r\n\r\nSM\r\n\r\n");
        }
        let preface: Vec<u8> = ascii_bytes("PRI * HTTP/2.0\r\n\r\nSM\r\n\r\n");
        let start: &[u8] = vstd::slice::slice_subrange(self.buffer.as_ref(), 0, PREFACE_LEN);
        proof {
            assert(start@ =~= self@.unread.take(PREFACE_LEN as int));
        }
        if !bytes_equal(preface.as_slice(), start) {
            return Some(Err(Error::new(ErrorKind::InvalidData, "Invalid H2 preface was send.")));
        }
        self.buffer.progress(PREFACE_LEN);

        Some(Ok(()))
    }

    /// Reads the next frame. Returns `None` as long as it is incomplete. `eof` tells that the last
    /// attempt to get more bytes gave none. What was read of an incomplete frame is kept.
    pub fn read_next_frame(&mut self, eof: bool) -> (ret: Option<H2Result<Frame>>)
        requires
            old(self).wf(),
        ensures
            final(self).wf(),
            final(self)@ == old(self)@.next(eof).0,
            old(self)@.next(eof).1 == match ret {
                Some(ret) => Some(result_view(ret)),
                None => None,
            },
            ret matches Some(Ok(frame)) ==> super::frame::is_sized(frame@),
            ret matches Some(Err(err)) ==> err is Connection,
    {
        proof {
            law_read_frame_is_sized(self@, eof);
        }
        let _capacity: usize = self.buffer.inner().len();
        // First read and parse the frame header.
        let header: FrameHeaderRaw = match self.pending {
            Some(header) => header,
            None => {
                if FRAME_HEADER_LEN > self.buffer.available_for_read() {
                    if eof {
                        return Some(Err(H2Error::Connection(ErrorCode::ProtocolError)));
                    }
                    return None;
                }
                match FrameHeaderRaw::from_slice(self.buffer.as_ref()) {
                    Ok(header) => {
                        self.buffer.progress(FRAME_HEADER_LEN);
                        self.buffer.rotate_buffer();
                        self.pending = Some(header);

                        header
                    },
                    Err(err) => return Some(Err(H2Error::Connection(err.into_inner()))),
                }
            },
        };
        proof {
            assert(self@ == old(self)@.header_read());
        }
        // Then read the frame payload.
        let payload_size: usize = header.length as usize;
        if self.buffer.available_for_read() < payload_size {
            if self.buffer.available_for_write() == 0 || eof {
                return Some(Err(H2Error::Connection(ErrorCode::ProtocolError)));
            }
            return None;
        }
        let payload: &[u8] = vstd::slice::slice_subrange(self.buffer.as_ref(), 0, payload_size);
        proof {
            assert(payload@ =~= self@.unread.take(payload_size as int));
        }
        match Frame::from_header_and_payload(header, payload) {
            Ok(frame) => {
                self.buffer.progress(payload_size);
                self.buffer.rotate_buffer();
                self.pending = None;

                Some(Ok(frame))
            },
            Err(err) => Some(Err(H2Error::Connection(err.into_inner()))),
        }
    }
}

/// It does not matter in which pieces the bytes of a frame arrive: waiting for more bytes and then
/// reading gives what reading all bytes at once gives.
pub proof fn law_pieces_do_not_matter(reader: FrameReaderView, bytes: Seq<u8>, eof: bool)
    requires
        reader.next(false).1 is None,
    ensures
        reader.next(false).0.with(bytes).next(eof) == reader.with(bytes).next(eof),
{
    let waiting = reader.next(false).0;
    if reader.pending is None && reader.unread.len() >= FRAME_HEADER_LEN {
        let whole = reader.unread + bytes;
        assert(whole.skip(9) =~= reader.unread.skip(9) + bytes);
        assert(whole.skip(5).take(4) =~= reader.unread.skip(5).take(4));
        assert(whole.skip(5)[0] == reader.unread.skip(5)[0]);
        assert(whole.skip(5)[1] == reader.unread.skip(5)[1]);
        assert(whole.skip(5)[2] == reader.unread.skip(5)[2]);
        assert(whole.skip(5)[3] == reader.unread.skip(5)[3]);
        assert(FrameHeaderRaw::decoded(whole) == FrameHeaderRaw::decoded(reader.unread));
        assert(waiting.with(bytes).header_read() =~= reader.with(bytes).header_read());
    }
}

/// A written frame is read back, and what follows it is left for the next frame. This holds for
/// frames which a client may send, with known flags and without padding.
pub proof fn law_written_frame_is_read(frame: FrameView, tail: Seq<u8>, capacity: nat, eof: bool)
    requires
        frame.payload.len() < 0x100_0000,
        frame.stream < super::frame::STREAM_ID_LIMIT,
        frame.flags.bits & super::frame::Flags::ALL == frame.flags.bits,
        !frame.flags.has(super::frame::Flags::PADDED),
        super::frame::FrameHeader::fault(
            FrameHeaderRaw {
                length: frame.payload.len() as u32,
                frame_type: frame.frame_type.number(),
                flags: frame.flags.bits,
                stream: frame.stream,
            },
        ) is None,
    ensures
        (FrameReaderView { unread: frame.bytes() + tail, capacity, pending: None }).next(eof) == (
            FrameReaderView { unread: tail, capacity, pending: None },
            Some(Ok::<FrameView, H2Error>(frame)),
        ),
{
    let bytes = frame.bytes() + tail;
    let reader = FrameReaderView { unread: bytes, capacity, pending: None };
    super::frame::law_frame_round_trip(frame, tail);
    let raw = FrameHeaderRaw::decoded(bytes);
    let read = reader.header_read();
    super::frame::law_frame_header_round_trip(
        FrameHeaderRaw {
            length: frame.payload.len() as u32,
            frame_type: frame.frame_type.number(),
            flags: frame.flags.bits,
            stream: frame.stream,
        },
        frame.payload + tail,
    );
    assert(bytes.len() >= 9 + raw.length);
    assert(read.unread.take(raw.length as int) =~= bytes.subrange(9, 9 + raw.length));
    assert(read.unread.skip(raw.length as int) =~= tail);
}

/// Every frame which is read has a payload of a length which its type allows, and a type which a
/// client may send.
pub proof fn law_read_frame_is_sized(reader: FrameReaderView, eof: bool)
    ensures
        reader.next(eof).1 matches Some(Ok(frame)) ==> super::frame::is_sized(frame)
            && frame.frame_type != super::frame::FrameType::PushPromise,
{
    let read = reader.header_read();
    if let Some(raw) = read.pending {
        if read.unread.len() >= raw.length {
            super::frame::law_assembled_frame_is_sized(raw, read.unread.take(raw.length as int));
        }
    }
}

/// A frame is only taken as a whole: reading it takes the nine bytes of its header and as many as its
/// length says, and its payload is no longer than that.
pub proof fn law_frame_is_taken_as_a_whole(reader: FrameReaderView, eof: bool)
    requires
        reader.pending is None,
    ensures
        reader.next(eof).1 matches Some(Ok(frame)) ==> {
            let length = crate::bytes::be_u24(reader.unread);
            let next = reader.next(eof).0;
            &&& reader.unread.len() >= 9 + length
            &&& next.unread == reader.unread.skip(9 + length)
            &&& next.pending is None
            &&& next.capacity == reader.capacity
            &&& frame.payload.len() <= length
        },
{
    let read = reader.header_read();
    if reader.unread.len() >= FRAME_HEADER_LEN {
        let raw = FrameHeaderRaw::decoded(reader.unread);
        if read.unread.len() >= raw.length {
            assert(reader.unread.skip(9).skip(raw.length as int) =~= reader.unread.skip(
                9 + raw.length,
            ));
        }
    }
}

/// A frame which is incomplete is awaited, unless there will be no more bytes or no room for them,
/// which breaks the connection. Everything that is wrong with a frame does so.
pub proof fn law_incomplete_frame_is_awaited(reader: FrameReaderView, eof: bool)
    requires
        reader.pending is None,
    ensures
        reader.unread.len() < 9 ==> {
            &&& !eof ==> reader.next(eof) == (reader, None::<H2Result<FrameView>>)
            &&& eof ==> reader.next(eof).1 == Some(
                Err::<FrameView, H2Error>(H2Error::Connection(ErrorCode::ProtocolError)),
            )
        },
        reader.unread.len() >= 9 && reader.unread.len() - 9 < crate::bytes::be_u24(reader.unread)
            ==> if eof || reader.unread.len() - 9 >= reader.capacity {
            reader.next(eof).1 == Some(
                Err::<FrameView, H2Error>(H2Error::Connection(ErrorCode::ProtocolError)),
            )
        } else {
            reader.next(eof).1 is None
        },
        reader.next(eof).1 matches Some(Err(err)) ==> err is Connection,
{
}

/// The error about a frame keeps its code when it becomes an error of the connection.
pub proof fn law_error_of_frame_keeps_its_code(reader: FrameReaderView, raw: FrameHeaderRaw, eof: bool)
    requires
        reader.pending == Some(raw),
        reader.unread.len() >= raw.length,
    ensures
        FrameView::assembled(raw, reader.unread.take(raw.length as int)) matches Err(err)
            ==> reader.next(eof).1 == Some(
            Err::<FrameView, H2Error>(
                H2Error::Connection(
                    match err {
                        H2Error::Stream(code) => code,
                        H2Error::Connection(code) => code,
                    },
                ),
            ),
        ),
{
}

/// A connection is accepted exactly if it starts with the preface, which has 24 bytes. As long as
/// these are not there they are awaited, unless there will be no more bytes.
pub proof fn law_preface_is_checked(reader: FrameReaderView, eof: bool)
    ensures
        reader.preface(eof) == Some(Ok::<(), Error>(())) <==> crate::text::ascii(
            "PRI * HTTP/2.0\r\n\r\nSM\r\n\r\n"@,
        ).is_prefix_of(reader.unread),
        reader.preface(eof) is None <==> reader.unread.len() < 24 && !eof,
        reader.unread.len() < 24 && eof ==> (reader.preface(eof) matches Some(Err(err)) && err.kind
            == ErrorKind::UnexpectedEof),
{
    reveal_strlit("PRI * HTTP/2.0\r\n\r\nSM\r\n\r\n");
    let preface = crate::text::ascii("PRI * HTTP/2.0\r\n\r\nSM\r\n\r\n"@);
    assert(preface.len() == 24);
    if preface.is_prefix_of(reader.unread) {
        assert(reader.unread.take(24) =~= preface);
    } else if reader.unread.len() >= 24 {
        assert(reader.unread.take(24) != preface) by {
            if reader.unread.take(24) == preface {
                assert(preface =~= reader.unread.subrange(0, preface.len() as int));
            }
        }
    }
}

} // verus!
