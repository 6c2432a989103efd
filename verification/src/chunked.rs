//! The chunked transfer encoding.

use vstd::prelude::*;

use crate::buffer::{min_len, Buffer};
use crate::error::{Error, ErrorKind, Result};
use crate::number::to_hex;
use crate::parse::{chunk_size_fits, find_chunk_header_end, parse_chunk_header, CR, NL};

verus! {

/// A chunk with its header and the CRNL behind its data.
pub open spec fn chunk(data: Seq<u8>) -> Seq<u8> {
    crate::number::hex_text(data.len()) + seq![CR, NL] + data + seq![CR, NL]
}

/// The end of a body.
pub open spec fn last_chunk() -> Seq<u8> {
    seq![48u8, CR, NL, CR, NL]
}

/// The error of a writer which was shut down.
pub open spec fn writer_closed<T>() -> Result<T> {
    Err(
        Error {
            kind: ErrorKind::BrokenPipe,
            message: "The ChunkedWriter has already been shutdown.",
        },
    )
}

/// Collects the data of a body and hands it out in chunks.
///
/// To write, ask [`Self::must_flush`], flush if necessary and [`Self::fill`] the writer. To flush,
/// call [`Self::begin_flush`], send all that [`Self::pending`] returns and call
/// [`Self::finish_flush`]. To end the body, call [`Self::begin_shutdown`], flush if necessary, call
/// [`Self::begin_last_chunk`], send all that [`Self::pending`] returns and call
/// [`Self::finish_shutdown`].
#[derive(Debug)]
pub struct ChunkedWriter {
    buffer: Vec<u8>,
    buffer_pointer: usize,
    buffer_read_pointer: usize,
    header_buffer: Vec<u8>,
    header_buffer_read_pointer: usize,
    finishing: bool,
    finished: bool,
}

/// What a [`ChunkedWriter`] holds.
#[verifier::ext_equal]
pub struct ChunkedWriterView {
    /// How much data fits in a chunk.
    pub capacity: nat,
    /// The data which is collected for the next chunk.
    pub collected: Seq<u8>,
    /// What is left to be sent of the current chunk.
    pub unsent: Seq<u8>,
    /// Whether a chunk with data is being sent.
    pub in_flight: bool,
    /// Whether the last chunk is being sent.
    pub ending: bool,
    /// Whether the writer is being shut down.
    pub finishing: bool,
    /// Whether the writer was shut down.
    pub finished: bool,
}

impl ChunkedWriterView {
    /// A writer before anything is written.
    pub open spec fn initial(buffer_size: usize) -> ChunkedWriterView {
        ChunkedWriterView {
            capacity: (buffer_size - 2) as nat,
            collected: Seq::empty(),
            unsent: Seq::empty(),
            in_flight: false,
            ending: false,
            finishing: false,
            finished: false,
        }
    }

    /// Whether the writer has to be flushed before more data can be written.
    pub open spec fn must_flush(self) -> bool {
        self.in_flight || self.ending || self.collected.len() >= self.capacity
    }

    /// How much of some data fits in the next chunk.
    pub open spec fn room_for(self, len: int) -> int {
        crate::buffer::min(self.capacity - self.collected.len(), len)
    }

    /// The writer after it collected some data.
    pub open spec fn filled(self, data: Seq<u8>) -> ChunkedWriterView {
        ChunkedWriterView { collected: self.collected + data, ..self }
    }

    /// The writer after the collected data was turned into a chunk, unless a chunk is being sent.
    pub open spec fn flush_begun(self) -> ChunkedWriterView {
        if self.in_flight || self.ending {
            self
        } else {
            ChunkedWriterView {
                collected: Seq::empty(),
                unsent: chunk(self.collected),
                in_flight: true,
                ..self
            }
        }
    }

    /// The writer after `n` bytes were sent.
    pub open spec fn sent(self, n: int) -> ChunkedWriterView {
        ChunkedWriterView { unsent: self.unsent.skip(n), ..self }
    }

    /// The writer after the chunk which was sent is forgotten.
    pub open spec fn flush_finished(self) -> ChunkedWriterView {
        ChunkedWriterView { in_flight: false, ending: false, ..self }
    }

    /// Whether the writer has to be flushed before it sends the last chunk.
    pub open spec fn has_data(self) -> bool {
        self.in_flight || self.collected.len() > 0
    }

    /// The writer after its shutdown began.
    pub open spec fn shutdown_begun(self) -> ChunkedWriterView {
        ChunkedWriterView { finishing: true, ..self }
    }

    /// The writer after the last chunk was prepared, unless it is being sent.
    pub open spec fn last_chunk_begun(self) -> ChunkedWriterView {
        if self.ending {
            self
        } else {
            ChunkedWriterView { unsent: last_chunk(), ending: true, ..self }
        }
    }

    /// The writer after it was shut down.
    pub open spec fn shutdown_finished(self) -> ChunkedWriterView {
        ChunkedWriterView { finished: true, ..self }
    }
}

impl View for ChunkedWriter {
    type V = ChunkedWriterView;

    closed spec fn view(&self) -> ChunkedWriterView {
        let busy = self.header_buffer@.len() > 0;
        ChunkedWriterView {
            capacity: (self.buffer@.len() - 2) as nat,
            collected: if busy {
                Seq::empty()
            } else {
                self.buffer@.take(self.buffer_pointer as int)
            },
            unsent: if busy {
                self.header_buffer@.skip(self.header_buffer_read_pointer as int)
                    + self.buffer@.subrange(
                    self.buffer_read_pointer as int,
                    self.buffer_pointer as int,
                )
            } else {
                Seq::empty()
            },
            in_flight: busy && self.buffer_pointer > 0,
            ending: busy && self.buffer_pointer == 0,
            finishing: self.finishing,
            finished: self.finished,
        }
    }
}

impl ChunkedWriter {
    /// The positions are in order, and there is room for a CRNL behind the collected data.
    pub closed spec fn wf(&self) -> bool {
        &&& self.buffer@.len() >= 2
        &&& self.buffer_read_pointer <= self.buffer_pointer <= self.buffer@.len()
        &&& self.header_buffer_read_pointer <= self.header_buffer@.len()
        &&& self.header_buffer@.len() == 0 ==> self.buffer_pointer <= self.buffer@.len() - 2
            && self.buffer_read_pointer == 0
        &&& self.buffer_read_pointer > 0 ==> self.header_buffer_read_pointer
            == self.header_buffer@.len()
    }

    /// A writer whose chunks hold up to two bytes less than `buffer_size`.
    pub fn new(buffer_size: usize) -> (writer: Self)
        requires
            buffer_size >= 2,
        ensures
            writer.wf(),
            writer@ == ChunkedWriterView::initial(buffer_size),
    {
        let buffer: Vec<u8> = vec![0u8; buffer_size];
        let writer = ChunkedWriter {
            buffer,
            buffer_pointer: 0,
            buffer_read_pointer: 0,
            header_buffer: Vec::new(),
            header_buffer_read_pointer: 0,
            finishing: false,
            finished: false,
        };
        proof {
            assert(writer@.collected =~= Seq::empty());
        }

        writer
    }

    /// Whether the writer has to be flushed before more data can be written.
    pub fn must_flush(&self) -> (ret: Result<bool>)
        requires
            self.wf(),
        ensures
            ret == if self@.finished || self@.finishing {
                writer_closed()
            } else {
                Ok(self@.must_flush())
            },
    {
        if self.finished || self.finishing {
            return Err(
                Error::new(
                    ErrorKind::BrokenPipe,
                    "The ChunkedWriter has already been shutdown.",
                ),
            );
        }
        let len: usize = self.buffer.len() - 2;

        Ok(self.buffer_pointer >= len || self.header_buffer.len() != 0)
    }

    /// Collects as much of `buf` as fits in the next chunk.
    pub fn fill(&mut self, buf: &[u8]) -> (n: usize)
        requires
            old(self).wf(),
            !old(self)@.in_flight,
            !old(self)@.ending,
        ensures
            final(self).wf(),
            n == old(self)@.room_for(buf@.len() as int),
            final(self)@ == old(self)@.filled(buf@.take(n as int)),
    {
        let len: usize = self.buffer.len() - 2;
        let writable: usize = len - self.buffer_pointer;
        let n: usize = min_len(writable, buf.len());
        let begin: usize = self.buffer_pointer;
        let mut i: usize = 0;
        while i < n
            invariant
                i <= n,
                n <= buf@.len(),
                begin + n <= len,
                len == self.buffer@.len() - 2,
                self.buffer@.len() == old(self).buffer@.len(),
                self.buffer_pointer == begin,
                begin == old(self).buffer_pointer,
                self.buffer_read_pointer == old(self).buffer_read_pointer,
                self.header_buffer == old(self).header_buffer,
                self.header_buffer_read_pointer == old(self).header_buffer_read_pointer,
                self.finishing == old(self).finishing,
                self.finished == old(self).finished,
                forall|j: int| 0 <= j < begin ==> self.buffer@[j] == old(self).buffer@[j],
                forall|j: int| 0 <= j < i ==> self.buffer@[begin + j] == buf@[j],
            decreases n - i,
        {
            self.buffer[begin + i] = buf[i];
            i = i + 1;
        }
        self.buffer_pointer = begin + n;
        proof {
            assert(self@.collected =~= old(self)@.collected + buf@.take(n as int));
            assert(self@ =~= old(self)@.filled(buf@.take(n as int)));
        }

        n
    }

    /// Turns the collected data into a chunk, unless a chunk is already being sent.
    pub fn begin_flush(&mut self) -> (ret: Result<()>)
        requires
            old(self).wf(),
        ensures
            final(self).wf(),
            if old(self)@.finished {
                &&& ret == writer_closed::<()>()
                &&& final(self)@ == old(self)@
            } else {
                &&& ret == Ok::<(), Error>(())
                &&& final(self)@ == old(self)@.flush_begun()
            },
    {
        if self.finished {
            return Err(
                Error::new(
                    ErrorKind::BrokenPipe,
                    "The ChunkedWriter has already been shutdown.",
                ),
            );
        }
        if self.header_buffer.len() == 0 {
            let size: usize = self.buffer.len();
            let len: usize = self.buffer_pointer;
            proof {
                assert(len + 2 <= size);
            }
            let mut header: Vec<u8> = to_hex(len);
            header.push(CR);
            header.push(NL);
            self.buffer[len] = CR;
            self.buffer[len + 1] = NL;
            self.buffer_pointer = len + 2;
            self.header_buffer = header;
            self.header_buffer_read_pointer = 0;
            proof {
                assert(self@.unsent =~= chunk(old(self)@.collected));
                assert(self@ =~= old(self)@.flush_begun());
            }
        }

        Ok(())
    }

    /// The next part of the current chunk to be sent.
    pub fn pending(&self) -> (part: &[u8])
        requires
            self.wf(),
        ensures
            part@.is_prefix_of(self@.unsent),
            part@.len() == self.pending_len(),
            part@.len() == 0 <==> self@.unsent.len() == 0,
    {
        if self.header_buffer.len() == 0 {
            let part: &[u8] = vstd::slice::slice_subrange(self.buffer.as_slice(), 0, 0);

            part
        } else if self.header_buffer_read_pointer < self.header_buffer.len() {
            vstd::slice::slice_subrange(
                self.header_buffer.as_slice(),
                self.header_buffer_read_pointer,
                self.header_buffer.len(),
            )
        } else {
            vstd::slice::slice_subrange(
                self.buffer.as_slice(),
                self.buffer_read_pointer,
                self.buffer_pointer,
            )
        }
    }

    /// Notes that `n` bytes of [`Self::pending`] were sent.
    pub fn advance(&mut self, n: usize)
        requires
            old(self).wf(),
            n <= old(self).pending_len(),
        ensures
            final(self).wf(),
            final(self)@ == old(self)@.sent(n as int),
    {
        if self.header_buffer_read_pointer < self.header_buffer.len() {
            self.header_buffer_read_pointer = self.header_buffer_read_pointer + n;
        } else if self.header_buffer.len() != 0 {
            self.buffer_read_pointer = self.buffer_read_pointer + n;
        }
        proof {
            assert(self@.unsent =~= old(self)@.unsent.skip(n as int));
            assert(self@ =~= old(self)@.sent(n as int));
        }
    }

    /// The length of what [`Self::pending`] returns.
    pub closed spec fn pending_len(&self) -> int {
        if self.header_buffer@.len() == 0 {
            0
        } else if self.header_buffer_read_pointer < self.header_buffer@.len() {
            self.header_buffer@.len() - self.header_buffer_read_pointer
        } else {
            self.buffer_pointer - self.buffer_read_pointer
        }
    }

    /// Forgets the chunk which was sent.
    pub fn finish_flush(&mut self)
        requires
            old(self).wf(),
            old(self)@.unsent.len() == 0,
            old(self)@.collected.len() == 0,
        ensures
            final(self).wf(),
            final(self)@ == old(self)@.flush_finished(),
    {
        self.header_buffer.clear();
        self.header_buffer_read_pointer = 0;
        self.buffer_pointer = 0;
        self.buffer_read_pointer = 0;
        proof {
            assert(self@.collected =~= Seq::empty());
            assert(self@ =~= old(self)@.flush_finished());
        }
    }

    /// Starts to shut down the writer. Returns whether it has to be flushed first.
    pub fn begin_shutdown(&mut self) -> (ret: Result<bool>)
        requires
            old(self).wf(),
        ensures
            final(self).wf(),
            if old(self)@.finished {
                &&& ret == writer_closed::<bool>()
                &&& final(self)@ == old(self)@
            } else {
                &&& ret == Ok::<bool, Error>(old(self)@.has_data())
                &&& final(self)@ == old(self)@.shutdown_begun()
            },
    {
        if self.finished {
            return Err(
                Error::new(
                    ErrorKind::BrokenPipe,
                    "The ChunkedWriter has already been shutdown.",
                ),
            );
        }
        self.finishing = true;

        Ok(self.buffer_pointer > 0)
    }

    /// Prepares the last chunk, unless it is already being sent.
    pub fn begin_last_chunk(&mut self)
        requires
            old(self).wf(),
            !old(self)@.in_flight,
            old(self)@.collected.len() == 0,
        ensures
            final(self).wf(),
            final(self)@ == old(self)@.last_chunk_begun(),
    {
        if self.header_buffer.len() == 0 {
            let mut header: Vec<u8> = Vec::new();
            header.push(48);
            header.push(CR);
            header.push(NL);
            header.push(CR);
            header.push(NL);
            self.header_buffer = header;
            self.header_buffer_read_pointer = 0;
            proof {
                assert(self@.unsent =~= last_chunk());
                assert(self@ =~= old(self)@.last_chunk_begun());
            }
        }
    }

    /// Notes that the last chunk was sent.
    pub fn finish_shutdown(&mut self)
        requires
            old(self).wf(),
        ensures
            final(self).wf(),
            final(self)@ == old(self)@.shutdown_finished(),
    {
        self.finished = true;
    }
}

/// Where a [`ChunkedReader`] is in the body.
#[derive(Debug, Clone, Copy, PartialEq, Eq, Structural)]
pub enum ChunkedReaderStatus {
    /// In front of or inside of the header of a chunk.
    WaitingForChunk,
    /// Inside of the data of a chunk or in front of the CRNL behind it.
    ReadingChunk,
    /// Behind the header of the last chunk.
    Done,
}

/// What a [`ChunkedReader`] needs to go on.
#[derive(Debug, Clone, Copy, PartialEq, Eq, Structural)]
pub enum ReadStep {
    /// A single byte, to be handed over with [`ChunkedReader::received_byte`].
    Byte,
    /// Up to so many bytes of data, to be noted with [`ChunkedReader::received_data`].
    Data(usize),
    /// Nothing, the body is complete.
    Eof,
    /// The size of a chunk has more digits than can be handled.
    Oversized,
}

/// Reads the data out of a chunked body. Everything but the data is read byte by byte.
#[derive(Debug)]
pub struct ChunkedReader {
    pub buffer: Buffer,
    pub status: ChunkedReaderStatus,
    pub current_chunk_size: usize,
    pub current_chunk_count: usize,
}

/// What a [`ChunkedReader`] holds.
#[verifier::ext_equal]
pub struct ChunkedReaderView {
    /// How many bytes a header may have.
    pub capacity: nat,
    /// The bytes which were read but not understood yet.
    pub buffered: Seq<u8>,
    pub status: ChunkedReaderStatus,
    pub size: usize,
    pub count: usize,
}

impl View for ChunkedReader {
    type V = ChunkedReaderView;

    open spec fn view(&self) -> ChunkedReaderView {
        ChunkedReaderView {
            capacity: self.buffer.storage().len(),
            buffered: self.buffer@,
            status: self.status,
            size: self.current_chunk_size,
            count: self.current_chunk_count,
        }
    }
}

/// An error about a state which can not be reached.
pub open spec fn implementation_error<T>() -> Result<T> {
    Err(Error { kind: ErrorKind::Other, message: "Implementation error." })
}

impl ChunkedReaderView {
    /// The request for one more byte, for which there has to be room.
    pub open spec fn byte_step(self) -> Result<ReadStep> {
        if self.buffered.len() >= self.capacity {
            crate::parse::other_error("The internal buffer was filled. The chunks are too big!")
        } else {
            Ok(ReadStep::Byte)
        }
    }

    /// The request for more data of the current chunk.
    pub open spec fn data_step(self, want: usize) -> Result<ReadStep> {
        if self.count >= self.size {
            implementation_error()
        } else {
            Ok(
                ReadStep::Data(
                    crate::buffer::min(self.size - self.count, want as int) as usize,
                ),
            )
        }
    }

    /// The step behind the last chunk, whose header is followed by a CRNL.
    pub open spec fn end_step(self) -> Result<ReadStep> {
        if self.buffered.len() < 2 {
            self.byte_step()
        } else if self.buffered[0] == CR && self.buffered[1] == NL {
            Ok(ReadStep::Eof)
        } else {
            crate::parse::invalid_data("Chunked body did not end with a CRNL.")
        }
    }

    /// The step in front of a chunk, and where it leads to.
    pub open spec fn header_step(self, want: usize) -> (ChunkedReaderView, Result<ReadStep>) {
        match crate::parse::chunk_header_end(self.buffered) {
            Err(err) => (self, Err(err)),
            Ok(None) => (self, self.byte_step()),
            Ok(Some(idx)) => if crate::parse::chunk_digits(self.buffered).len()
                > crate::parse::hex_capacity() {
                (self, Ok(ReadStep::Oversized))
            } else {
                let size = crate::parse::hex_number(
                    crate::parse::chunk_digits(self.buffered),
                ) as usize;
                let next = ChunkedReaderView {
                    buffered: self.buffered.skip(idx as int),
                    status: if size > 0 {
                        ChunkedReaderStatus::ReadingChunk
                    } else {
                        ChunkedReaderStatus::Done
                    },
                    size,
                    count: 0,
                    ..self
                };
                if size > 0 {
                    (next, next.data_step(want))
                } else {
                    (next, next.end_step())
                }
            },
        }
    }

    /// The step inside of a chunk or behind its data, and where it leads to.
    pub open spec fn chunk_step(self, want: usize) -> (ChunkedReaderView, Result<ReadStep>) {
        if self.count > self.size {
            (self, implementation_error())
        } else if self.count < self.size {
            (self, self.data_step(want))
        } else if self.buffered.len() < 2 {
            (self, self.byte_step())
        } else if self.buffered[0] == CR && self.buffered[1] == NL {
            ChunkedReaderView {
                buffered: self.buffered.skip(2),
                status: ChunkedReaderStatus::WaitingForChunk,
                ..self
            }.header_step(want)
        } else {
            (self, crate::parse::invalid_data("Chunk data did not end with a CRNL."))
        }
    }

    /// What the reader needs next, and the reader as it is then. `want` is how much data is wanted.
    pub open spec fn step(self, want: usize) -> (ChunkedReaderView, Result<ReadStep>) {
        match self.status {
            ChunkedReaderStatus::WaitingForChunk => self.header_step(want),
            ChunkedReaderStatus::ReadingChunk => self.chunk_step(want),
            ChunkedReaderStatus::Done => (self, self.end_step()),
        }
    }
}

impl ChunkedReader {
    /// A reader with a buffer of the given size, which takes over a buffer that is no longer in use
    /// if there is one.
    pub fn new(buffer_size: usize, recycled: Option<Buffer>) -> (reader: Self)
        ensures
            reader.buffer.wf(),
            reader@ == (ChunkedReaderView {
                capacity: buffer_size as nat,
                buffered: Seq::empty(),
                status: ChunkedReaderStatus::WaitingForChunk,
                size: 0,
                count: 0,
            }),
    {
        let buffer: Buffer = match recycled {
            Some(mut buffer) => {
                buffer.set_capacity(buffer_size);

                buffer
            },
            None => Buffer::with_capacity(buffer_size),
        };

        Self::new_with_buffer(buffer)
    }

    /// A reader with the given buffer, whose unread bytes belong to the body.
    pub fn new_with_buffer(buffer: Buffer) -> (reader: Self)
        ensures
            reader.buffer == buffer,
            reader@ == (ChunkedReaderView {
                capacity: buffer.storage().len(),
                buffered: buffer@,
                status: ChunkedReaderStatus::WaitingForChunk,
                size: 0,
                count: 0,
            }),
    {
        ChunkedReader {
            buffer,
            status: ChunkedReaderStatus::WaitingForChunk,
            current_chunk_size: 0,
            current_chunk_count: 0,
        }
    }

    /// Asks for one more byte, if there is room for it.
    fn ask_for_byte(&self) -> (ret: Result<ReadStep>)
        requires
            self.buffer.wf(),
        ensures
            ret == self@.byte_step(),
    {
        if self.buffer.available_for_write() == 0 {
            return Err(
                Error::new(
                    ErrorKind::Other,
                    "The internal buffer was filled. The chunks are too big!",
                ),
            );
        }

        Ok(ReadStep::Byte)
    }

    /// How much is left of the current chunk.
    fn chunk_remaining(&self) -> (ret: Result<usize>)
        ensures
            ret == if self@.count > self@.size {
                implementation_error()
            } else {
                Ok((self@.size - self@.count) as usize)
            },
    {
        if self.current_chunk_count > self.current_chunk_size {
            return Err(Error::new(ErrorKind::Other, "Implementation error."));
        }

        Ok(self.current_chunk_size - self.current_chunk_count)
    }

    /// Asks for more data of the current chunk.
    fn read_data(&self, want: usize) -> (ret: Result<ReadStep>)
        ensures
            ret == self@.data_step(want),
    {
        let remaining: usize = match self.chunk_remaining() {
            Ok(remaining) => remaining,
            Err(err) => return Err(err),
        };
        // Make sure we do not accidentaly return an empty read.
        if remaining == 0 {
            return Err(Error::new(ErrorKind::Other, "Implementation error."));
        }

        Ok(ReadStep::Data(min_len(remaining, want)))
    }

    /// Handles the bytes behind the header of the last chunk.
    fn read_terminating_crlf(&self) -> (ret: Result<ReadStep>)
        requires
            self.buffer.wf(),
        ensures
            ret == self@.end_step(),
    {
        let buffer: &[u8] = self.buffer.as_ref();
        if 2 > buffer.len() {
            return self.ask_for_byte();
        }
        if buffer[0] == CR && buffer[1] == NL {
            Ok(ReadStep::Eof)
        } else {
            Err(Error::new(ErrorKind::InvalidData, "Chunked body did not end with a CRNL."))
        }
    }

    /// Handles the bytes in front of the data of a chunk.
    fn read_chunk_header(&mut self, want: usize) -> (ret: Result<ReadStep>)
        requires
            old(self).buffer.wf(),
        ensures
            final(self).buffer.wf(),
            (final(self)@, ret) == old(self)@.header_step(want),
    {
        let buffer: &[u8] = self.buffer.as_ref();
        let _inner_len: usize = self.buffer.inner().len();
        let idx: usize = match find_chunk_header_end(buffer) {
            Ok(Some(idx)) => idx,
            // The end is not yet available. We are not done with reading the header.
            Ok(None) => return self.ask_for_byte(),
            Err(err) => return Err(err),
        };
        let header: &[u8] = vstd::slice::slice_subrange(buffer, 0, idx);
        proof {
            lemma_header_prefix(buffer@, idx as int);
            assert(header@ =~= buffer@.take(idx as int));
        }
        if !chunk_size_fits(header) {
            return Ok(ReadStep::Oversized);
        }
        proof {
            crate::parse::law_found_chunk_header_has_size(header@);
        }
        // Parse the size of the current chunk.
        let size: usize = match parse_chunk_header(header) {
            Ok(size) => size,
            Err(err) => return Err(err),
        };
        self.buffer.progress(idx);
        self.current_chunk_size = size;
        self.current_chunk_count = 0;
        if size > 0 {
            self.status = ChunkedReaderStatus::ReadingChunk;
            self.read_data(want)
        } else {
            self.status = ChunkedReaderStatus::Done;
            self.read_terminating_crlf()
        }
    }

    /// Handles the data of a chunk and the bytes behind it.
    fn read_chunk_data(&mut self, want: usize) -> (ret: Result<ReadStep>)
        requires
            old(self).buffer.wf(),
        ensures
            final(self).buffer.wf(),
            (final(self)@, ret) == old(self)@.chunk_step(want),
    {
        let chunk_left: usize = match self.chunk_remaining() {
            Ok(n) => n,
            Err(err) => return Err(err),
        };
        // If the chunk has already been read, look for the CRNL after it.
        if chunk_left == 0 {
            let _inner_len: usize = self.buffer.inner().len();
            let buffer: &[u8] = self.buffer.as_ref();
            if 2 > buffer.len() {
                return self.ask_for_byte();
            }
            if buffer[0] == CR && buffer[1] == NL {
                self.buffer.progress(2);
                self.status = ChunkedReaderStatus::WaitingForChunk;
                return self.read_chunk_header(want);
            } else {
                return Err(
                    Error::new(ErrorKind::InvalidData, "Chunk data did not end with a CRNL."),
                );
            }
        }

        self.read_data(want)
    }

    /// Finds out what is needed next. `want` is how much data is wanted.
    pub fn next_step(&mut self, want: usize) -> (ret: Result<ReadStep>)
        requires
            old(self).buffer.wf(),
        ensures
            final(self).buffer.wf(),
            (final(self)@, ret) == old(self)@.step(want),
    {
        match self.status {
            ChunkedReaderStatus::WaitingForChunk => self.read_chunk_header(want),
            ChunkedReaderStatus::ReadingChunk => self.read_chunk_data(want),
            ChunkedReaderStatus::Done => self.read_terminating_crlf(),
        }
    }

    /// Takes in the byte which was asked for, or the end of the input.
    pub fn received_byte(&mut self, byte: Option<u8>) -> (ret: Result<()>)
        requires
            old(self).buffer.wf(),
            old(self)@.buffered.len() < old(self)@.capacity,
        ensures
            final(self).buffer.wf(),
            match byte {
                Some(byte) => {
                    &&& ret == Ok::<(), Error>(())
                    &&& final(self)@ == (ChunkedReaderView {
                        buffered: old(self)@.buffered.push(byte),
                        ..old(self)@
                    })
                },
                None => {
                    &&& ret == Err::<(), Error>(
                        Error {
                            kind: ErrorKind::UnexpectedEof,
                            message: "Incomplete chunk header.",
                        },
                    )
                    &&& final(self)@ == old(self)@
                },
            },
    {
        match byte {
            Some(byte) => {
                let single: [u8; 1] = [byte];
                self.buffer.write(single.as_slice());
                proof {
                    assert(single@.take(1) =~= seq![byte]);
                    assert(self@.buffered =~= old(self)@.buffered.push(byte));
                }

                Ok(())
            },
            None => Err(Error::new(ErrorKind::UnexpectedEof, "Incomplete chunk header.")),
        }
    }

    /// Notes that `n` bytes of the data which was asked for were received. No data at all is the
    /// end of the input.
    pub fn received_data(&mut self, n: usize) -> (ret: Result<()>)
        requires
            old(self)@.count + n <= old(self)@.size,
        ensures
            final(self).buffer == old(self).buffer,
            if n == 0 {
                &&& ret == Err::<(), Error>(
                    Error { kind: ErrorKind::UnexpectedEof, message: "Incomplete chunk." },
                )
                &&& final(self)@ == old(self)@
            } else {
                &&& ret == Ok::<(), Error>(())
                &&& final(self)@ == (ChunkedReaderView {
                    count: (old(self)@.count + n) as usize,
                    ..old(self)@
                })
            },
    {
        if n == 0 {
            return Err(Error::new(ErrorKind::UnexpectedEof, "Incomplete chunk."));
        }
        self.current_chunk_count = self.current_chunk_count + n;

        Ok(())
    }
}

/// A header which was found is found again in what it consists of.
proof fn lemma_header_prefix(s: Seq<u8>, idx: int)
    requires
        s.len() <= usize::MAX,
        crate::parse::chunk_header_end(s) == Ok::<Option<usize>, Error>(Some(idx as usize)),
        0 <= idx <= usize::MAX,
    ensures
        3 <= idx <= s.len(),
        crate::parse::chunk_header_end(s.take(idx)) == crate::parse::chunk_header_end(s),
        crate::parse::chunk_digits(s.take(idx)) == crate::parse::chunk_digits(s),
        crate::parse::hex_end(s) == Some((idx - 2) as usize),
        crate::parse::hex_end(s.take(idx)) == Some((idx - 2) as usize),
{
    let p = |b: u8| !crate::parse::is_hex(b);
    crate::parse::law_next_index(s, 0, p);
    let end = crate::parse::hex_end(s)->Some_0 as int;
    if s[end] == crate::parse::SEMICOLON {
        assert(crate::parse::chunk_extension_end(s.skip(end)) != Ok::<Option<usize>, Error>(
            Some(idx as usize),
        ));
    }
    assert(end == idx - 2);
    let t = s.take(idx);
    crate::parse::law_next_index(t, 0, p);
    assert(t[end] == s[end]);
    assert(t[0] == s[0]);
    assert(t[end + 1] == s[end + 1]);
    match crate::parse::hex_end(t) {
        Some(i) => {
            assert(t[i as int] == s[i as int]);
            if i < end {
                assert(p(s[i as int]));
            } else if end < i {
                assert(p(t[end]));
            }
        },
        None => {
            assert(p(t[end]));
        },
    }
    assert(t.take(end) =~= s.take(end));
}

/// Whether a CRNL stands at the index `at`.
pub open spec fn crnl_at(s: Seq<u8>, at: int) -> bool {
    0 <= at && at + 2 <= s.len() && s[at] == CR && s[at + 1] == NL
}

/// The data of the chunked body with which `s` starts, if the body is complete and valid.
#[verifier::opaque]
pub open spec fn body_of(s: Seq<u8>) -> Option<Seq<u8>>
    decreases s.len(),
{
    match crate::parse::chunk_header_end(s) {
        Ok(Some(idx)) => {
            let digits = crate::parse::chunk_digits(s);
            let size = crate::parse::hex_number(digits);
            if digits.len() > crate::parse::hex_capacity() || size < 0 {
                None
            } else if size == 0 {
                if crnl_at(s, idx as int) {
                    Some(Seq::empty())
                } else {
                    None
                }
            } else if crnl_at(s, idx + size) {
                match body_of(s.skip(idx + size + 2)) {
                    Some(rest) => Some(s.subrange(idx as int, idx + size) + rest),
                    None => None,
                }
            } else {
                None
            }
        },
        _ => None,
    }
}

/// The chunked body which consists of the given chunks.
pub open spec fn stream_of(chunks: Seq<Seq<u8>>) -> Seq<u8>
    decreases chunks.len(),
{
    if chunks.len() == 0 {
        last_chunk()
    } else {
        chunk(chunks[0]) + stream_of(chunks.skip(1))
    }
}

/// The data of the given chunks.
pub open spec fn data_of(chunks: Seq<Seq<u8>>) -> Seq<u8>
    decreases chunks.len(),
{
    if chunks.len() == 0 {
        Seq::empty()
    } else {
        chunks[0] + data_of(chunks.skip(1))
    }
}

/// The given chunks behind each other, without the end of the body.
pub open spec fn bytes_of(chunks: Seq<Seq<u8>>) -> Seq<u8>
    decreases chunks.len(),
{
    if chunks.len() == 0 {
        Seq::empty()
    } else {
        bytes_of(chunks.drop_last()) + chunk(chunks.last())
    }
}

impl ChunkedWriterView {
    /// Whether the writer is open and nothing is being sent.
    pub open spec fn is_idle(self) -> bool {
        &&& !self.in_flight
        &&& !self.ending
        &&& !self.finishing
        &&& !self.finished
        &&& self.unsent.len() == 0
        &&& self.collected.len() <= self.capacity
    }

    /// What is sent by a flush, and the writer after it.
    pub open spec fn flushed(self) -> (Seq<u8>, ChunkedWriterView) {
        let begun = self.flush_begun();
        (begun.unsent, begun.sent(begun.unsent.len() as int).flush_finished())
    }

    /// What is sent while all of some data is written, and the writer after it: it is flushed whenever
    /// it must be and collects what it has room for, until no data is left.
    pub open spec fn written(self, data: Seq<u8>) -> (Seq<u8>, ChunkedWriterView)
        decreases
                data.len(),
                if self.must_flush() {
                    1int
                } else {
                    0
                },
        when self.is_idle() && self.capacity > 0
    {
        if data.len() == 0 {
            (Seq::empty(), self)
        } else if self.must_flush() {
            let (bytes, next) = self.flushed();
            let (more, last) = next.written(data);
            (bytes + more, last)
        } else {
            let n = self.room_for(data.len() as int);
            self.filled(data.take(n)).written(data.skip(n))
        }
    }

    /// What is sent while some pieces of data are written, one after the other, and the writer after
    /// it.
    pub open spec fn all_written(self, pieces: Seq<Seq<u8>>) -> (Seq<u8>, ChunkedWriterView)
        decreases pieces.len(),
    {
        if pieces.len() == 0 {
            (Seq::empty(), self)
        } else {
            let (bytes, next) = self.all_written(pieces.drop_last());
            let (more, last) = next.written(pieces.last());
            (bytes + more, last)
        }
    }

    /// What is sent while the writer is shut down, and the writer after it: it is flushed if it has
    /// data, and the last chunk is sent.
    pub open spec fn shut_down(self) -> (Seq<u8>, ChunkedWriterView) {
        let begun = self.shutdown_begun();
        let (bytes, next) = if begun.has_data() {
            begun.flushed()
        } else {
            (Seq::empty(), begun)
        };
        let last = next.last_chunk_begun();
        (bytes + last.unsent, last.sent(last.unsent.len() as int).shutdown_finished())
    }
}

/// More chunks mean more data and more bytes.
proof fn lemma_one_more_chunk(chunks: Seq<Seq<u8>>, data: Seq<u8>)
    ensures
        data_of(chunks.push(data)) == data_of(chunks) + data,
        bytes_of(chunks.push(data)) == bytes_of(chunks) + chunk(data),
    decreases chunks.len(),
{
    let all = chunks.push(data);
    assert(all.drop_last() =~= chunks);
    if chunks.len() == 0 {
        assert(all[0] == data);
        assert(data_of(all.skip(1)) =~= Seq::empty());
        assert(data_of(all) =~= data_of(chunks) + data);
    } else {
        lemma_one_more_chunk(chunks.skip(1), data);
        assert(all.skip(1) =~= chunks.skip(1).push(data));
        assert(data_of(all) =~= data_of(chunks) + data);
    }
}

/// A body is its chunks followed by the last chunk.
proof fn lemma_stream(chunks: Seq<Seq<u8>>)
    ensures
        stream_of(chunks) == bytes_of(chunks) + last_chunk(),
    decreases chunks.len(),
{
    if chunks.len() == 0 {
        assert(stream_of(chunks) =~= bytes_of(chunks) + last_chunk());
    } else {
        lemma_stream(chunks.skip(1));
        lemma_first_of_bytes(chunks);
        assert(stream_of(chunks) =~= bytes_of(chunks) + last_chunk());
    }
}

proof fn lemma_first_of_bytes(chunks: Seq<Seq<u8>>)
    requires
        chunks.len() > 0,
    ensures
        bytes_of(chunks) == chunk(chunks[0]) + bytes_of(chunks.skip(1)),
    decreases chunks.len(),
{
    let front = chunks.drop_last();
    if front.len() == 0 {
        assert(front =~= Seq::empty());
        assert(chunks.skip(1) =~= Seq::empty());
    } else {
        lemma_first_of_bytes(front);
        assert(chunks.skip(1).drop_last() =~= front.skip(1));
        assert(chunks.skip(1).last() == chunks.last());
    }
    assert(bytes_of(chunks) =~= chunk(chunks[0]) + bytes_of(chunks.skip(1)));
}

/// Whether a writer which was as `before` is now as `after` and sent the given chunks, all of them
/// full, while it took in some data.
pub open spec fn took_in(
    before: ChunkedWriterView,
    after: ChunkedWriterView,
    chunks: Seq<Seq<u8>>,
    data: Seq<u8>,
) -> bool {
    &&& after == (ChunkedWriterView { collected: after.collected, ..before })
    &&& after.is_idle()
    &&& forall|i: int|
        0 <= i < chunks.len() ==> (#[trigger] chunks[i]).len() == before.capacity
    &&& data_of(chunks) + after.collected == before.collected + data
}

/// Sends the chunks `front` already, and finds those which are sent while `data` is written.
proof fn lemma_written(
    begin: ChunkedWriterView,
    front: Seq<Seq<u8>>,
    earlier: Seq<u8>,
    writer: ChunkedWriterView,
    data: Seq<u8>,
) -> (chunks: Seq<Seq<u8>>)
    requires
        begin.is_idle(),
        begin.capacity > 0,
        took_in(begin, writer, front, earlier),
    ensures
        took_in(begin, writer.written(data).1, chunks, earlier + data),
        bytes_of(chunks) == bytes_of(front) + writer.written(data).0,
    decreases
            data.len(),
            if writer.must_flush() {
                1int
            } else {
                0
            },
{
    if data.len() == 0 {
        assert(earlier + data =~= earlier);
        assert(bytes_of(front) + writer.written(data).0 =~= bytes_of(front));
        front
    } else if writer.must_flush() {
        let (bytes, next) = writer.flushed();
        let all = front.push(writer.collected);
        lemma_one_more_chunk(front, writer.collected);
        assert(next.unsent =~= Seq::empty());
        assert(writer.unsent =~= Seq::empty());
        assert(next =~= (ChunkedWriterView { collected: Seq::empty(), ..writer }));
        assert(data_of(all) + next.collected =~= begin.collected + earlier);
        let chunks = lemma_written(begin, all, earlier, next, data);
        assert(bytes_of(chunks) =~= bytes_of(front) + writer.written(data).0);
        chunks
    } else {
        let n = writer.room_for(data.len() as int);
        let next = writer.filled(data.take(n));
        let so_far = earlier + data.take(n);
        assert(data_of(front) + next.collected =~= (data_of(front) + writer.collected)
            + data.take(n));
        assert((begin.collected + earlier) + data.take(n) =~= begin.collected + so_far);
        let chunks = lemma_written(begin, front, so_far, next, data.skip(n));
        assert(so_far + data.skip(n) =~= earlier + data);
        chunks
    }
}

/// Finds the chunks which are sent while some pieces are written.
proof fn lemma_all_written(begin: ChunkedWriterView, pieces: Seq<Seq<u8>>) -> (chunks: Seq<Seq<u8>>)
    requires
        begin.is_idle(),
        begin.capacity > 0,
    ensures
        took_in(begin, begin.all_written(pieces).1, chunks, data_of(pieces)),
        bytes_of(chunks) == begin.all_written(pieces).0,
    decreases pieces.len(),
{
    if pieces.len() == 0 {
        let chunks: Seq<Seq<u8>> = Seq::empty();
        assert(data_of(chunks) + begin.collected =~= begin.collected + data_of(pieces));
        chunks
    } else {
        let earlier = pieces.drop_last();
        let front = lemma_all_written(begin, earlier);
        let writer = begin.all_written(earlier).1;
        lemma_one_more_chunk(earlier, pieces.last());
        assert(earlier.push(pieces.last()) =~= pieces);
        lemma_written(begin, front, data_of(earlier), writer, pieces.last())
    }
}

/// Whether some bytes are a whole body with the given data, in chunks which are all but the last one
/// as big as the writer allows.
pub open spec fn is_body_in(chunks: Seq<Seq<u8>>, capacity: nat, bytes: Seq<u8>, data: Seq<u8>) -> bool {
    &&& bytes == stream_of(chunks)
    &&& data_of(chunks) == data
    &&& forall|i: int|
        0 <= i < chunks.len() ==> 0 < (#[trigger] chunks[i]).len() <= capacity && (i < chunks.len()
            - 1 ==> chunks[i].len() == capacity)
}

/// What a writer sends is a whole body, whatever pieces the data is written in: the data of its
/// chunks is what was written, nothing gets lost, doubled or out of order, and all chunks but the last
/// one are as big as the writer allows. In the end the writer is shut down.
pub proof fn law_writer_sends_the_body(buffer_size: usize, pieces: Seq<Seq<u8>>)
    requires
        buffer_size > 2,
    ensures
        ({
            let writer = ChunkedWriterView::initial(buffer_size);
            let (front, next) = writer.all_written(pieces);
            let (back, last) = next.shut_down();
            &&& last.finished
            &&& last.unsent.len() == 0
            &&& last.collected.len() == 0
            &&& exists|chunks: Seq<Seq<u8>>| #[trigger]
                is_body_in(chunks, writer.capacity, front + back, data_of(pieces))
        }),
{
    let writer = ChunkedWriterView::initial(buffer_size);
    let full = lemma_all_written(writer, pieces);
    let (front, next) = writer.all_written(pieces);
    let (back, last) = next.shut_down();
    if next.collected.len() > 0 {
        let chunks = full.push(next.collected);
        lemma_one_more_chunk(full, next.collected);
        lemma_stream(chunks);
        assert(next.shutdown_begun().flushed().1.unsent =~= Seq::empty());
        assert(front + back =~= stream_of(chunks));
        assert(data_of(chunks) =~= data_of(pieces));
        assert(is_body_in(chunks, writer.capacity, front + back, data_of(pieces)));
    } else {
        lemma_stream(full);
        assert(front + back =~= stream_of(full));
        assert(data_of(full) =~= data_of(pieces));
        assert(is_body_in(full, writer.capacity, front + back, data_of(pieces)));
    }
}

/// What was sent in parts is what was to be sent: a part from the begin of what is unsent, followed by
/// what is unsent after it.
pub proof fn law_parts_make_the_chunk(writer: ChunkedWriterView, n: int)
    requires
        0 <= n <= writer.unsent.len(),
    ensures
        writer.unsent.take(n) + writer.sent(n).unsent == writer.unsent,
{
    assert(writer.unsent.take(n) + writer.sent(n).unsent =~= writer.unsent);
}

/// The header of a chunk is found and its size is read.
proof fn lemma_written_header(n: usize, tail: Seq<u8>)
    requires
        (crate::number::hex_text(n as nat) + seq![CR, NL] + tail).len() <= usize::MAX,
    ensures
        ({
            let text = crate::number::hex_text(n as nat);
            let s = text + seq![CR, NL] + tail;
            &&& crate::parse::chunk_header_end(s) == Ok::<Option<usize>, Error>(
                Some((text.len() + 2) as usize),
            )
            &&& crate::parse::chunk_digits(s) == text
            &&& text.len() <= crate::parse::hex_capacity()
            &&& crate::parse::hex_number(text) == n
        }),
{
    let text = crate::number::hex_text(n as nat);
    let s = text + seq![CR, NL] + tail;
    let p = |b: u8| !crate::parse::is_hex(b);
    crate::number::law_hex_round_trip(n);
    crate::parse::law_next_index(s, 0, p);
    let k = text.len() as int;
    assert(s[k] == CR);
    assert(s[k + 1] == NL);
    assert(crate::parse::is_hex(text[0]));
    assert(s[0] == text[0]);
    match crate::parse::hex_end(s) {
        Some(i) => {
            if i < k {
                assert(s[i as int] == text[i as int]);
                assert(crate::parse::is_hex(text[i as int]));
            } else if k < i {
                assert(p(s[k]));
            }
        },
        None => {
            assert(p(s[k]));
        },
    }
    assert(s.take(k) =~= text);
}

/// Flushing a writer which collected nothing ends the body: a chunk without data is the last one.
pub proof fn law_empty_chunk_is_last()
    ensures
        chunk(Seq::empty()) == last_chunk(),
{
    assert(crate::number::hex_text(0) =~= seq![48u8]);
    assert(chunk(Seq::empty()) =~= last_chunk());
}

/// The last chunk ends a body.
proof fn lemma_last_chunk(more: Seq<u8>)
    requires
        (last_chunk() + more).len() <= usize::MAX,
    ensures
        body_of(last_chunk() + more) == Some(Seq::<u8>::empty()),
{
    reveal(body_of);
    let text = crate::number::hex_text(0);
    assert(text =~= seq![48u8]);
    let tail = seq![CR, NL] + more;
    assert(last_chunk() + more =~= text + seq![CR, NL] + tail);
    lemma_written_header(0, tail);
}

/// A chunk puts its data in front of the data behind it.
proof fn lemma_first_chunk(data: Seq<u8>, rest: Seq<u8>)
    requires
        data.len() > 0,
        (chunk(data) + rest).len() <= usize::MAX,
    ensures
        body_of(chunk(data) + rest) == match body_of(rest) {
            Some(left) => Some(data + left),
            None => None,
        },
{
    reveal(body_of);
    let n = data.len() as usize;
    let text = crate::number::hex_text(data.len());
    let s = chunk(data) + rest;
    let tail = data + seq![CR, NL] + rest;
    assert(s =~= text + seq![CR, NL] + tail);
    lemma_written_header(n, tail);
    let idx = text.len() + 2;
    assert(s.subrange(idx as int, idx + n) =~= data);
    assert(s[idx + n] == CR);
    assert(s[idx + n + 1] == NL);
    assert(s.skip(idx + n + 2) =~= rest);
}

/// What was written in chunks is read back: the data of a chunked body is the data of its chunks,
/// whatever comes behind the body.
pub proof fn law_chunked_round_trip(chunks: Seq<Seq<u8>>, more: Seq<u8>)
    requires
        forall|i: int| 0 <= i < chunks.len() ==> (#[trigger] chunks[i]).len() > 0,
        (stream_of(chunks) + more).len() <= usize::MAX,
    ensures
        body_of(stream_of(chunks) + more) == Some(data_of(chunks)),
    decreases chunks.len(),
{
    if chunks.len() == 0 {
        lemma_last_chunk(more);
    } else {
        let rest = stream_of(chunks.skip(1)) + more;
        assert(stream_of(chunks) + more =~= chunk(chunks[0]) + rest);
        lemma_first_chunk(chunks[0], rest);
        assert forall|i: int| 0 <= i < chunks.skip(1).len() implies (
        #[trigger] chunks.skip(1)[i]).len() > 0 by {
            assert(chunks.skip(1)[i] == chunks[i + 1]);
        }
        law_chunked_round_trip(chunks.skip(1), more);
    }
}

/// What a writer sends is read back: the data of the body is what was written, whatever pieces it was
/// written in and whatever comes behind the body.
pub proof fn law_written_body_is_read_back(
    buffer_size: usize,
    pieces: Seq<Seq<u8>>,
    more: Seq<u8>,
)
    requires
        buffer_size > 2,
        ({
            let (front, next) = ChunkedWriterView::initial(buffer_size).all_written(pieces);
            (front + next.shut_down().0 + more).len() <= usize::MAX
        }),
    ensures
        ({
            let (front, next) = ChunkedWriterView::initial(buffer_size).all_written(pieces);
            body_of(front + next.shut_down().0 + more) == Some(data_of(pieces))
        }),
{
    let writer = ChunkedWriterView::initial(buffer_size);
    let (front, next) = writer.all_written(pieces);
    let bytes = front + next.shut_down().0;
    law_writer_sends_the_body(buffer_size, pieces);
    let chunks = choose|chunks: Seq<Seq<u8>>| #[trigger]
        is_body_in(chunks, writer.capacity, bytes, data_of(pieces));
    law_chunked_round_trip(chunks, more);
}

impl ChunkedReaderView {
    /// Whether the reader took in no byte too many: a header is understood as soon as it is
    /// complete, and there are no buffered bytes while data is read.
    pub open spec fn in_step(self) -> bool {
        match self.status {
            ChunkedReaderStatus::WaitingForChunk => crate::parse::chunk_header_end(
                self.buffered,
            ) matches Ok(Some(idx)) ==> idx == self.buffered.len(),
            ChunkedReaderStatus::ReadingChunk => {
                &&& self.count <= self.size
                &&& if self.count < self.size {
                    self.buffered.len() == 0
                } else {
                    self.buffered.len() <= 2
                }
            },
            ChunkedReaderStatus::Done => self.buffered.len() <= 2,
        }
    }

    /// The data which the reader still has to hand out, where `input` is what it has not seen yet.
    pub open spec fn left(self, input: Seq<u8>) -> Option<Seq<u8>> {
        let s = self.buffered + input;
        match self.status {
            ChunkedReaderStatus::WaitingForChunk => body_of(s),
            ChunkedReaderStatus::ReadingChunk => {
                let n = self.size - self.count;
                if crnl_at(s, n) {
                    match body_of(s.skip(n + 2)) {
                        Some(rest) => Some(s.take(n) + rest),
                        None => None,
                    }
                } else {
                    None
                }
            },
            ChunkedReaderStatus::Done => if crnl_at(s, 0) {
                Some(Seq::empty())
            } else {
                None
            },
        }
    }
}

/// A part of a complete header is not mistaken for anything else.
proof fn lemma_partial_header(s: Seq<u8>, idx: int, n: int)
    requires
        s.len() <= usize::MAX,
        0 <= idx <= usize::MAX,
        crate::parse::chunk_header_end(s) == Ok::<Option<usize>, Error>(Some(idx as usize)),
        0 <= n <= s.len(),
    ensures
        3 <= idx <= s.len(),
        crate::parse::chunk_header_end(s.take(n)) == if n < idx {
            Ok::<Option<usize>, Error>(None)
        } else {
            Ok::<Option<usize>, Error>(Some(idx as usize))
        },
        n >= idx ==> crate::parse::chunk_digits(s.take(n)) == crate::parse::chunk_digits(s),
{
    lemma_header_prefix(s, idx);
    let t = s.take(n);
    let p = |b: u8| !crate::parse::is_hex(b);
    let end = idx - 2;
    crate::parse::law_next_index(s, 0, p);
    crate::parse::law_next_index(t, 0, p);
    if n > 0 {
        assert(t[0] == s[0]);
    }
    if n > end {
        assert(t[end] == s[end]);
        match crate::parse::hex_end(t) {
            Some(i) => {
                assert(t[i as int] == s[i as int]);
                if i < end {
                    assert(p(s[i as int]));
                } else if end < i {
                    assert(p(t[end]));
                }
            },
            None => {
                assert(p(t[end]));
            },
        }
        if s[end] == crate::parse::SEMICOLON {
            assert(crate::parse::chunk_extension_end(s.skip(end)) != Ok::<Option<usize>, Error>(
                Some(idx as usize),
            ));
        }
        if n > end + 1 {
            assert(t[end + 1] == s[end + 1]);
        }
        assert(t.take(end) =~= s.take(end));
    } else {
        match crate::parse::hex_end(t) {
            Some(i) => {
                assert(t[i as int] == s[i as int]);
                assert(p(s[i as int]));
            },
            None => {},
        }
    }
}

/// Whether the first `k` bytes of the input followed by what is left behind them are the data that
/// was left before.
pub open spec fn data_follows(
    reader: ChunkedReaderView,
    input: Seq<u8>,
    k: int,
    body: Seq<u8>,
) -> bool {
    let next = ChunkedReaderView { count: (reader.count + k) as usize, ..reader };
    &&& next.in_step()
    &&& next.left(input.skip(k)) matches Some(rest)
    &&& body == input.take(k) + rest
}

/// The outcome of a step of a reader which is fed with a valid body: it does not fail unless its
/// buffer is too small for a header, it asks for nothing that the input does not hold, and the data
/// it hands out followed by what is left is the data that was left before.
pub open spec fn step_follows(
    reader: ChunkedReaderView,
    input: Seq<u8>,
    step: Result<ReadStep>,
    body: Seq<u8>,
) -> bool {
    match step {
        Err(_) => reader.buffered.len() >= reader.capacity,
        Ok(ReadStep::Oversized) => false,
        Ok(ReadStep::Eof) => body.len() == 0,
        Ok(ReadStep::Byte) => {
            let next = ChunkedReaderView {
                buffered: reader.buffered.push(input[0]),
                ..reader
            };
            &&& input.len() > 0
            &&& next.in_step()
            &&& next.left(input.skip(1)) == Some(body)
        },
        Ok(ReadStep::Data(n)) => {
            &&& 0 < n <= input.len()
            &&& reader.count + n <= reader.size
            &&& forall|k: int| 0 < k <= n ==> #[trigger] data_follows(reader, input, k, body)
        },
    }
}

proof fn lemma_byte_follows(v: ChunkedReaderView, input: Seq<u8>, body: Seq<u8>)
    requires
        v.in_step(),
        (v.buffered + input).len() <= usize::MAX,
        v.left(input) == Some(body),
        v.status == ChunkedReaderStatus::WaitingForChunk ==> crate::parse::chunk_header_end(
            v.buffered,
        ) == Ok::<Option<usize>, Error>(None),
        v.status != ChunkedReaderStatus::WaitingForChunk ==> v.buffered.len() < 2,
        v.status == ChunkedReaderStatus::ReadingChunk ==> v.count == v.size,
    ensures
        step_follows(v, input, v.byte_step(), body),
{
    reveal(body_of);
    let s = v.buffered + input;
    if v.status == ChunkedReaderStatus::WaitingForChunk {
        let idx = crate::parse::chunk_header_end(s)->Ok_0->Some_0 as int;
        lemma_partial_header(s, idx, v.buffered.len() as int);
        assert(s.take(v.buffered.len() as int) =~= v.buffered);
    }
    assert(input.len() > 0);
    let pushed = v.buffered.push(input[0]);
    assert(pushed + input.skip(1) =~= s);
    if v.status == ChunkedReaderStatus::WaitingForChunk {
        if let Ok(Some(idx)) = crate::parse::chunk_header_end(pushed) {
            lemma_partial_header(pushed, idx as int, v.buffered.len() as int);
            assert(pushed.take(v.buffered.len() as int) =~= v.buffered);
        }
    }
}

proof fn lemma_data_follows(v: ChunkedReaderView, input: Seq<u8>, want: usize, body: Seq<u8>)
    requires
        v.in_step(),
        v.status == ChunkedReaderStatus::ReadingChunk,
        v.count < v.size,
        want > 0,
        v.left(input) == Some(body),
    ensures
        step_follows(v, input, v.data_step(want), body),
{
    let n = crate::buffer::min(v.size - v.count, want as int);
    assert(v.buffered + input =~= input);
    assert(v.data_step(want) == Ok::<ReadStep, Error>(ReadStep::Data(n as usize)));
    assert(crnl_at(input, v.size - v.count));
    assert forall|k: int| 0 < k <= n as usize implies #[trigger] data_follows(
        v,
        input,
        k,
        body,
    ) by {
        lemma_some_data(v, input, k, body);
    }
}

/// After `k` bytes of the current chunk, the rest of its data is left.
#[verifier::spinoff_prover]
proof fn lemma_some_data(v: ChunkedReaderView, input: Seq<u8>, k: int, body: Seq<u8>)
    requires
        v.in_step(),
        v.status == ChunkedReaderStatus::ReadingChunk,
        v.count < v.size,
        0 < k <= v.size - v.count,
        v.left(input) == Some(body),
    ensures
        data_follows(v, input, k, body),
{
    let left = v.size - v.count;
    let next = ChunkedReaderView { count: (v.count + k) as usize, ..v };
    let s = next.buffered + input.skip(k);
    assert(v.buffered + input =~= input);
    let rest = body_of(input.skip(left + 2))->Some_0;
    assert(s =~= input.skip(k));
    assert(s.skip(left - k + 2) =~= input.skip(left + 2));
    assert(crnl_at(s, left - k)) by {
        assert(s[left - k] == input[left]);
        assert(s[left - k + 1] == input[left + 1]);
    }
    assert(input.take(k) + (s.take(left - k) + rest) =~= input.take(left) + rest);
}

proof fn lemma_header_follows(v: ChunkedReaderView, input: Seq<u8>, want: usize, body: Seq<u8>)
    requires
        v.status == ChunkedReaderStatus::WaitingForChunk,
        v.in_step(),
        want > 0,
        (v.buffered + input).len() <= usize::MAX,
        v.left(input) == Some(body),
    ensures
        step_follows(v.header_step(want).0, input, v.header_step(want).1, body),
{
    reveal(body_of);
    let s = v.buffered + input;
    let idx = crate::parse::chunk_header_end(s)->Ok_0->Some_0 as int;
    lemma_partial_header(s, idx, v.buffered.len() as int);
    assert(s.take(v.buffered.len() as int) =~= v.buffered);
    if v.buffered.len() < idx {
        lemma_byte_follows(v, input, body);
    } else {
        assert(idx == v.buffered.len());
        let (next, step) = v.header_step(want);
        assert(v.buffered.skip(idx) =~= Seq::empty());
        assert(next.buffered + input =~= s.skip(idx));
        let digits = crate::parse::chunk_digits(s);
        crate::parse::law_next_index(s, 0, |b: u8| !crate::parse::is_hex(b));
        assert(crate::parse::all_hex(digits)) by {
            assert forall|i: int| 0 <= i < digits.len() implies crate::parse::is_hex(
                #[trigger] digits[i],
            ) by {
                assert(digits[i] == s[i]);
            }
        }
        crate::parse::law_hex_number_bound(digits);
        let size = crate::parse::hex_number(digits);
        if size > 0 {
            assert(s.skip(idx)[size] == s[idx + size]);
            assert(s.skip(idx)[size + 1] == s[idx + size + 1]);
            assert(s.skip(idx).skip(size + 2) =~= s.skip(idx + size + 2));
            assert(s.skip(idx).take(size) =~= s.subrange(idx, idx + size));
            lemma_data_follows(next, input, want, body);
        } else {
            lemma_byte_follows(next, input, body);
        }
    }
}

/// A reader which is fed with a valid body, byte by byte or in pieces, hands out exactly the data
/// of that body and then reports its end.
pub proof fn law_reader_follows_body(
    v: ChunkedReaderView,
    input: Seq<u8>,
    want: usize,
    body: Seq<u8>,
)
    requires
        v.in_step(),
        want > 0,
        (v.buffered + input).len() <= usize::MAX,
        v.left(input) == Some(body),
    ensures
        step_follows(v.step(want).0, input, v.step(want).1, body),
{
    let s = v.buffered + input;
    match v.status {
        ChunkedReaderStatus::WaitingForChunk => {
            lemma_header_follows(v, input, want, body);
        },
        ChunkedReaderStatus::ReadingChunk => {
            if v.count < v.size {
                lemma_data_follows(v, input, want, body);
            } else if v.buffered.len() < 2 {
                lemma_byte_follows(v, input, body);
            } else {
                assert(s[0] == v.buffered[0] && s[1] == v.buffered[1]);
                let next = ChunkedReaderView {
                    buffered: v.buffered.skip(2),
                    status: ChunkedReaderStatus::WaitingForChunk,
                    ..v
                };
                assert(next.buffered =~= Seq::empty());
                assert(next.buffered + input =~= s.skip(2));
                assert(s.take(0) + body_of(s.skip(2))->Some_0 =~= body_of(s.skip(2))->Some_0);
                lemma_header_follows(next, input, want, body);
            }
        },
        ChunkedReaderStatus::Done => {
            if v.buffered.len() < 2 {
                lemma_byte_follows(v, input, body);
            } else {
                assert(s[0] == v.buffered[0] && s[1] == v.buffered[1]);
            }
        },
    }
}

/// The writer keeps two bytes of its buffer for the line end, and takes as much of some data as it
/// has room for.
pub proof fn law_writer_takes_what_fits(writer: ChunkedWriterView, buffer_size: usize, len: int)
    requires
        buffer_size > 2,
        len >= 0,
        writer.collected.len() <= writer.capacity,
    ensures
        ChunkedWriterView::initial(buffer_size).capacity + 2 == buffer_size,
        0 <= writer.room_for(len) <= len,
        writer.collected.len() + writer.room_for(len) <= writer.capacity,
        writer.room_for(len) == len || writer.collected.len() + writer.room_for(len)
            == writer.capacity,
{
}

/// Data which is not followed by a line end is refused, and so is a body which does not end with
/// one.
pub proof fn law_chunk_needs_line_end(reader: ChunkedReaderView, want: usize)
    requires
        reader.buffered.len() >= 2,
        reader.buffered[0] != 13 || reader.buffered[1] != 10,
        reader.status is Done || reader.status is ReadingChunk && reader.count == reader.size,
    ensures
        reader.step(want).0 == reader,
        reader.step(want).1 matches Err(err) && err.kind == ErrorKind::InvalidData,
{
}

/// A header which is refused makes the reader fail, one with more digits than a size can have is
/// reported, and one which does not fit in the buffer is refused. A byte is only asked for while there
/// is room for it.
pub proof fn law_bad_chunk_header(reader: ChunkedReaderView, want: usize)
    requires
        reader.status is WaitingForChunk,
    ensures
        crate::parse::chunk_header_end(reader.buffered) is Err ==> reader.step(want).1 is Err,
        crate::parse::chunk_header_end(reader.buffered) matches Ok(Some(_))
            && crate::parse::chunk_digits(reader.buffered).len() > usize::BITS / 4 ==> reader.step(
            want,
        ).1 == Ok::<ReadStep, Error>(ReadStep::Oversized),
        crate::parse::chunk_header_end(reader.buffered) == Ok::<Option<usize>, Error>(None) ==> {
            &&& reader.step(want).0 == reader
            &&& if reader.buffered.len() < reader.capacity {
                reader.step(want).1 == Ok::<ReadStep, Error>(ReadStep::Byte)
            } else {
                reader.step(want).1 is Err
            }
        },
{
}

/// As much data is read at once as is wanted, but never beyond the end of the chunk.
pub proof fn law_data_is_read_up_to_chunk_end(reader: ChunkedReaderView, want: usize)
    ensures
        reader.step(want).1 matches Ok(ReadStep::Data(n)) ==> {
            let next = reader.step(want).0;
            &&& n <= want
            &&& next.count + n <= next.size
            &&& n == want || next.count + n == next.size
        },
        reader.status is ReadingChunk && reader.count < reader.size ==> (reader.step(
            want,
        ).1 matches Ok(ReadStep::Data(_)) && reader.step(want).0 == reader),
{
}

} // verus!
