//! What is decided about bodies.

use vstd::prelude::*;

use crate::buffer::{min_len, Buffer};
use crate::error::{Error, ErrorKind, Result};
use crate::message::BodyType;

verus! {

/// What a [`LimitReader`] does next.
#[derive(Debug, Clone, Copy, PartialEq, Eq, Structural)]
pub enum LimitStep {
    /// The limit is reached, which ends the body.
    Eof,
    /// Read up to so many bytes and note them with [`LimitReader::received`].
    Read(usize),
}

/// Makes sure that no more than a given number of bytes is read.
#[derive(Debug, Clone, Copy)]
pub struct LimitReader {
    pub max: usize,
    pub current: usize,
}

impl LimitReader {
    /// A reader which ends after `max` bytes.
    pub fn new(max: usize) -> (reader: Self)
        ensures
            reader == (LimitReader { max, current: 0 }),
    {
        LimitReader { max, current: 0 }
    }

    /// What to do next, where `want` is how much is wanted.
    pub open spec fn step(self, want: usize) -> Result<LimitStep> {
        if self.current > self.max {
            crate::parse::other_error(
                "Implementation error (LimitReader has read more then max bytes!)",
            )
        } else if self.current == self.max {
            Ok(LimitStep::Eof)
        } else {
            Ok(
                LimitStep::Read(
                    crate::buffer::min(self.max - self.current, want as int) as usize,
                ),
            )
        }
    }

    /// Finds out how much can be read, where `want` is how much is wanted.
    pub fn next_step(&self, want: usize) -> (ret: Result<LimitStep>)
        ensures
            ret == self.step(want),
    {
        // Check if we have already exceeded the limit.
        if self.current > self.max {
            return Err(
                Error::new(
                    ErrorKind::Other,
                    "Implementation error (LimitReader has read more then max bytes!)",
                ),
            );
        }
        let remaining: usize = self.max - self.current;
        if remaining == 0 {
            return Ok(LimitStep::Eof);
        }

        Ok(LimitStep::Read(min_len(remaining, want)))
    }

    /// Notes that `n` bytes were read. The limit is never exceeded.
    pub fn received(&mut self, n: usize)
        requires
            old(self).current + n <= old(self).max,
        ensures
            *final(self) == (LimitReader {
                current: (old(self).current + n) as usize,
                ..*old(self)
            }),
            final(self).current <= final(self).max,
    {
        self.current = self.current + n;
    }
}

/// The limit is exact: as long as less than `max` bytes were read the reader reads on, and it never
/// asks for more than is left.
pub proof fn law_limit_is_exact(reader: LimitReader, want: usize)
    requires
        reader.current <= reader.max,
    ensures
        reader.step(want) matches Ok(step) && {
            &&& step is Eof <==> reader.current == reader.max
            &&& step matches LimitStep::Read(n) ==> reader.current + n <= reader.max && n <= want
                && (want > 0 ==> n > 0)
        },
{
}

/// How the body of a request is handed to a handler: `None` for no body, else its length as far as
/// it is known.
pub open spec fn body_length(body_type: BodyType) -> Option<Option<usize>> {
    match body_type {
        BodyType::NoBody => None,
        BodyType::Fixed(len) => Some(Some(len)),
        BodyType::Chunked => Some(None),
    }
}

/// Finds out how the body of a request is handed to a handler.
pub fn body_length_of(body_type: BodyType) -> (len: Option<Option<usize>>)
    ensures
        len == body_length(body_type),
{
    match body_type {
        BodyType::NoBody => None,
        BodyType::Fixed(len) => Some(Some(len)),
        BodyType::Chunked => Some(None),
    }
}

/// Finds out how much of a body of the given length may be read, where `max` is the most that is
/// accepted.
pub fn read_limit(body_len: Option<usize>, max: usize) -> (ret: Result<usize>)
    ensures
        ret == match body_len {
            Some(len) => if len > max {
                crate::parse::invalid_data("The request body is too large.")
            } else {
                Ok(len)
            },
            None => Ok(max),
        },
        ret matches Ok(limit) ==> limit <= max,
{
    // Check that the body is not too large and save space by using the lower value.
    match body_len {
        Some(body_len) => {
            if body_len > max {
                return Err(Error::new(ErrorKind::InvalidData, "The request body is too large."));
            }

            Ok(body_len)
        },
        None => Ok(max),
    }
}

/// Checks that no more was read than was stored.
pub fn check_amount(amount: usize, stored: usize) -> (ret: Result<()>)
    ensures
        ret == if amount > stored {
            crate::parse::other_error("The request body is too large.")
        } else {
            Ok(())
        },
{
    if amount > stored {
        return Err(Error::new(ErrorKind::Other, "The request body is too large."));
    }

    Ok(())
}

/// What the reader of a request body does next.
#[derive(Debug)]
pub enum BackgroundStep {
    /// Hand out this data.
    Deliver(Vec<u8>),
    /// Ask the connection to fill the buffer with up to so many bytes, and tell with
    /// [`BackgroundRead::requested`] whether it could be asked.
    Request(Buffer, usize),
    /// Wait for the answer of the connection, which is handed over with
    /// [`BackgroundRead::received`].
    Wait,
    /// Nothing more can be read.
    Fail(Error),
}

/// Reads the body of a request by asking the connection for it.
#[derive(Debug)]
pub struct BackgroundRead {
    pub buffer: Option<Buffer>,
    pub waiting: bool,
}

/// The unread bytes of an optional buffer.
pub open spec fn unread(buffer: Option<Buffer>) -> Option<Seq<u8>> {
    match buffer {
        Some(buffer) => Some(buffer@),
        None => None,
    }
}

impl BackgroundRead {
    /// The buffer is intact.
    pub open spec fn wf(&self) -> bool {
        self.buffer matches Some(buffer) ==> buffer.wf()
    }

    /// A reader which uses the given buffer.
    pub fn new(buffer: Buffer) -> (read: Self)
        ensures
            read.buffer == Some(buffer),
            !read.waiting,
    {
        BackgroundRead { buffer: Some(buffer), waiting: false }
    }

    /// Takes up to `want` unread bytes out of a buffer.
    fn take_data(buffer: &mut Buffer, want: usize) -> (data: Vec<u8>)
        requires
            old(buffer).wf(),
        ensures
            final(buffer).wf(),
            data@ == old(buffer)@.take(
                crate::buffer::min(old(buffer)@.len() as int, want as int),
            ),
            final(buffer)@ == old(buffer)@.skip(data@.len() as int),
            final(buffer).storage() == old(buffer).storage(),
    {
        let _inner_len: usize = buffer.inner().len();
        let amount: usize = min_len(buffer.available_for_read(), want);
        let data: Vec<u8> = vstd::slice::slice_to_vec(
            vstd::slice::slice_subrange(buffer.as_ref(), 0, amount),
        );
        buffer.progress(amount);
        proof {
            assert(data@ =~= old(buffer)@.take(amount as int));
        }

        data
    }

    /// Finds out what to do to read up to `want` bytes.
    pub fn next_step(&mut self, want: usize) -> (step: BackgroundStep)
        requires
            old(self).wf(),
        ensures
            final(self).wf(),
            final(self).waiting == old(self).waiting,
            match unread(old(self).buffer) {
                Some(data) => if data.len() > 0 {
                    let n = crate::buffer::min(data.len() as int, want as int);
                    &&& step matches BackgroundStep::Deliver(out)
                    &&& out@ == data.take(n)
                    &&& unread(final(self).buffer) == Some(data.skip(n))
                    &&& final(self).buffer->0.storage() == old(self).buffer->0.storage()
                } else {
                    &&& step matches BackgroundStep::Request(buffer, amount)
                    &&& amount == want
                    &&& Some(buffer) == old(self).buffer
                    &&& final(self).buffer is None
                },
                None => {
                    &&& final(self).buffer is None
                    &&& if old(self).waiting {
                        step is Wait
                    } else {
                        step matches BackgroundStep::Fail(err) && err == (Error {
                            kind: ErrorKind::Other,
                            message: "This object is no longer usable.",
                        })
                    }
                },
            },
    {
        match self.buffer.take() {
            Some(mut buffer) => {
                // First check if we have some unread bytes.
                if buffer.available_for_read() > 0 {
                    let data: Vec<u8> = Self::take_data(&mut buffer, want);
                    self.buffer = Some(buffer);
                    BackgroundStep::Deliver(data)
                } else {
                    // Send a request to the connection task to read some data.
                    BackgroundStep::Request(buffer, want)
                }
            },
            None => {
                if self.waiting {
                    BackgroundStep::Wait
                } else {
                    // We are either done or there was an error.
                    BackgroundStep::Fail(
                        Error::new(ErrorKind::Other, "This object is no longer usable."),
                    )
                }
            },
        }
    }

    /// Notes whether the connection could be asked.
    pub fn requested(&mut self, sent: bool) -> (ret: Result<()>)
        ensures
            final(self).buffer == old(self).buffer,
            final(self).waiting == sent,
            ret == if sent {
                Ok(())
            } else {
                crate::parse::other_error("Internal error. (Sending read request failed)")
            },
    {
        self.waiting = sent;
        if !sent {
            return Err(
                Error::new(ErrorKind::Other, "Internal error. (Sending read request failed)"),
            );
        }

        Ok(())
    }

    /// Takes in the answer of the connection: the buffer, the error which occured while reading, or
    /// `None` if the connection is gone. Returns the data to hand out, where no data at all is the
    /// end of the body.
    pub fn received(&mut self, answer: Option<Result<Buffer>>, want: usize) -> (ret: Result<
        Vec<u8>,
    >)
        requires
            answer matches Some(Ok(buffer)) ==> buffer.wf(),
        ensures
            final(self).wf(),
            match answer {
                Some(Ok(buffer)) => {
                    let n = crate::buffer::min(buffer@.len() as int, want as int);
                    &&& ret matches Ok(data)
                    &&& data@ == buffer@.take(n)
                    &&& if buffer@.len() > 0 {
                        &&& unread(final(self).buffer) == Some(buffer@.skip(n))
                        &&& final(self).buffer->0.storage() == buffer.storage()
                        &&& final(self).waiting
                    } else {
                        final(self).buffer is None && !final(self).waiting
                    }
                },
                Some(Err(err)) => {
                    &&& ret matches Err(got)
                    &&& got == err
                    &&& final(self).buffer is None
                    &&& !final(self).waiting
                },
                None => {
                    &&& ret matches Err(got)
                    &&& got == (Error {
                        kind: ErrorKind::Other,
                        message: "Internal error. (Receiving read response failed)",
                    })
                    &&& final(self).buffer is None
                    &&& !final(self).waiting
                },
            },
    {
        if let Some(mut buffer) = self.buffer.take() {
            buffer.wipe();
        }
        self.waiting = false;
        match answer {
            Some(Ok(mut buffer)) => {
                if buffer.available_for_read() > 0 {
                    let data: Vec<u8> = Self::take_data(&mut buffer, want);
                    self.buffer = Some(buffer);
                    self.waiting = true;

                    Ok(data)
                } else {
                    let data: Vec<u8> = Vec::new();
                    proof {
                        assert(data@ =~= buffer@.take(0));
                    }
                    buffer.wipe();

                    Ok(data)
                }
            },
            Some(Err(err)) => Err(err),
            None => Err(
                Error::new(ErrorKind::Other, "Internal error. (Receiving read response failed)"),
            ),
        }
    }
}

/// A read takes as much as is wanted, unless that would exceed the limit, and then exactly up to the
/// limit.
pub proof fn law_limit_is_used_up(reader: LimitReader, want: usize)
    requires
        reader.current <= reader.max,
    ensures
        reader.step(want) matches Ok(LimitStep::Read(n)) ==> n == want || reader.current + n
            == reader.max,
        reader.current < reader.max ==> (reader.step(want) matches Ok(step) && step is Read),
        reader.step(want) matches Ok(LimitStep::Eof) ==> reader.current == reader.max,
{
}

/// A handler gets a body exactly if there is one, and its length exactly if it is known.
pub proof fn law_body_is_handed_over(body_type: BodyType, len: usize)
    ensures
        body_length(body_type) is None <==> body_type is NoBody,
        body_length(body_type) == Some(Some(len)) <==> body_type == BodyType::Fixed(len),
        body_length(body_type) == Some(None::<usize>) <==> body_type is Chunked,
{
}

} // verus!
