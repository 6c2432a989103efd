//! An HTTP/1 connection: how requests are read and how their bodies are passed on.
//!
//! Nothing in here reads, writes or waits. A [`RequestReader`] and a [`Connection`] work on the
//! bytes which were received so far and tell when they need more of them.

use vstd::prelude::*;

use crate::buffer::{min_len, Buffer};
use crate::config::{Config, Nanos};
use crate::error::{Error, ErrorKind, Result};
use crate::http2::stream::HandlerOutcome;
use crate::message::{Request, RequestView, Version};
use crate::response::{Response, ResponseView};
use crate::parse::{
    find_header_end, find_start_line_end, parse_request_header_new, parse_start_line2, CR, NL,
};

verus! {

/// Which part of a request head comes next.
#[derive(Debug, Clone, Copy, PartialEq, Eq, Structural)]
pub enum HeadPart {
    /// The start line.
    StartLine,
    /// The first byte behind the start line.
    FirstHeader,
    /// The headers, or the empty line behind them.
    Headers,
}

/// What came out of reading a part of a request head.
#[derive(Debug, Clone, Copy)]
pub enum ReadStep {
    /// More bytes are needed.
    NeedMore,
    /// The head is complete.
    Done,
    /// The head is broken.
    Failed(Error),
    /// There are more headers than a request can hold.
    Full,
}

/// Reads the head of a request.
#[derive(Debug)]
pub struct RequestReader {
    pub part: HeadPart,
    pub req: Request,
    /// How many bytes of the head were read.
    pub taken: usize,
}

/// What a [`RequestReader`] knows, together with the bytes which it has not read yet.
#[verifier::ext_equal]
pub struct HeadView {
    pub part: HeadPart,
    pub req: RequestView,
    pub unread: Seq<u8>,
    /// How many bytes of the head were read.
    pub taken: int,
    /// The most bytes a head can have.
    pub max: int,
}

/// What to do without more bytes: wait for them, unless there will be none.
pub open spec fn starved(eof: bool, message: &'static str) -> ReadStep {
    if eof {
        ReadStep::Failed(Error { kind: ErrorKind::UnexpectedEof, message })
    } else {
        ReadStep::NeedMore
    }
}

/// An error about data which does not follow its format.
pub open spec fn malformed(message: &'static str) -> ReadStep {
    ReadStep::Failed(Error { kind: ErrorKind::InvalidData, message })
}

/// The fields with some more values for a name.
pub open spec fn with_all_appended(
    fields: Seq<crate::foreign::Field>,
    name: Seq<u8>,
    values: Seq<Seq<u8>>,
) -> Seq<crate::foreign::Field>
    decreases values.len(),
{
    if values.len() == 0 {
        fields
    } else {
        crate::foreign::with_appended(
            with_all_appended(fields, name, values.drop_last()),
            name,
            values.last(),
        )
    }
}

/// More values never make for fewer names.
proof fn lemma_fields_grow(
    fields: Seq<crate::foreign::Field>,
    name: Seq<u8>,
    values: Seq<Seq<u8>>,
    n: int,
)
    requires
        0 <= n <= values.len(),
    ensures
        with_all_appended(fields, name, values.take(n)).len() <= with_all_appended(
            fields,
            name,
            values,
        ).len(),
        fields.len() <= with_all_appended(fields, name, values).len(),
    decreases values.len(),
{
    if values.len() == 0 {
        assert(values.take(n) =~= values);
    } else if n == values.len() {
        lemma_fields_grow(fields, name, values.drop_last(), 0);
        assert(values.take(n) =~= values);
    } else {
        lemma_fields_grow(fields, name, values.drop_last(), n);
        assert(values.drop_last().take(n) =~= values.take(n));
    }
}

impl HeadView {
    /// The reader after some more bytes arrived.
    pub open spec fn with(self, bytes: Seq<u8>) -> HeadView {
        HeadView { unread: self.unread + bytes, ..self }
    }

    /// The reader after some of the unread bytes were read.
    pub open spec fn without(self, n: int) -> HeadView {
        HeadView { unread: self.unread.skip(n), taken: self.taken + n, ..self }
    }

    /// Whether there will be no more bytes, be it that there are none or that the head would get too
    /// big.
    pub open spec fn is_last(self, eof: bool) -> bool {
        eof || self.taken + self.unread.len() >= self.max
    }

    /// Reads as many headers as possible.
    pub open spec fn headers_read(self, line_max: usize, eof: bool) -> (HeadView, ReadStep)
        decreases self.unread.len(),
    {
        let waiting = (self, starved(self.is_last(eof), "No full request header was send."));
        let refused = (self, starved(true, "No full request header was send."));
        if self.unread.len() == 0 {
            waiting
        } else if self.unread[0] == CR {
            if self.unread.len() == 1 {
                waiting
            } else if self.unread[1] == NL {
                if self.taken + 2 > self.max {
                    refused
                } else {
                    (self.without(2), ReadStep::Done)
                }
            } else {
                (self, malformed("A header line started with a CR but was not followed by NL."))
            }
        } else {
            match crate::parse::header_end(self.unread) {
                Err(err) => (self, ReadStep::Failed(err)),
                Ok(None) => waiting,
                Ok(Some(idx)) => if idx > line_max {
                    (self, malformed("A header line exceeded the limit."))
                } else if self.taken + idx > self.max {
                    refused
                } else {
                    match crate::parse::parsed_header(self.unread) {
                        Err(err) => (self, ReadStep::Failed(err)),
                        Ok((name, values)) => if 0 < idx <= self.unread.len() {
                            HeadView {
                                req: RequestView {
                                    fields: with_all_appended(self.req.fields, name, values),
                                    ..self.req
                                },
                                ..self.without(idx as int)
                            }.headers_read(line_max, eof)
                        } else {
                            arbitrary()
                        },
                    }
                },
            }
        }
    }

    /// Waits for the first byte behind the start line, and reads as many headers as possible.
    pub open spec fn first_header_read(self, line_max: usize, eof: bool) -> (HeadView, ReadStep) {
        if self.unread.len() == 0 {
            (self, starved(self.is_last(eof), "No request header was send."))
        } else {
            HeadView { part: HeadPart::Headers, ..self }.headers_read(line_max, eof)
        }
    }

    /// Reads as much of the head as possible.
    pub open spec fn advanced(self, line_max: usize, eof: bool) -> (HeadView, ReadStep) {
        match self.part {
            HeadPart::StartLine => match crate::parse::start_line_end(self.unread) {
                Err(err) => (self, ReadStep::Failed(err)),
                Ok(None) => (
                    self,
                    starved(self.is_last(eof), "No full request header start line was send."),
                ),
                Ok(Some(idx)) => if self.taken + idx > self.max {
                    (self, starved(true, "No full request header start line was send."))
                } else {
                    match crate::parse::parsed_line(self.unread.take(idx as int)) {
                        Err(err) => (self, ReadStep::Failed(err)),
                        Ok((method, target, version)) => HeadView {
                            part: HeadPart::FirstHeader,
                            req: RequestView { method, target, version, fields: self.req.fields },
                            ..self.without(idx as int)
                        }.first_header_read(line_max, eof),
                    }
                },
            },
            HeadPart::FirstHeader => self.first_header_read(line_max, eof),
            HeadPart::Headers => self.headers_read(line_max, eof),
        }
    }
}

/// Reading headers never makes for fewer names.
proof fn lemma_headers_grow(head: HeadView, line_max: usize, eof: bool)
    requires
        head.unread.len() <= usize::MAX,
    ensures
        head.req.fields.len() <= head.headers_read(line_max, eof).0.req.fields.len(),
    decreases head.unread.len(),
{
    if head.unread.len() > 0 && head.unread[0] != CR {
        if let Ok(Some(idx)) = crate::parse::header_end(head.unread) {
            crate::parse::law_header_end_in_range(head.unread);
            if idx <= line_max {
                if let Ok((name, values)) = crate::parse::parsed_header(head.unread) {
                    let next = HeadView {
                        req: RequestView {
                            fields: with_all_appended(head.req.fields, name, values),
                            ..head.req
                        },
                        ..head.without(idx as int)
                    };
                    lemma_fields_grow(head.req.fields, name, values, 0);
                    lemma_headers_grow(next, line_max, eof);
                }
            }
        }
    }
}

impl RequestReader {
    /// What the reader knows, together with the unread bytes of a buffer. A head is at most as big as
    /// the buffer.
    pub open spec fn over(&self, buffer: &Buffer) -> HeadView {
        HeadView {
            part: self.part,
            req: self.req@,
            unread: buffer@,
            taken: self.taken as int,
            max: buffer.storage().len() as int,
        }
    }

    /// A reader for the next request.
    pub fn new() -> (reader: Self)
        ensures
            reader.part == HeadPart::StartLine,
            reader.taken == 0,
            reader.req@ == (RequestView {
                method: crate::text::ascii("GET"@),
                target: crate::text::ascii("/"@),
                version: Version::Http11,
                fields: Seq::empty(),
            }),
    {
        RequestReader { part: HeadPart::StartLine, req: Request::new(Version::Http11), taken: 0 }
    }

    /// What to do without more bytes.
    fn starve(eof: bool, message: &'static str) -> (step: ReadStep)
        ensures
            step == starved(eof, message),
    {
        if eof {
            ReadStep::Failed(Error::new(ErrorKind::UnexpectedEof, message))
        } else {
            ReadStep::NeedMore
        }
    }

    /// How many more bytes the head can have.
    fn room(&self, max: usize) -> (room: usize)
        ensures
            room == if self.taken < max {
                max - self.taken
            } else {
                0
            },
    {
        if self.taken < max {
            max - self.taken
        } else {
            0
        }
    }

    /// Adds all values of a header. Returns false if there is no room for another header.
    fn append_all(&mut self, name: &Vec<u8>, values: &Vec<Vec<u8>>) -> (ret: bool)
        requires
            crate::foreign::valid_header_name(name@),
            crate::foreign::lower_case(name@) == name@,
            crate::parse::all_values_ok(crate::parse::views(values@)),
        ensures
            final(self).part == old(self).part,
            final(self).taken == old(self).taken,
            ret ==> final(self).req@ == (RequestView {
                fields: with_all_appended(
                    old(self).req@.fields,
                    name@,
                    crate::parse::views(values@),
                ),
                ..old(self).req@
            }),
            !ret ==> with_all_appended(
                old(self).req@.fields,
                name@,
                crate::parse::views(values@),
            ).len() > crate::foreign::FIELDS_GUARANTEED,
    {
        let ghost all = crate::parse::views(values@);
        let mut i: usize = 0;
        proof {
            assert(all.take(0) =~= Seq::empty());
        }
        while i < values.len()
            invariant
                i <= values@.len(),
                all == crate::parse::views(values@),
                crate::foreign::valid_header_name(name@),
                crate::foreign::lower_case(name@) == name@,
                crate::parse::all_values_ok(all),
                self.part == old(self).part,
                self.taken == old(self).taken,
                self.req@ == (RequestView {
                    fields: with_all_appended(old(self).req@.fields, name@, all.take(i as int)),
                    ..old(self).req@
                }),
            decreases values@.len() - i,
        {
            proof {
                assert(all[i as int] == values@[i as int]@);
                assert(all.take(i + 1).drop_last() =~= all.take(i as int));
                assert(all.take(i + 1).last() == all[i as int]);
            }
            if !self.req.append_header(name.as_slice(), values[i].as_slice()) {
                proof {
                    lemma_fields_grow(old(self).req@.fields, name@, all, i as int);
                }
                return false;
            }
            i = i + 1;
        }
        proof {
            assert(all.take(i as int) =~= all);
        }

        true
    }

    /// Reads all headers.
    fn read_headers(&mut self, buffer: &mut Buffer, line_max: usize, eof: bool) -> (step: ReadStep)
        requires
            old(buffer).wf(),
        ensures
            final(buffer).wf(),
            final(buffer).storage() == old(buffer).storage(),
            if step is Full {
                old(self).over(old(buffer)).headers_read(line_max, eof).0.req.fields.len()
                    > crate::foreign::FIELDS_GUARANTEED
            } else {
                (final(self).over(final(buffer)), step) == old(self).over(
                    old(buffer),
                ).headers_read(line_max, eof)
            },
    {
        let ghost expected = self.over(buffer).headers_read(line_max, eof);
        let capacity: usize = buffer.inner().len();
        loop
            invariant
                buffer.wf(),
                buffer.storage() == old(buffer).storage(),
                capacity == buffer.storage().len(),
                expected == self.over(buffer).headers_read(line_max, eof),
                expected == old(self).over(old(buffer)).headers_read(line_max, eof),
            decreases buffer@.len(),
        {
            let unread: &[u8] = buffer.as_ref();
            let len: usize = unread.len();
            let room: usize = self.room(capacity);
            let last = eof || len >= room;
            if len == 0 {
                return Self::starve(last, "No full request header was send.");
            }
            if unread[0] == CR {
                if len == 1 {
                    return Self::starve(last, "No full request header was send.");
                }
                if unread[1] == NL {
                    if room < 2 {
                        return Self::starve(true, "No full request header was send.");
                    }
                    // We found the ending CRNL.
                    buffer.progress(2);
                    self.taken = self.taken + 2;
                    return ReadStep::Done;
                }
                return ReadStep::Failed(
                    Error::new(
                        ErrorKind::InvalidData,
                        "A header line started with a CR but was not followed by NL.",
                    ),
                );
            }
            let idx: usize = match find_header_end(unread) {
                Err(err) => return ReadStep::Failed(err),
                Ok(None) => return Self::starve(last, "No full request header was send."),
                Ok(Some(idx)) => idx,
            };
            proof {
                crate::parse::law_header_end_in_range(unread@);
            }
            if idx > line_max {
                return ReadStep::Failed(
                    Error::new(ErrorKind::InvalidData, "A header line exceeded the limit."),
                );
            }
            if idx > room {
                return Self::starve(true, "No full request header was send.");
            }
            // The byte behind the header is known, so that the end of the header can be determined
            // again.
            let (name, values): (Vec<u8>, Vec<Vec<u8>>) = match parse_request_header_new(unread) {
                Err(err) => return ReadStep::Failed(err),
                Ok(line) => line,
            };
            proof {
                crate::parse::law_parsed_header_is_valid(unread@);
            }
            // Add the header to the others.
            let ghost head = self.over(buffer);
            let ghost next = HeadView {
                req: RequestView {
                    fields: with_all_appended(
                        head.req.fields,
                        name@,
                        crate::parse::views(values@),
                    ),
                    ..head.req
                },
                ..head.without(idx as int)
            };
            if !self.append_all(&name, &values) {
                proof {
                    lemma_headers_grow(next, line_max, eof);
                }
                return ReadStep::Full;
            }
            buffer.progress(idx);
            self.taken = self.taken + idx;
        }
    }

    /// Reads as much of the head of a request as possible out of a buffer. `eof` tells that the last
    /// attempt to get more bytes gave none. A head which is bigger than the buffer is incomplete. It
    /// is never too full for at most [`crate::foreign::FIELDS_GUARANTEED`] names.
    pub fn advance(&mut self, buffer: &mut Buffer, line_max: usize, eof: bool) -> (step: ReadStep)
        requires
            old(buffer).wf(),
        ensures
            final(buffer).wf(),
            final(buffer).storage() == old(buffer).storage(),
            if step is Full {
                old(self).over(old(buffer)).advanced(line_max, eof).0.req.fields.len()
                    > crate::foreign::FIELDS_GUARANTEED
            } else {
                (final(self).over(final(buffer)), step) == old(self).over(old(buffer)).advanced(
                    line_max,
                    eof,
                )
            },
    {
        let capacity: usize = buffer.inner().len();
        // Read the start line.
        if self.part == HeadPart::StartLine {
            let unread: &[u8] = buffer.as_ref();
            let room: usize = self.room(capacity);
            let last = eof || unread.len() >= room;
            let idx: usize = match find_start_line_end(unread) {
                Err(err) => return ReadStep::Failed(err),
                Ok(None) => return Self::starve(
                    last,
                    "No full request header start line was send.",
                ),
                Ok(Some(idx)) => idx,
            };
            proof {
                crate::parse::law_start_line_end_in_range(unread@);
            }
            if idx > room {
                return Self::starve(true, "No full request header start line was send.");
            }
            // Parse the request basics.
            let line: &[u8] = vstd::slice::slice_subrange(unread, 0, idx);
            proof {
                assert(line@ =~= unread@.take(idx as int));
            }
            let (method, target, version): (Vec<u8>, Vec<u8>, Version) =
                match parse_start_line2(line) {
                Err(err) => return ReadStep::Failed(err),
                Ok(line) => line,
            };
            self.req.method = method;
            self.req.target = target;
            self.req.version = version;
            self.part = HeadPart::FirstHeader;
            buffer.progress(idx);
            self.taken = self.taken + idx;
        }
        // Read some more data if necessary.
        if self.part == HeadPart::FirstHeader {
            if buffer.available_for_read() == 0 {
                return Self::starve(
                    eof || self.room(capacity) == 0,
                    "No request header was send.",
                );
            }
            self.part = HeadPart::Headers;
        }
        // Read all header lines.
        self.read_headers(buffer, line_max, eof)
    }
}

/// It does not matter in which pieces the headers of a request arrive.
proof fn lemma_header_pieces(head: HeadView, bytes: Seq<u8>, line_max: usize, eof: bool)
    requires
        (head.unread + bytes).len() <= usize::MAX,
        head.headers_read(line_max, false).1 is NeedMore,
    ensures
        head.headers_read(line_max, false).0.with(bytes).headers_read(line_max, eof) == head.with(
            bytes,
        ).headers_read(line_max, eof),
        head.headers_read(line_max, false).0.part == head.part,
    decreases head.unread.len(),
{
    let whole = head.unread + bytes;
    if head.unread.len() > 0 && head.unread[0] != CR {
        assert(whole[0] == head.unread[0]);
        if let Ok(Some(idx)) = crate::parse::header_end(head.unread) {
            crate::parse::law_header_end_in_range(head.unread);
            crate::parse::law_header_end_is_stable(head.unread, bytes);
            crate::parse::law_parsed_header_is_stable(head.unread, bytes);
            let (name, values) = crate::parse::parsed_header(head.unread)->Ok_0;
            let next = HeadView {
                req: RequestView {
                    fields: with_all_appended(head.req.fields, name, values),
                    ..head.req
                },
                ..head.without(idx as int)
            };
            assert(whole.skip(idx as int) =~= next.unread + bytes);
            lemma_header_pieces(next, bytes, line_max, eof);
        }
    }
}

/// It does not matter in which pieces the head of a request arrives: waiting for more bytes and then
/// reading gives what reading all bytes at once gives.
pub proof fn law_head_pieces_do_not_matter(
    head: HeadView,
    bytes: Seq<u8>,
    line_max: usize,
    eof: bool,
)
    requires
        (head.unread + bytes).len() <= usize::MAX,
        head.advanced(line_max, false).1 is NeedMore,
    ensures
        head.advanced(line_max, false).0.with(bytes).advanced(line_max, eof) == head.with(
            bytes,
        ).advanced(line_max, eof),
{
    let whole = head.unread + bytes;
    match head.part {
        HeadPart::StartLine => {
            if let Ok(Some(idx)) = crate::parse::start_line_end(head.unread) {
                crate::parse::law_start_line_end_in_range(head.unread);
                crate::parse::law_start_line_end_is_stable(head.unread, bytes);
                assert(whole.take(idx as int) =~= head.unread.take(idx as int));
                assert(whole.skip(idx as int) =~= head.unread.skip(idx as int) + bytes);
                let (method, target, version) = crate::parse::parsed_line(
                    head.unread.take(idx as int),
                )->Ok_0;
                let next = HeadView {
                    part: HeadPart::Headers,
                    req: RequestView { method, target, version, fields: head.req.fields },
                    ..head.without(idx as int)
                };
                if next.unread.len() > 0 {
                    lemma_header_pieces(next, bytes, line_max, eof);
                }
            }
        },
        HeadPart::FirstHeader => {
            let next = HeadView { part: HeadPart::Headers, ..head };
            if next.unread.len() > 0 {
                lemma_header_pieces(next, bytes, line_max, eof);
            }
        },
        HeadPart::Headers => {
            lemma_header_pieces(head, bytes, line_max, eof);
        },
    }
}

/// A header line which is longer than the limit is refused.
pub proof fn law_long_header_line_is_refused(
    head: HeadView,
    line_max: usize,
    eof: bool,
    idx: usize,
)
    requires
        head.part == HeadPart::Headers,
        head.unread.len() > 0,
        head.unread[0] != CR,
        crate::parse::header_end(head.unread) == Ok::<Option<usize>, Error>(Some(idx)),
        idx > line_max,
    ensures
        head.advanced(line_max, eof) == (head, malformed("A header line exceeded the limit.")),
{
}

/// Without more bytes, headers which are incomplete are refused.
proof fn lemma_incomplete_headers(head: HeadView, line_max: usize)
    requires
        head.unread.len() <= usize::MAX,
        head.headers_read(line_max, false).1 is NeedMore,
    ensures
        head.headers_read(line_max, true).1 == starved(true, "No full request header was send."),
    decreases head.unread.len(),
{
    if head.unread.len() > 0 && head.unread[0] != CR {
        if let Ok(Some(idx)) = crate::parse::header_end(head.unread) {
            crate::parse::law_header_end_in_range(head.unread);
            let (name, values) = crate::parse::parsed_header(head.unread)->Ok_0;
            lemma_incomplete_headers(
                HeadView {
                    req: RequestView {
                        fields: with_all_appended(head.req.fields, name, values),
                        ..head.req
                    },
                    ..head.without(idx as int)
                },
                line_max,
            );
        }
    }
}

/// A head which is incomplete is refused where there are no more bytes, be it that the client stopped
/// to send them or that the buffer has no room for them.
pub proof fn law_incomplete_head_is_refused(head: HeadView, line_max: usize)
    requires
        head.unread.len() <= usize::MAX,
        head.advanced(line_max, false).1 is NeedMore,
    ensures
        head.advanced(line_max, true).1 matches ReadStep::Failed(err) && err.kind
            == ErrorKind::UnexpectedEof,
{
    match head.part {
        HeadPart::StartLine => {
            if let Ok(Some(idx)) = crate::parse::start_line_end(head.unread) {
                crate::parse::law_start_line_end_in_range(head.unread);
                let (method, target, version) = crate::parse::parsed_line(
                    head.unread.take(idx as int),
                )->Ok_0;
                let next = HeadView {
                    part: HeadPart::Headers,
                    req: RequestView { method, target, version, fields: head.req.fields },
                    ..head.without(idx as int)
                };
                if next.unread.len() > 0 {
                    lemma_incomplete_headers(next, line_max);
                }
            }
        },
        HeadPart::FirstHeader => {
            if head.unread.len() > 0 {
                lemma_incomplete_headers(HeadView { part: HeadPart::Headers, ..head }, line_max);
            }
        },
        HeadPart::Headers => lemma_incomplete_headers(head, line_max),
    }
}

/// Reading headers takes bytes from the unread ones, up to the limit.
proof fn lemma_headers_are_limited(head: HeadView, line_max: usize, eof: bool)
    requires
        head.unread.len() <= usize::MAX,
    ensures
        ({
            let (next, step) = head.headers_read(line_max, eof);
            &&& next.max == head.max
            &&& head.taken <= next.taken
            &&& next.taken + next.unread.len() == head.taken + head.unread.len()
            &&& step is Done ==> next.taken <= head.max
            &&& step is NeedMore ==> next.taken + next.unread.len() < head.max
        }),
    decreases head.unread.len(),
{
    if head.unread.len() > 0 && head.unread[0] != CR {
        if let Ok(Some(idx)) = crate::parse::header_end(head.unread) {
            crate::parse::law_header_end_in_range(head.unread);
            if idx <= line_max && head.taken + idx <= head.max {
                if let Ok((name, values)) = crate::parse::parsed_header(head.unread) {
                    lemma_headers_are_limited(
                        HeadView {
                            req: RequestView {
                                fields: with_all_appended(head.req.fields, name, values),
                                ..head.req
                            },
                            ..head.without(idx as int)
                        },
                        line_max,
                        eof,
                    );
                }
            }
        }
    }
}

/// The size of a head is limited: no head is accepted which has more than `max` bytes, and none is
/// awaited which can not be completed within `max` bytes. No byte gets lost.
pub proof fn law_head_is_limited(head: HeadView, line_max: usize, eof: bool)
    requires
        head.unread.len() <= usize::MAX,
    ensures
        ({
            let (next, step) = head.advanced(line_max, eof);
            &&& next.max == head.max
            &&& head.taken <= next.taken
            &&& next.taken + next.unread.len() == head.taken + head.unread.len()
            &&& step is Done ==> next.taken <= head.max
            &&& step is NeedMore ==> next.taken + next.unread.len() < head.max
        }),
{
    match head.part {
        HeadPart::StartLine => {
            if let Ok(Some(idx)) = crate::parse::start_line_end(head.unread) {
                crate::parse::law_start_line_end_in_range(head.unread);
                if let Ok((method, target, version)) = crate::parse::parsed_line(
                    head.unread.take(idx as int),
                ) {
                    lemma_headers_are_limited(
                        HeadView {
                            part: HeadPart::Headers,
                            req: RequestView { method, target, version, fields: head.req.fields },
                            ..head.without(idx as int)
                        },
                        line_max,
                        eof,
                    );
                }
            }
        },
        HeadPart::FirstHeader => lemma_headers_are_limited(
            HeadView { part: HeadPart::Headers, ..head },
            line_max,
            eof,
        ),
        HeadPart::Headers => lemma_headers_are_limited(head, line_max, eof),
    }
}

/// The bytes of the head of a HTTP/1.1 request.
pub open spec fn request_bytes(
    method: Seq<u8>,
    target: Seq<u8>,
    lines: crate::foreign::HeaderList,
) -> Seq<u8> {
    method + seq![32u8] + target + seq![32u8] + crate::parse::http_1_1() + crate::response::crnl()
        + crate::response::all_header_lines(lines) + crate::response::crnl()
}

/// Whether a header can be written in a single line without changing its meaning: its name is a
/// token, and its value consists of text and starts with no white space.
pub open spec fn is_plain_header(line: (Seq<u8>, Seq<u8>)) -> bool {
    &&& crate::foreign::valid_header_name(line.0)
    &&& forall|i: int| 0 <= i < line.0.len() ==> crate::parse::is_token(#[trigger] line.0[i])
    &&& line.1.len() > 0
    &&& forall|i: int| 0 <= i < line.1.len() ==> crate::parse::is_text(#[trigger] line.1[i])
    &&& !crate::parse::is_lws(line.1[0])
}

/// A byte which is found at a known place is the first one.
proof fn lemma_next_index_at(s: Seq<u8>, from: int, at: int, p: spec_fn(u8) -> bool)
    requires
        0 <= from <= at < s.len() <= usize::MAX,
        forall|j: int| from <= j < at ==> !p(#[trigger] s[j]),
        p(s[at]),
    ensures
        crate::parse::next_index(s, from, p) == Some(at as usize),
    decreases at - from,
{
    if from < at {
        lemma_next_index_at(s, from + 1, at, p);
    }
}

proof fn lemma_header_end_at(s: Seq<u8>, from: int, at: int)
    requires
        0 <= from <= at,
        at + 2 < s.len() <= usize::MAX,
        forall|j: int| from <= j < at ==> (#[trigger] s[j]) != CR,
        s[at] == CR,
        s[at + 1] == NL,
        !crate::parse::is_lws(s[at + 2]),
    ensures
        crate::parse::header_end_from(s, from) == Ok::<Option<usize>, Error>(
            Some((at + 2) as usize),
        ),
    decreases at - from,
{
    if from < at {
        lemma_header_end_at(s, from + 1, at);
    }
}

/// A header line is read back as it was written.
pub proof fn law_header_line_is_read_back(line: (Seq<u8>, Seq<u8>), tail: Seq<u8>)
    requires
        is_plain_header(line),
        tail.len() > 0,
        !crate::parse::is_lws(tail[0]),
        (crate::response::header_line(line) + tail).len() <= usize::MAX,
    ensures
        crate::parse::header_end(crate::response::header_line(line) + tail) == Ok::<
            Option<usize>,
            Error,
        >(Some(crate::response::header_line(line).len() as usize)),
        crate::parse::parsed_header(crate::response::header_line(line) + tail) == Ok::<
            crate::parse::HeaderLineView,
            Error,
        >((crate::foreign::lower_case(line.0), seq![line.1])),
{
    let (name, value) = line;
    let written = crate::response::header_line(line);
    let s = written + tail;
    let n = name.len() as int;
    let m = value.len() as int;
    assert(written.len() == n + m + 4);
    assert(forall|j: int| 0 <= j < n ==> #[trigger] s[j] == name[j]);
    assert(s[n] == 58 && s[n + 1] == 32);
    assert forall|j: int| n + 2 <= j < n + 2 + m implies #[trigger] s[j] == value[j - n - 2] by {}
    assert(s[n + 2 + m] == CR && s[n + 3 + m] == NL && s[n + 4 + m] == tail[0]);
    assert(crate::parse::is_token(name[0]));
    assert forall|j: int| 1 <= j < n + 2 + m implies (#[trigger] s[j]) != CR by {
        if j < n {
            assert(crate::parse::is_token(name[j]));
        } else if j >= n + 2 {
            assert(crate::parse::is_text(value[j - n - 2]));
        }
    }
    lemma_header_end_at(s, 1, n + 2 + m);
    // The name ends at the colon.
    assert forall|j: int| 0 <= j < n implies crate::parse::is_token(#[trigger] s[j]) by {
        assert(crate::parse::is_token(name[j]));
    }
    lemma_next_index_at(s, 0, n, |b: u8| !crate::parse::is_token(b));
    assert(s.take(n) =~= name);
    // The white space ends at the value.
    let rest = s.skip(n + 1);
    assert(rest[0] == 32 && rest[1] == value[0]);
    assert(crate::parse::is_text(value[0]));
    lemma_next_index_at(rest, 0, 1, |b: u8| !crate::parse::is_lws(b));
    assert(crate::parse::lws_end(rest) == Ok::<Option<usize>, Error>(Some(1)));
    assert(rest.skip(1)[0] == value[0]);
    lemma_next_index_at(rest.skip(1), 0, 0, |b: u8| !crate::parse::is_lws(b));
    assert(crate::parse::multi_lws_end(rest.skip(1)) == Ok::<Option<usize>, Error>(Some(0)));
    assert(crate::parse::multi_lws_end(rest) == Ok::<Option<usize>, Error>(Some(1)));
    // The value ends at the line end.
    let text = s.skip(n + 2);
    assert forall|j: int| 0 <= j < m implies crate::parse::is_text(#[trigger] text[j]) by {
        assert(text[j] == value[j]);
    }
    lemma_next_index_at(text, 0, m, |b: u8| !crate::parse::is_text(b));
    assert(s.subrange(n + 2, n + 2 + m) =~= value);
    let end = s.skip(n + 2 + m);
    assert(end[0] == CR && end[1] == NL && end[2] == tail[0]);
    assert(crate::parse::multi_lws_end(end) == Ok::<Option<usize>, Error>(Some(0)));
    let front = Seq::<Seq<u8>>::empty().push(value);
    assert(crate::parse::values_from(s, n + 2 + m, front) == Ok::<Seq<Seq<u8>>, Error>(front));
    assert(s[n + 2] == value[0]);
    assert(crate::parse::values_from(s, n + 2, Seq::empty()) == Ok::<Seq<Seq<u8>>, Error>(front));
    assert(front =~= seq![value]);
}

/// The fields with some more headers.
pub open spec fn with_lines(
    fields: Seq<crate::foreign::Field>,
    lines: crate::foreign::HeaderList,
) -> Seq<crate::foreign::Field>
    decreases lines.len(),
{
    if lines.len() == 0 {
        fields
    } else {
        with_lines(
            crate::foreign::with_appended(
                fields,
                crate::foreign::lower_case(lines[0].0),
                lines[0].1,
            ),
            lines.skip(1),
        )
    }
}

/// The lines of some headers start with the first one.
proof fn lemma_first_header_line(lines: crate::foreign::HeaderList)
    requires
        lines.len() > 0,
    ensures
        crate::response::all_header_lines(lines) == crate::response::header_line(lines[0])
            + crate::response::all_header_lines(lines.skip(1)),
    decreases lines.len(),
{
    let front = lines.drop_last();
    if front.len() > 0 {
        lemma_first_header_line(front);
        assert(lines.skip(1).drop_last() =~= front.skip(1));
        assert(lines.skip(1).last() == lines.last());
        assert(crate::response::all_header_lines(lines) =~= crate::response::header_line(lines[0])
            + crate::response::all_header_lines(lines.skip(1)));
    } else {
        assert(front =~= Seq::empty());
        assert(lines.skip(1) =~= Seq::empty());
        assert(crate::response::all_header_lines(lines) =~= crate::response::header_line(lines[0])
            + crate::response::all_header_lines(lines.skip(1)));
    }
}

/// One header line is read, and the others are left.
proof fn lemma_one_header_read(
    head: HeadView,
    line: (Seq<u8>, Seq<u8>),
    rest: Seq<u8>,
    line_max: usize,
    eof: bool,
)
    requires
        is_plain_header(line),
        crate::response::header_line(line).len() <= line_max,
        head.unread == crate::response::header_line(line) + rest,
        head.taken + crate::response::header_line(line).len() <= head.max,
        head.unread.len() <= usize::MAX,
        rest.len() > 0,
        !crate::parse::is_lws(rest[0]),
    ensures
        head.headers_read(line_max, eof) == (HeadView {
            req: RequestView {
                fields: crate::foreign::with_appended(
                    head.req.fields,
                    crate::foreign::lower_case(line.0),
                    line.1,
                ),
                ..head.req
            },
            unread: rest,
            taken: head.taken + crate::response::header_line(line).len(),
            ..head
        }).headers_read(line_max, eof),
{
    let first = crate::response::header_line(line);
    assert(crate::parse::is_token(line.0[0]));
    assert(head.unread[0] == line.0[0]);
    law_header_line_is_read_back(line, rest);
    let name = crate::foreign::lower_case(line.0);
    let values = seq![line.1];
    assert(values.drop_last() =~= Seq::empty());
    assert(with_all_appended(head.req.fields, name, values.drop_last()) == head.req.fields);
    assert(with_all_appended(head.req.fields, name, values) == crate::foreign::with_appended(
        head.req.fields,
        name,
        line.1,
    ));
    assert(head.unread.skip(first.len() as int) =~= rest);
}

/// The lines of some headers and the empty line behind them do not start with white space.
proof fn lemma_lines_start(lines: crate::foreign::HeaderList, tail: Seq<u8>)
    requires
        lines.len() > 0 ==> is_plain_header(lines[0]),
    ensures
        ({
            let rest = crate::response::all_header_lines(lines) + crate::response::crnl() + tail;
            rest.len() > 0 && !crate::parse::is_lws(rest[0])
        }),
{
    let rest = crate::response::all_header_lines(lines) + crate::response::crnl() + tail;
    if lines.len() == 0 {
        assert(crate::response::all_header_lines(lines) =~= Seq::empty());
        assert(rest[0] == CR);
    } else {
        lemma_first_header_line(lines);
        assert(crate::parse::is_token(lines[0].0[0]));
        assert(rest[0] == lines[0].0[0]);
    }
}

/// Headers are read back as they were written, in order.
proof fn lemma_headers_read_back(
    head: HeadView,
    lines: crate::foreign::HeaderList,
    tail: Seq<u8>,
    line_max: usize,
    eof: bool,
)
    requires
        forall|i: int| 0 <= i < lines.len() ==> is_plain_header(#[trigger] lines[i]),
        forall|i: int|
            0 <= i < lines.len() ==> crate::response::header_line(#[trigger] lines[i]).len()
                <= line_max,
        head.unread == crate::response::all_header_lines(lines) + crate::response::crnl() + tail,
        head.taken + crate::response::all_header_lines(lines).len() + 2 <= head.max,
        head.unread.len() <= usize::MAX,
    ensures
        head.headers_read(line_max, eof) == (
            HeadView {
                req: RequestView {
                    fields: with_lines(head.req.fields, lines),
                    ..head.req
                },
                unread: tail,
                taken: head.taken + crate::response::all_header_lines(lines).len() + 2,
                ..head
            },
            ReadStep::Done,
        ),
    decreases lines.len(),
{
    if lines.len() == 0 {
        assert(crate::response::all_header_lines(lines) =~= Seq::empty());
        assert(head.unread =~= crate::response::crnl() + tail);
        assert(head.unread[0] == CR && head.unread[1] == NL);
        assert(head.unread.skip(2) =~= tail);
    } else {
        let first = crate::response::header_line(lines[0]);
        let others = lines.skip(1);
        let rest = crate::response::all_header_lines(others) + crate::response::crnl() + tail;
        lemma_first_header_line(lines);
        assert(head.unread =~= first + rest);
        assert(is_plain_header(lines[0]));
        if others.len() > 0 {
            assert(others[0] == lines[1]);
        }
        lemma_lines_start(others, tail);
        lemma_one_header_read(head, lines[0], rest, line_max, eof);
        let next = HeadView {
            req: RequestView {
                fields: crate::foreign::with_appended(
                    head.req.fields,
                    crate::foreign::lower_case(lines[0].0),
                    lines[0].1,
                ),
                ..head.req
            },
            unread: rest,
            taken: head.taken + first.len(),
            ..head
        };
        assert forall|i: int| 0 <= i < others.len() implies is_plain_header(
            #[trigger] others[i],
        ) by {
            assert(others[i] == lines[i + 1]);
        }
        assert forall|i: int| 0 <= i < others.len() implies crate::response::header_line(
            #[trigger] others[i],
        ).len() <= line_max by {
            assert(others[i] == lines[i + 1]);
        }
        lemma_headers_read_back(next, others, tail, line_max, eof);
    }
}

/// A request is read back as it was written, unless it is too big: its method, its target and its
/// headers in order. What follows the empty line is left for the body.
#[verifier::rlimit(30)]
pub proof fn law_request_is_read_back(
    method: Seq<u8>,
    target: Seq<u8>,
    lines: crate::foreign::HeaderList,
    tail: Seq<u8>,
    line_max: usize,
    eof: bool,
    req: RequestView,
    max: int,
)
    requires
        crate::foreign::valid_method(method),
        crate::foreign::path_of_uri(target) is Some,
        forall|i: int| 0 <= i < target.len() ==> (#[trigger] target[i]) != 32 && target[i] != CR,
        forall|i: int| 0 <= i < lines.len() ==> is_plain_header(#[trigger] lines[i]),
        forall|i: int|
            0 <= i < lines.len() ==> crate::response::header_line(#[trigger] lines[i]).len()
                <= line_max,
        (request_bytes(method, target, lines) + tail).len() <= usize::MAX,
        request_bytes(method, target, lines).len() <= max,
        req.fields.len() == 0,
    ensures
        (HeadView {
            part: HeadPart::StartLine,
            req,
            unread: request_bytes(method, target, lines) + tail,
            taken: 0,
            max,
        }).advanced(line_max, eof) == (
            HeadView {
                part: HeadPart::Headers,
                req: RequestView {
                    method,
                    target,
                    version: Version::Http11,
                    fields: with_lines(Seq::empty(), lines),
                },
                unread: tail,
                taken: request_bytes(method, target, lines).len() as int,
                max,
            },
            ReadStep::Done,
        ),
{
    let version = crate::parse::http_1_1();
    let s = request_bytes(method, target, lines) + tail;
    let a = method.len() as int;
    let b = target.len() as int;
    let end = a + b + 10;
    let line = method + seq![32u8] + target + seq![32u8] + version + crate::response::crnl();
    let rest = crate::response::all_header_lines(lines) + crate::response::crnl() + tail;
    assert(version.len() == 8);
    assert(line.len() == end + 2);
    assert(s =~= line + rest);
    assert forall|j: int| 0 <= j < a implies (#[trigger] line[j]) != 32 && line[j] != CR by {
        assert(crate::foreign::is_method_char(method[j]));
        assert(line[j] == method[j]);
    }
    assert(line[a] == 32);
    assert forall|j: int| a < j <= a + b implies (#[trigger] line[j]) != 32 && line[j] != CR by {
        assert(line[j] == target[j - a - 1]);
    }
    assert(line[a + 1 + b] == 32);
    assert forall|j: int| a + b + 2 <= j < end implies (#[trigger] line[j]) != CR by {
        assert(line[j] == version[j - a - b - 2]);
    }
    assert(line[end] == CR && line[end + 1] == NL);
    // The start line is found.
    assert forall|j: int| 0 <= j < end implies (#[trigger] s[j]) != CR by {
        assert(s[j] == line[j]);
        if j == a || j == a + 1 + b {
        } else if j < a {
        } else if j <= a + b {
        } else {
        }
    }
    assert(s[end] == CR && s[end + 1] == NL);
    lemma_next_index_at(s, 0, end, |b: u8| b == CR);
    assert(crate::parse::start_line_end(s) == Ok::<Option<usize>, Error>(
        Some((end + 2) as usize),
    ));
    assert(s.take(end + 2) =~= line);
    assert(s.skip(end + 2) =~= rest);
    // The start line is split.
    lemma_next_index_at(line, 0, a, |b: u8| b == 32);
    assert(line.take(a) =~= method);
    let behind = line.skip(a + 1);
    assert forall|j: int| 0 <= j < b implies (#[trigger] behind[j]) != 32 by {
        assert(behind[j] == line[a + 1 + j]);
    }
    assert(behind[b] == line[a + 1 + b]);
    lemma_next_index_at(behind, 0, b, |b: u8| b == 32);
    assert(line.subrange(a + 1, a + 1 + b) =~= target);
    assert(line.subrange(a + 1 + b + 1, line.len() - 2) =~= version);
    assert(method.len() > 0);
    assert(crate::parse::split_line(line) == Ok::<crate::parse::StartLineView, Error>(
        (method, target, crate::parse::named_version(version)),
    ));
    assert(crate::parse::named_version(version) == Version::Http11);
    // The headers are read.
    let head = HeadView {
        part: HeadPart::Headers,
        req: RequestView { method, target, version: Version::Http11, fields: req.fields },
        unread: rest,
        taken: end + 2,
        max,
    };
    assert(rest.len() > 0);
    assert(req.fields =~= Seq::empty());
    lemma_headers_read_back(head, lines, tail, line_max, eof);
}

/// All parts of a header value are kept, in order, behind those which are already there, and the
/// other headers are left as they are.
pub proof fn law_all_values_are_kept(
    fields: Seq<crate::foreign::Field>,
    name: Seq<u8>,
    values: Seq<Seq<u8>>,
    other: Seq<u8>,
)
    ensures
        crate::foreign::field_values(with_all_appended(fields, name, values), other) == if other
            == name {
            crate::foreign::field_values(fields, name) + values
        } else {
            crate::foreign::field_values(fields, other)
        },
    decreases values.len(),
{
    if values.len() == 0 {
        assert(crate::foreign::field_values(fields, name) + values
            =~= crate::foreign::field_values(fields, name));
    } else {
        let front = values.drop_last();
        law_all_values_are_kept(fields, name, front, other);
        law_all_values_are_kept(fields, name, front, name);
        crate::message::law_append_then_get(
            with_all_appended(fields, name, front),
            name,
            values.last(),
            other,
        );
        let before = crate::foreign::field_values(fields, name);
        assert((before + front).push(values.last()) =~= before + values);
    }
}

/// All headers of a list are kept: each name has the values which it had before and those which it
/// has in the list, in order.
#[verifier::spinoff_prover]
#[verifier::rlimit(30)]
pub proof fn law_all_lines_are_kept(
    fields: Seq<crate::foreign::Field>,
    lines: crate::foreign::HeaderList,
    name: Seq<u8>,
)
    requires
        forall|i: int|
            0 <= i < lines.len() ==> crate::foreign::valid_header_name((#[trigger] lines[i]).0),
    ensures
        crate::foreign::field_values(with_lines(fields, lines), name)
            == crate::foreign::field_values(fields, name) + crate::http2::headers::named_values(
            lines,
            name,
        ),
    decreases lines.len(),
{
    if lines.len() == 0 {
        assert(crate::foreign::field_values(fields, name) + Seq::<Seq<u8>>::empty()
            =~= crate::foreign::field_values(fields, name));
    } else {
        let key = crate::foreign::lower_case(lines[0].0);
        let value = lines[0].1;
        let others = lines.skip(1);
        assert forall|i: int| 0 <= i < others.len() implies crate::foreign::valid_header_name(
            (#[trigger] others[i]).0,
        ) by {
            assert(others[i] == lines[i + 1]);
        }
        law_all_lines_are_kept(crate::foreign::with_appended(fields, key, value), others, name);
        crate::message::law_append_then_get(fields, key, value, name);
        assert(crate::foreign::is_header_name_char(lines[0].0[0]));
        let first = seq![lines[0]];
        assert(first.drop_last() =~= Seq::empty());
        assert(first.last() == lines[0]);
        assert(crate::http2::headers::named_values(first.drop_last(), name) =~= Seq::empty());
        assert(crate::http2::headers::named_values(first, name) =~= if key == name {
            seq![value]
        } else {
            Seq::empty()
        });
        crate::http2::headers::lemma_named_values_join(first, others, name);
        assert(first + others =~= lines);
        let before = crate::foreign::field_values(fields, name);
        let behind = crate::http2::headers::named_values(others, name);
        assert(before.push(value) + behind =~= before + (seq![value] + behind));
        assert(before + (Seq::<Seq<u8>>::empty() + behind) =~= before + behind);
    }
}

/// Reading headers leaves the start line as it is and loses no value.
#[verifier::spinoff_prover]
#[verifier::rlimit(30)]
proof fn lemma_headers_are_added(head: HeadView, line_max: usize, eof: bool, name: Seq<u8>)
    requires
        head.unread.len() <= usize::MAX,
    ensures
        ({
            let next = head.headers_read(line_max, eof).0;
            &&& next.req.method == head.req.method
            &&& next.req.target == head.req.target
            &&& next.req.version == head.req.version
            &&& crate::foreign::field_values(head.req.fields, name).is_prefix_of(
                crate::foreign::field_values(next.req.fields, name),
            )
        }),
    decreases head.unread.len(),
{
    let before = crate::foreign::field_values(head.req.fields, name);
    if head.unread.len() > 0 && head.unread[0] != CR {
        if let Ok(Some(idx)) = crate::parse::header_end(head.unread) {
            crate::parse::law_header_end_in_range(head.unread);
            if idx <= line_max && head.taken + idx <= head.max {
                if let Ok((key, values)) = crate::parse::parsed_header(head.unread) {
                    let next = HeadView {
                        req: RequestView {
                            fields: with_all_appended(head.req.fields, key, values),
                            ..head.req
                        },
                        ..head.without(idx as int)
                    };
                    lemma_headers_are_added(next, line_max, eof, name);
                    law_all_values_are_kept(head.req.fields, key, values, name);
                    let after = crate::foreign::field_values(next.req.fields, name);
                    let last = crate::foreign::field_values(
                        head.headers_read(line_max, eof).0.req.fields,
                        name,
                    );
                    assert(after.take(before.len() as int) =~= before);
                    assert(after =~= last.take(after.len() as int));
                    assert(last.take(before.len() as int) =~= before);
                }
            }
        }
    }
}

/// The request is what its head says: the start line gives its method, its target and its version,
/// no header changes them, and no header which was read is lost.
#[verifier::spinoff_prover]
#[verifier::rlimit(30)]
pub proof fn law_start_line_is_kept(head: HeadView, line_max: usize, eof: bool, name: Seq<u8>)
    requires
        head.unread.len() <= usize::MAX,
    ensures
        ({
            let (next, step) = head.advanced(line_max, eof);
            &&& head.part != HeadPart::StartLine ==> next.req.method == head.req.method
                && next.req.target == head.req.target && next.req.version == head.req.version
            &&& head.part == HeadPart::StartLine && next.part != HeadPart::StartLine ==> (
            crate::parse::start_line_end(head.unread) matches Ok(Some(idx))
                && crate::parse::parsed_line(head.unread.take(idx as int)) == Ok::<
                crate::parse::StartLineView,
                Error,
            >((next.req.method, next.req.target, next.req.version)))
            &&& crate::foreign::field_values(head.req.fields, name).is_prefix_of(
                crate::foreign::field_values(next.req.fields, name),
            )
            &&& step is Done ==> next.part == HeadPart::Headers
        }),
{
    match head.part {
        HeadPart::StartLine => {
            if let Ok(Some(idx)) = crate::parse::start_line_end(head.unread) {
                crate::parse::law_start_line_end_in_range(head.unread);
                if let Ok((method, target, version)) = crate::parse::parsed_line(
                    head.unread.take(idx as int),
                ) {
                    let next = HeadView {
                        part: HeadPart::Headers,
                        req: RequestView { method, target, version, fields: head.req.fields },
                        ..head.without(idx as int)
                    };
                    lemma_headers_are_added(next, line_max, eof, name);
                    lemma_part_is_kept(next, line_max, eof);
                }
            }
        },
        HeadPart::FirstHeader => {
            let next = HeadView { part: HeadPart::Headers, ..head };
            lemma_headers_are_added(next, line_max, eof, name);
            lemma_part_is_kept(next, line_max, eof);
        },
        HeadPart::Headers => {
            lemma_headers_are_added(head, line_max, eof, name);
            lemma_part_is_kept(head, line_max, eof);
        },
    }
}

proof fn lemma_part_is_kept(head: HeadView, line_max: usize, eof: bool)
    requires
        head.unread.len() <= usize::MAX,
    ensures
        head.headers_read(line_max, eof).0.part == head.part,
    decreases head.unread.len(),
{
    if head.unread.len() > 0 && head.unread[0] != CR {
        if let Ok(Some(idx)) = crate::parse::header_end(head.unread) {
            crate::parse::law_header_end_in_range(head.unread);
            if idx <= line_max && head.taken + idx <= head.max {
                if let Ok((key, values)) = crate::parse::parsed_header(head.unread) {
                    lemma_part_is_kept(
                        HeadView {
                            req: RequestView {
                                fields: with_all_appended(head.req.fields, key, values),
                                ..head.req
                            },
                            ..head.without(idx as int)
                        },
                        line_max,
                        eof,
                    );
                }
            }
        }
    }
}

/// A request which is read back has exactly the headers which were written: each name has the
/// values of all lines with this name, in order.
pub proof fn law_headers_of_request_are_read_back(
    method: Seq<u8>,
    target: Seq<u8>,
    lines: crate::foreign::HeaderList,
    tail: Seq<u8>,
    line_max: usize,
    eof: bool,
    req: RequestView,
    max: int,
    name: Seq<u8>,
)
    requires
        crate::foreign::valid_method(method),
        crate::foreign::path_of_uri(target) is Some,
        forall|i: int| 0 <= i < target.len() ==> (#[trigger] target[i]) != 32 && target[i] != CR,
        forall|i: int| 0 <= i < lines.len() ==> is_plain_header(#[trigger] lines[i]),
        forall|i: int|
            0 <= i < lines.len() ==> crate::response::header_line(#[trigger] lines[i]).len()
                <= line_max,
        (request_bytes(method, target, lines) + tail).len() <= usize::MAX,
        request_bytes(method, target, lines).len() <= max,
        req.fields.len() == 0,
    ensures
        ({
            let (next, step) = (HeadView {
                part: HeadPart::StartLine,
                req,
                unread: request_bytes(method, target, lines) + tail,
                taken: 0,
                max,
            }).advanced(line_max, eof);
            &&& step is Done
            &&& next.unread == tail
            &&& next.req.method == method
            &&& next.req.target == target
            &&& next.req.version == Version::Http11
            &&& crate::foreign::field_values(next.req.fields, name)
                == crate::http2::headers::named_values(lines, name)
        }),
{
    law_request_is_read_back(method, target, lines, tail, line_max, eof, req, max);
    assert forall|i: int| 0 <= i < lines.len() implies crate::foreign::valid_header_name(
        (#[trigger] lines[i]).0,
    ) by {
        assert(is_plain_header(lines[i]));
    }
    law_all_lines_are_kept(Seq::empty(), lines, name);
    assert(Seq::<Seq<u8>>::empty() + crate::http2::headers::named_values(lines, name)
        =~= crate::http2::headers::named_values(lines, name));
}

/// A header whose value is folded into several lines is read as a whole: its name has the values
/// which it had before and all parts of the value, in order, and all other names have what they had.
#[verifier::spinoff_prover]
#[verifier::rlimit(50)]
pub proof fn law_folded_header_is_kept(
    head: HeadView,
    name: Seq<u8>,
    values: Seq<Seq<u8>>,
    tail: Seq<u8>,
    line_max: usize,
    eof: bool,
    other: Seq<u8>,
)
    requires
        head.part == HeadPart::Headers,
        crate::foreign::valid_header_name(name),
        forall|i: int| 0 <= i < name.len() ==> crate::parse::is_token(#[trigger] name[i]),
        values.len() > 0,
        forall|i: int| 0 <= i < values.len() ==> crate::parse::is_plain_value(#[trigger] values[i]),
        head.unread == name + seq![58u8, 32u8] + crate::parse::folded(values) + seq![13u8, 10u8]
            + tail,
        head.unread.len() <= usize::MAX,
        head.unread.len() - tail.len() <= line_max + 2,
        head.taken + head.unread.len() - tail.len() <= head.max,
    ensures
        ({
            let (next, step) = head.advanced(line_max, eof);
            &&& step is Done
            &&& next.unread == tail
            &&& crate::foreign::field_values(next.req.fields, other) == if other
                == crate::foreign::lower_case(name) {
                crate::foreign::field_values(head.req.fields, other) + values
            } else {
                crate::foreign::field_values(head.req.fields, other)
            }
        }),
{
    let written = name + seq![58u8, 32u8] + crate::parse::folded(values);
    let end = seq![13u8, 10u8] + tail;
    let key = crate::foreign::lower_case(name);
    assert(head.unread =~= written + end);
    assert(crate::parse::is_token(name[0]));
    assert(head.unread[0] == name[0]);
    crate::parse::law_folded_header_is_read_back(name, values, end);
    assert(head.unread.skip(written.len() as int) =~= end);
    let next = HeadView {
        req: RequestView {
            fields: with_all_appended(head.req.fields, key, values),
            ..head.req
        },
        ..head.without(written.len() as int)
    };
    assert(next.unread =~= end);
    assert(next.unread[0] == CR && next.unread[1] == NL);
    assert(next.unread.skip(2) =~= tail);
    assert(next.headers_read(line_max, eof) == (next.without(2), ReadStep::Done));
    assert(written.len() == head.unread.len() - tail.len() - 2);
    assert(head.headers_read(line_max, eof) == next.headers_read(line_max, eof));
    law_all_values_are_kept(head.req.fields, key, values, other);
}

/// The head of a response starts with its version, its status as a decimal number and its reason,
/// if there is one. Behind the status line, its headers are read back like those of a request: each
/// name has exactly the values which it has in the response, in order, and an empty line ends them.
#[verifier::spinoff_prover]
#[verifier::rlimit(30)]
pub proof fn law_response_head_is_read_back(
    resp: ResponseView,
    reason: Option<Seq<char>>,
    tail: Seq<u8>,
    line_max: usize,
    eof: bool,
    req: RequestView,
    max: int,
    name: Seq<u8>,
)
    requires
        crate::http2::headers::plain_fields(resp.fields),
        forall|i: int|
            0 <= i < crate::foreign::field_lines(resp.fields).len() ==> is_plain_header(
                #[trigger] crate::foreign::field_lines(resp.fields)[i],
            ) && crate::response::header_line(crate::foreign::field_lines(resp.fields)[i]).len()
                <= line_max,
        (resp.head(reason) + tail).len() <= usize::MAX,
        resp.head(reason).len() <= max,
        req.fields.len() == 0,
    ensures
        ({
            let head = resp.head(reason);
            let digits = crate::number::decimal_text(resp.status as nat);
            let words = match reason {
                Some(reason) => crate::text::ascii(reason),
                None => Seq::empty(),
            };
            let line = resp.version.name() + seq![32u8] + digits + seq![32u8] + words + seq![
                13u8,
                10u8,
            ];
            let (next, step) = (HeadView {
                part: HeadPart::Headers,
                req,
                unread: head.skip(line.len() as int) + tail,
                taken: 0,
                max,
            }).advanced(line_max, eof);
            &&& line.is_prefix_of(head)
            &&& crate::number::parsed_u64(digits) == Some(resp.status as u64)
            &&& step is Done
            &&& next.unread == tail
            &&& crate::foreign::field_values(next.req.fields, name)
                == crate::foreign::field_values(resp.fields, name)
        }),
{
    let head = resp.head(reason);
    let lines = crate::foreign::field_lines(resp.fields);
    let line = crate::response::status_line(resp.version, resp.status, reason);
    let rest = crate::response::all_header_lines(lines) + crate::response::crnl();
    crate::number::law_decimal_round_trip(resp.status as u64);
    assert(head =~= line + rest);
    assert(head.take(line.len() as int) =~= line);
    assert(head.skip(line.len() as int) =~= rest);
    assert forall|i: int| 0 <= i < lines.len() implies is_plain_header(#[trigger] lines[i])
        && crate::response::header_line(lines[i]).len() <= line_max by {}
    assert forall|i: int| 0 <= i < lines.len() implies crate::foreign::valid_header_name(
        (#[trigger] lines[i]).0,
    ) by {
        assert(is_plain_header(lines[i]));
    }
    let reader = HeadView {
        part: HeadPart::Headers,
        req,
        unread: rest + tail,
        taken: 0,
        max,
    };
    assert(reader.unread =~= crate::response::all_header_lines(lines) + crate::response::crnl()
        + tail);
    lemma_headers_read_back(reader, lines, tail, line_max, eof);
    assert(req.fields =~= Seq::empty());
    law_all_lines_are_kept(req.fields, lines, name);
    crate::http2::headers::lemma_values_of_lines(resp.fields, name);
    assert(Seq::<Seq<u8>>::empty() + crate::http2::headers::named_values(lines, name)
        =~= crate::http2::headers::named_values(lines, name));
}

/// How an attempt to read some bytes ended.
#[derive(Debug, Clone, Copy)]
pub enum ReadOutcome {
    /// The given number of bytes is now in the buffer of the connection.
    Read(usize),
    /// Reading failed.
    Failed(Error),
    /// There was nothing to read in time.
    TimedOut,
}

/// How a request is answered.
#[derive(Debug)]
pub enum Reply {
    /// With the response of the handler.
    Handler,
    /// With this response. The last value tells whether the connection is closed behind it.
    Error(Response, bool),
    /// Not at all. The connection is closed.
    Nothing,
}

/// The state of an HTTP/1 connection.
#[derive(Debug)]
pub struct Connection {
    pub config: Config,
    /// The bytes which were received but do not belong to a request which was read already.
    pub buffer: Buffer,
    /// Whether there was no request yet.
    pub first_request: bool,
    /// Whether the client waits for permission to send the body of its request.
    pub expects_continue: bool,
}

/// The buffer of `from` after its first `n` bytes were moved to the buffer of `to`.
pub open spec fn moved(from: Seq<u8>, to: Seq<u8>, n: int) -> (Seq<u8>, Seq<u8>) {
    (from.skip(n), to + from.take(n))
}

impl Connection {
    /// The buffer is intact.
    pub open spec fn wf(&self) -> bool {
        self.buffer.wf()
    }

    /// A new connection. An old buffer is used again, if there is one.
    pub fn new(config: Config, recycled: Option<Buffer>) -> (conn: Self)
        ensures
            conn.wf(),
            conn.config == config,
            conn.buffer@.len() == 0,
            conn.buffer.storage().len() == config.request_header_buf_size,
            conn.first_request,
            !conn.expects_continue,
    {
        let buffer: Buffer = match recycled {
            Some(mut buffer) => {
                buffer.set_capacity(config.request_header_buf_size);

                buffer
            },
            None => Buffer::with_capacity(config.request_header_buf_size),
        };

        Connection { config, buffer, first_request: true, expects_continue: false }
    }

    /// How long to wait for the next request, or `None` if its begin is already there.
    pub fn peek_request(&mut self) -> (timeout: Option<Nanos>)
        requires
            old(self).wf(),
        ensures
            timeout == if old(self).buffer@.len() > 0 {
                None
            } else if old(self).first_request {
                Some(old(self).config.first_request_timeout)
            } else {
                Some(old(self).config.idle_timeout)
            },
            *final(self) == (Connection {
                first_request: old(self).first_request && old(self).buffer@.len() > 0,
                ..*old(self)
            }),
    {
        if self.buffer.available_for_read() > 0 {
            // There is already an overhead from the last request belonging to the next (current)
            // request.
            return None;
        }
        if self.first_request {
            self.first_request = false;

            Some(self.config.first_request_timeout)
        } else {
            Some(self.config.idle_timeout)
        }
    }

    /// Notes what is known of the body of a request which was read.
    pub fn begin_request(&mut self, req: &Request)
        ensures
            *final(self) == (Connection {
                expects_continue: crate::message::header_text(
                    req@.fields,
                    crate::text::ascii("expect"@),
                ) == Some("100-continue"@),
                ..*old(self)
            }),
    {
        self.expects_continue = req.expects_continue();
    }

    /// An empty buffer for the body of a request. Old memory is used again, if there is some.
    pub fn body_buffer(&self, recycled: Option<Vec<u8>>) -> (buffer: Buffer)
        ensures
            buffer.wf(),
            buffer@.len() == 0,
            buffer.storage().len() == match recycled {
                Some(memory) => memory@.len(),
                None => self.config.request_body_buf_size as nat,
            },
    {
        match recycled {
            Some(memory) => {
                let mut buffer: Buffer = Buffer::from(memory);
                buffer.reset();

                buffer
            },
            None => Buffer::with_capacity(self.config.request_body_buf_size),
        }
    }

    /// Finds out how a request is answered.
    ///
    /// All requests are answered by the handler, and an error of the handler is an answer too: it has
    /// the status of the error and no body. Whether the connection stays open behind it is up to the
    /// handler, which decides that by the close flag of the error: the error of
    /// [`Request::get_range`] for instance has the flag disabled, since the rest of the request was
    /// understood and the next one can be read. A handler which gave no answer at all, because it did
    /// not return in time or paniced, leaves nothing to be sent, and the connection is closed.
    pub fn reply(outcome: HandlerOutcome) -> (reply: Reply)
        ensures
            match outcome {
                HandlerOutcome::Answered => reply is Handler,
                HandlerOutcome::Failed(err) => {
                    &&& reply matches Reply::Error(resp, close)
                    &&& resp@ == (ResponseView {
                        status: err.status,
                        version: Version::Http11,
                        fields: Seq::empty(),
                    }).with_header("content-length"@, crate::text::ascii("0"@))
                    &&& close == err.close
                },
                HandlerOutcome::TimedOut => reply is Nothing,
                HandlerOutcome::Panicked => reply is Nothing,
            },
    {
        match outcome {
            HandlerOutcome::Answered => Reply::Handler,
            HandlerOutcome::Failed(err) => Reply::Error(
                Response::without_body(err.status),
                err.close,
            ),
            HandlerOutcome::TimedOut => Reply::Nothing,
            HandlerOutcome::Panicked => Reply::Nothing,
        }
    }

    /// Begins to fill the buffer of a request body with up to `amount` bytes. Returns how many bytes
    /// there is room for.
    pub fn begin_body_read(body: &mut Buffer, amount: usize) -> (ret: usize)
        requires
            old(body).wf(),
        ensures
            final(body).wf(),
            final(body)@ == old(body)@,
            final(body).storage().len() == old(body).storage().len(),
            ret == crate::buffer::min(amount as int, old(body).room()),
    {
        body.rotate_buffer();

        min_len(amount, body.available_for_write())
    }

    /// The interim response which has to be written before the body is read, if any. It is written
    /// at most once for each request.
    pub fn take_continue(&mut self, version: Version) -> (bytes: Option<Vec<u8>>)
        ensures
            *final(self) == (Connection { expects_continue: false, ..*old(self) }),
            match bytes {
                Some(bytes) => old(self).expects_continue && bytes@
                    == crate::response::status_line(version, 100, Some("Continue"@))
                    + crate::response::crnl(),
                None => !old(self).expects_continue,
            },
    {
        if self.expects_continue {
            self.expects_continue = false;

            return Some(crate::response::continue_response(version));
        }

        None
    }

    /// Moves the next bytes of the connection to a body, at most as many as there is room for.
    fn move_bytes(&mut self, body: &mut Buffer, amount: usize) -> (n: usize)
        requires
            old(self).wf(),
            old(body).wf(),
            amount <= old(body).room(),
        ensures
            final(self).wf(),
            final(body).wf(),
            n == crate::buffer::min(amount as int, old(self).buffer@.len() as int),
            (final(self).buffer@, final(body)@) == moved(
                old(self).buffer@,
                old(body)@,
                n as int,
            ),
            final(self).buffer.storage() == old(self).buffer.storage(),
            final(body).storage().len() == old(body).storage().len(),
            final(self).config == old(self).config,
            final(self).first_request == old(self).first_request,
            final(self).expects_continue == old(self).expects_continue,
    {
        let _capacity: usize = self.buffer.inner().len();
        let n: usize = min_len(amount, self.buffer.available_for_read());
        let data: &[u8] = vstd::slice::slice_subrange(self.buffer.as_ref(), 0, n);
        proof {
            assert(data@ =~= self.buffer@.take(n as int));
            assert(data@.take(n as int) =~= data@);
        }
        let _written: usize = body.write(data);
        self.buffer.progress(n);

        n
    }

    /// Fills a body with bytes which are there already. Returns how many bytes are left to be read,
    /// or `None` if the body got enough.
    pub fn serve_buffered(&mut self, body: &mut Buffer, amount: usize) -> (left: Option<usize>)
        requires
            old(self).wf(),
            old(body).wf(),
            amount <= old(body).room(),
        ensures
            final(self).wf(),
            final(body).wf(),
            ({
                let available = old(self).buffer@.len() as int;
                let n = crate::buffer::min(amount as int, available);
                &&& (final(self).buffer@, final(body)@) == moved(
                    old(self).buffer@,
                    old(body)@,
                    n,
                )
                &&& left == if available > 0 && available >= amount {
                    None
                } else {
                    Some((amount - n) as usize)
                }
            }),
            final(self).buffer.storage() == old(self).buffer.storage(),
            final(body).storage().len() == old(body).storage().len(),
            final(self).config == old(self).config,
            final(self).first_request == old(self).first_request,
            final(self).expects_continue == old(self).expects_continue,
    {
        let available: usize = self.buffer.available_for_read();
        let n: usize = self.move_bytes(body, amount);
        if available > 0 && available >= amount {
            return None;
        }

        Some(amount - n)
    }

    /// Fills a body after an attempt to read more bytes into the buffer of the connection. An error
    /// is passed on to the handler, and ends the connection.
    pub fn serve_after_read(
        &mut self,
        body: &mut Buffer,
        amount: usize,
        outcome: ReadOutcome,
    ) -> (ret: Result<()>)
        requires
            old(self).wf(),
            old(body).wf(),
            amount <= old(body).room(),
        ensures
            final(self).wf(),
            final(body).wf(),
            match outcome {
                ReadOutcome::TimedOut => ret == Err::<(), Error>(
                    Error {
                        kind: ErrorKind::TimedOut,
                        message: "Reading into the buffer timed out.",
                    },
                ),
                ReadOutcome::Failed(err) => ret == Err::<(), Error>(err),
                ReadOutcome::Read(n) => ret == if n == 0 {
                    Err::<(), Error>(
                        Error { kind: ErrorKind::UnexpectedEof, message: "No full body was send." },
                    )
                } else {
                    Ok::<(), Error>(())
                },
            },
            (final(self).buffer@, final(body)@) == moved(
                old(self).buffer@,
                old(body)@,
                if ret is Ok {
                    crate::buffer::min(amount as int, old(self).buffer@.len() as int)
                } else {
                    0
                },
            ),
            final(self).buffer.storage() == old(self).buffer.storage(),
            final(body).storage().len() == old(body).storage().len(),
            final(self).config == old(self).config,
            final(self).first_request == old(self).first_request,
            final(self).expects_continue == old(self).expects_continue,
    {
        proof {
            assert(self.buffer@.skip(0) =~= self.buffer@);
            assert(body@ + self.buffer@.take(0) =~= body@);
        }
        match outcome {
            ReadOutcome::TimedOut => Err(
                Error::new(ErrorKind::TimedOut, "Reading into the buffer timed out."),
            ),
            ReadOutcome::Failed(err) => Err(err),
            ReadOutcome::Read(n) => {
                if n == 0 {
                    return Err(Error::new(ErrorKind::UnexpectedEof, "No full body was send."));
                }
                let _moved: usize = self.move_bytes(body, amount);

                Ok(())
            },
        }
    }
}

/// Nothing of a body gets lost, doubled or out of order on its way from the connection to the
/// handler: what the handler got, followed by what is still buffered, stays the same.
pub proof fn law_body_bytes_are_kept(from: Seq<u8>, to: Seq<u8>, n: int)
    requires
        0 <= n <= from.len(),
    ensures
        ({
            let (left, got) = moved(from, to, n);
            got + left == to + from
        }),
{
    assert(to + from.take(n) + from.skip(n) =~= to + from);
}

/// Counts how much of a body of a known length was written.
#[derive(Debug, Clone, Copy)]
pub struct FixedBody {
    pub len: usize,
    pub count: usize,
}

impl FixedBody {
    /// Nothing is written yet.
    pub fn new(len: usize) -> (body: Self)
        ensures
            body == (FixedBody { len, count: 0 }),
    {
        FixedBody { len, count: 0 }
    }

    /// Tells whether more data has to be read and written.
    pub fn wants_more(&self) -> (ret: bool)
        ensures
            ret == (self.count < self.len),
    {
        self.len > self.count
    }

    /// Notes that `n` bytes were read and written.
    pub fn wrote(&mut self, n: usize)
        requires
            old(self).count + n <= usize::MAX,
        ensures
            *final(self) == (FixedBody { count: (old(self).count + n) as usize, ..*old(self) }),
    {
        self.count = self.count + n;
    }
}

} // verus!
