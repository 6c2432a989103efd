//! The heads of responses and the chunked transfer encoding of their bodies.

use vstd::prelude::*;

use crate::foreign::{
    canonical_reason, get_first, header_lines, new_headers, to_rfc2822, try_insert, Headers,
};
use crate::message::Version;
use crate::number::to_decimal;
use crate::text::ascii_bytes;

verus! {

/// The end of a line.
pub open spec fn crnl() -> Seq<u8> {
    seq![13u8, 10u8]
}

/// The head of a response.
#[derive(Debug)]
pub struct Response {
    pub status: u16,
    pub version: Version,
    pub headers: Headers,
}

/// What the head of a response holds.
#[verifier::ext_equal]
pub struct ResponseView {
    pub status: u16,
    pub version: Version,
    pub fields: Seq<crate::foreign::Field>,
}

impl View for Response {
    type V = ResponseView;

    open spec fn view(&self) -> ResponseView {
        ResponseView {
            status: self.status,
            version: self.version,
            fields: crate::foreign::fields(self.headers),
        }
    }
}

/// The status line of a response.
pub open spec fn status_line(version: Version, status: u16, reason: Option<Seq<char>>) -> Seq<u8> {
    version.name() + seq![32u8] + crate::number::decimal_text(status as nat) + seq![32u8] + (
    match reason {
        Some(reason) => crate::text::ascii(reason),
        None => Seq::empty(),
    }) + crnl()
}

/// The line of a header.
pub open spec fn header_line(line: (Seq<u8>, Seq<u8>)) -> Seq<u8> {
    line.0 + seq![58u8, 32u8] + line.1 + crnl()
}

/// The lines of some headers.
pub open spec fn all_header_lines(lines: Seq<(Seq<u8>, Seq<u8>)>) -> Seq<u8>
    decreases lines.len(),
{
    if lines.len() == 0 {
        Seq::empty()
    } else {
        all_header_lines(lines.drop_last()) + header_line(lines.last())
    }
}

/// The value of a date header: the text of the date with its time zone written as `GMT`.
pub open spec fn date_value(text: Seq<char>) -> Seq<u8> {
    crate::text::ascii(text.take(text.len() - 5)) + crate::text::ascii("GMT"@)
}

impl ResponseView {
    /// The status line, the headers and the empty line behind them.
    pub open spec fn head(self, reason: Option<Seq<char>>) -> Seq<u8> {
        status_line(self.version, self.status, reason) + all_header_lines(
            crate::foreign::field_lines(self.fields),
        ) + crnl()
    }

    /// The response with a header in place of all the headers with the same name.
    pub open spec fn with_header(self, name: Seq<char>, value: Seq<u8>) -> ResponseView {
        ResponseView {
            fields: crate::foreign::with_inserted(self.fields, crate::text::ascii(name), value),
            ..self
        }
    }

    /// The response with the header which frames its body. `body` is the length of the body, if
    /// there is a body, as far as it is known.
    pub open spec fn framed(self, body: Option<Option<usize>>) -> ResponseView {
        match body {
            Some(Some(len)) => self.with_header(
                "content-length"@,
                crate::number::decimal_text(len as nat),
            ),
            Some(None) => self.with_header(
                "transfer-encoding"@,
                crate::text::ascii("chunked"@),
            ),
            None => self.with_header("content-length"@, crate::text::ascii("0"@)),
        }
    }

    /// Whether there is a date header.
    pub open spec fn has_date(self) -> bool {
        crate::foreign::field_values(self.fields, crate::text::ascii("date"@)).len() > 0
    }

    /// The response with a date header, which takes the date from `text` if there is none yet.
    pub open spec fn dated(self, text: Seq<char>) -> ResponseView {
        if self.has_date() {
            self
        } else {
            self.with_header("date"@, date_value(text))
        }
    }
}

/// Appends the status line of a response.
fn push_status_line(out: &mut Vec<u8>, version: Version, status: u16, reason: Option<&str>)
    requires
        reason matches Some(reason) ==> vstd::utf8::is_ascii_chars(reason@),
    ensures
        final(out)@ == old(out)@ + status_line(
            version,
            status,
            match reason {
                Some(reason) => Some(reason@),
                None => None,
            },
        ),
{
    out.append(&mut version.to_bytes());
    out.push(32);
    out.append(&mut to_decimal(status as u64));
    out.push(32);
    if let Some(reason) = reason {
        out.append(&mut ascii_bytes(reason));
    }
    out.push(13);
    out.push(10);
    proof {
        let reason = match reason {
            Some(reason) => Some(reason@),
            None => None,
        };
        assert(out@ =~= old(out)@ + status_line(version, status, reason));
    }
}

/// The interim response which tells a client to send the body of its request.
pub fn continue_response(version: Version) -> (bytes: Vec<u8>)
    ensures
        bytes@ == status_line(version, 100, Some("Continue"@)) + crnl(),
{
    let mut bytes: Vec<u8> = Vec::new();
    match canonical_reason(100) {
        Some(reason) => push_status_line(&mut bytes, version, 100, Some(reason.as_str())),
        None => push_status_line(&mut bytes, version, 100, None),
    }
    bytes.push(13);
    bytes.push(10);
    proof {
        assert(bytes@ =~= status_line(version, 100, Some("Continue"@)) + crnl());
    }

    bytes
}

/// Turns the text of a date into the value of a date header.
pub fn date_from_text(text: &str) -> (value: Vec<u8>)
    requires
        text@.len() >= 5,
        vstd::utf8::is_ascii_chars(text@),
    ensures
        value@ == date_value(text@),
{
    proof {
        reveal_strlit("GMT");
    }
    let mut value: Vec<u8> = ascii_bytes(text);
    value.truncate(value.len() - 5);
    value.append(&mut ascii_bytes("GMT"));
    proof {
        assert(value@ =~= date_value(text@));
    }

    value
}

impl Response {
    /// A successful response without headers.
    pub fn new() -> (resp: Self)
        ensures
            resp@ == (ResponseView {
                status: 200,
                version: Version::Http11,
                fields: Seq::empty(),
            }),
    {
        Response { status: 200, version: Version::Http11, headers: new_headers() }
    }

    /// A response with the given status and without headers.
    pub fn with_status(status: u16) -> (resp: Self)
        ensures
            resp@ == (ResponseView { status, version: Version::Http11, fields: Seq::empty() }),
    {
        Response { status, version: Version::Http11, headers: new_headers() }
    }

    /// A response with the given status which announces that it has no body.
    pub fn without_body(status: u16) -> (resp: Self)
        ensures
            resp@ == (ResponseView {
                status,
                version: Version::Http11,
                fields: Seq::empty(),
            }).with_header("content-length"@, crate::text::ascii("0"@)),
    {
        let mut resp = Self::with_status(status);
        let ghost before = resp@;
        let done = resp.set_no_body();
        proof {
            assert(done);
        }

        resp
    }

    /// Sets a header, in place of all the headers with the same name. Returns false, without
    /// changing anything, if there is no room for another header.
    fn insert_header(&mut self, name: &str, value: &[u8]) -> (ret: bool)
        requires
            vstd::utf8::is_ascii_chars(name@),
            crate::foreign::valid_header_name(crate::text::ascii(name@)),
            crate::foreign::lower_case(crate::text::ascii(name@)) == crate::text::ascii(name@),
            crate::foreign::valid_header_value(value@),
        ensures
            final(self)@ == if ret {
                old(self)@.with_header(name@, value@)
            } else {
                old(self)@
            },
            old(self)@.fields.len() <= crate::foreign::FIELDS_GUARANTEED ==> ret,
    {
        let name: Vec<u8> = ascii_bytes(name);

        try_insert(&mut self.headers, name.as_slice(), value)
    }

    /// Announces that there is no body. Returns false, without changing anything, if there is no
    /// room for another header.
    pub fn set_no_body(&mut self) -> (ret: bool)
        ensures
            final(self)@ == if ret {
                old(self)@.with_header("content-length"@, crate::text::ascii("0"@))
            } else {
                old(self)@
            },
            old(self)@.fields.len() <= crate::foreign::FIELDS_GUARANTEED ==> ret,
    {
        proof {
            reveal_strlit("content-length");
            reveal_strlit("0");
            assert(crate::foreign::lower_case(crate::text::ascii("content-length"@))
                =~= crate::text::ascii("content-length"@));
        }
        let zero: Vec<u8> = ascii_bytes("0");

        self.insert_header("content-length", zero.as_slice())
    }

    /// Sets the type of the body. Returns false, without changing anything, if there is no room
    /// for another header.
    pub fn set_content_type(&mut self, value: &[u8]) -> (ret: bool)
        requires
            crate::foreign::valid_header_value(value@),
        ensures
            final(self)@ == if ret {
                old(self)@.with_header("content-type"@, value@)
            } else {
                old(self)@
            },
            old(self)@.fields.len() <= crate::foreign::FIELDS_GUARANTEED ==> ret,
    {
        proof {
            reveal_strlit("content-type");
            assert(crate::foreign::lower_case(crate::text::ascii("content-type"@))
                =~= crate::text::ascii("content-type"@));
        }

        self.insert_header("content-type", value)
    }

    /// Sets the header which frames the body. `body` is the length of the body, if there is a body,
    /// as far as it is known. Returns false, without changing anything, if there is no room for
    /// another header.
    pub fn finalize_response(&mut self, body: Option<Option<usize>>) -> (ret: bool)
        ensures
            final(self)@ == if ret {
                old(self)@.framed(body)
            } else {
                old(self)@
            },
            old(self)@.fields.len() <= crate::foreign::FIELDS_GUARANTEED ==> ret,
    {
        match body {
            Some(Some(len)) => {
                proof {
                    reveal_strlit("content-length");
                    assert(crate::foreign::lower_case(crate::text::ascii("content-length"@))
                        =~= crate::text::ascii("content-length"@));
                    crate::number::law_decimal_digits(len as u64);
                }
                let value: Vec<u8> = to_decimal(len as u64);
                proof {
                    assert forall|i: int| 0 <= i < value@.len() implies 48 <= #[trigger] value@[i]
                        <= 57 by {
                        assert(crate::number::is_digit(value@[i]));
                    }
                }
                self.insert_header("content-length", value.as_slice())
            },
            Some(None) => {
                proof {
                    reveal_strlit("transfer-encoding");
                    reveal_strlit("chunked");
                    assert(crate::foreign::lower_case(crate::text::ascii("transfer-encoding"@))
                        =~= crate::text::ascii("transfer-encoding"@));
                }
                let value: Vec<u8> = ascii_bytes("chunked");
                self.insert_header("transfer-encoding", value.as_slice())
            },
            None => self.set_no_body(),
        }
    }

    /// Sets the date header if there is none, to the date which is written in `text`. Returns
    /// false, without changing anything, if there is no room for another header.
    pub fn add_date_text(&mut self, text: &str) -> (ret: bool)
        requires
            text@.len() >= 5,
            forall|i: int| 0 <= i < text@.len() ==> ' ' <= #[trigger] text@[i] <= '~',
        ensures
            final(self)@ == if ret {
                old(self)@.dated(text@)
            } else {
                old(self)@
            },
            old(self)@.fields.len() <= crate::foreign::FIELDS_GUARANTEED ==> ret,
    {
        proof {
            reveal_strlit("date");
            reveal_strlit("GMT");
            assert(crate::foreign::lower_case(crate::text::ascii("date"@)) =~= crate::text::ascii(
                "date"@,
            ));
        }
        let name: Vec<u8> = ascii_bytes("date");
        if get_first(&self.headers, name.as_slice()).is_some() {
            return true;
        }
        proof {
            assert forall|i: int| 0 <= i < text@.len() implies '\0' <= #[trigger] text@[i]
                <= '\u{7f}' by {}
        }
        let value: Vec<u8> = date_from_text(text);
        proof {
            assert forall|i: int| 0 <= i < value@.len() implies 32 <= #[trigger] value@[i]
                < 127 by {
                if i < text@.len() - 5 {
                    assert(value@[i] == text@[i] as u8);
                }
            }
        }

        self.insert_header("date", value.as_slice())
    }

    /// Sets the date header if there is none, to the time which is `now` seconds after the begin of
    /// the year 1970. Returns false, without changing anything, if there is no room for another
    /// header.
    pub fn add_date(&mut self, now: i64) -> (ret: bool)
        requires
            crate::foreign::in_calendar(now),
        ensures
            final(self)@ == if ret {
                old(self)@.dated(crate::foreign::rfc2822_text(now))
            } else {
                old(self)@
            },
            old(self)@.fields.len() <= crate::foreign::FIELDS_GUARANTEED ==> ret,
    {
        let text = to_rfc2822(now);

        self.add_date_text(text.as_str())
    }

    /// The status line with the given reason phrase, the headers and the empty line behind them.
    pub fn head_with_reason(&self, reason: Option<&str>) -> (bytes: Vec<u8>)
        requires
            reason matches Some(reason) ==> vstd::utf8::is_ascii_chars(reason@),
        ensures
            bytes@ == self@.head(
                match reason {
                    Some(reason) => Some(reason@),
                    None => None,
                },
            ),
    {
        let mut bytes: Vec<u8> = Vec::new();
        push_status_line(&mut bytes, self.version, self.status, reason);
        let ghost start = bytes@;
        let lines: Vec<(Vec<u8>, Vec<u8>)> = header_lines(&self.headers);
        let ghost all = crate::foreign::pair_views(lines@);
        let mut i: usize = 0;
        proof {
            assert(all.take(0) =~= Seq::empty());
            assert(bytes@ =~= start + all_header_lines(all.take(0)));
        }
        while i < lines.len()
            invariant
                i <= lines@.len(),
                all == crate::foreign::pair_views(lines@),
                bytes@ == start + all_header_lines(all.take(i as int)),
            decreases lines@.len() - i,
        {
            bytes.extend_from_slice(lines[i].0.as_slice());
            bytes.push(58);
            bytes.push(32);
            bytes.extend_from_slice(lines[i].1.as_slice());
            bytes.push(13);
            bytes.push(10);
            proof {
                assert(all.take(i + 1).drop_last() =~= all.take(i as int));
                assert(all.take(i + 1).last() == (lines@[i as int].0@, lines@[i as int].1@));
                assert(bytes@ =~= start + all_header_lines(all.take(i + 1)));
            }
            i = i + 1;
        }
        bytes.push(13);
        bytes.push(10);
        proof {
            assert(all.take(i as int) =~= all);
            let reason = match reason {
                Some(reason) => Some(reason@),
                None => None,
            };
            assert(start =~= status_line(self.version, self.status, reason));
            assert(bytes@ =~= self@.head(reason));
        }

        bytes
    }

    /// The status line, the headers and the empty line behind them.
    pub fn head(&self) -> (bytes: Vec<u8>)
        requires
            100 <= self.status <= 999,
        ensures
            bytes@ == self@.head(crate::foreign::reason_phrase(self.status)),
    {
        match canonical_reason(self.status) {
            Some(reason) => self.head_with_reason(Some(reason.as_str())),
            None => self.head_with_reason(None),
        }
    }
}

/// Setting a header makes its value the only one with the name and leaves the other headers as
/// they are.
pub proof fn law_insert_then_get(
    fields: Seq<crate::foreign::Field>,
    name: Seq<u8>,
    value: Seq<u8>,
    other: Seq<u8>,
)
    ensures
        crate::foreign::field_values(
            crate::foreign::with_inserted(fields, name, value),
            other,
        ) == if other == name {
            seq![value]
        } else {
            crate::foreign::field_values(fields, other)
        },
{
    let next = crate::foreign::with_inserted(fields, name, value);
    if crate::foreign::has_field(fields, name) {
        lemma_values_of_mapped(fields, next, name, other, seq![value]);
        if other == name {
            lemma_has_values(fields, next, name, seq![value]);
        }
    } else {
        assert(next.drop_last() =~= fields);
    }
}

/// Changing the values of one name leaves the values of the others.
proof fn lemma_values_of_mapped(
    fields: Seq<crate::foreign::Field>,
    next: Seq<crate::foreign::Field>,
    name: Seq<u8>,
    other: Seq<u8>,
    values: Seq<Seq<u8>>,
)
    requires
        next.len() == fields.len(),
        forall|i: int|
            0 <= i < fields.len() ==> #[trigger] next[i] == if fields[i].0 == name {
                (name, values)
            } else {
                fields[i]
            },
    ensures
        other != name ==> crate::foreign::field_values(next, other)
            == crate::foreign::field_values(fields, other),
    decreases fields.len(),
{
    if fields.len() > 0 {
        let n = fields.len() - 1;
        assert(next[n] == next.last());
        assert forall|i: int| 0 <= i < n implies #[trigger] next.drop_last()[i] == if (
        fields.drop_last()[i]).0 == name {
            (name, values)
        } else {
            fields.drop_last()[i]
        } by {
            assert(next.drop_last()[i] == next[i]);
        }
        lemma_values_of_mapped(fields.drop_last(), next.drop_last(), name, other, values);
    }
}

/// The changed values of a name are found.
proof fn lemma_has_values(
    fields: Seq<crate::foreign::Field>,
    next: Seq<crate::foreign::Field>,
    name: Seq<u8>,
    values: Seq<Seq<u8>>,
)
    requires
        crate::foreign::has_field(fields, name),
        next.len() == fields.len(),
        forall|i: int|
            0 <= i < fields.len() ==> #[trigger] next[i] == if fields[i].0 == name {
                (name, values)
            } else {
                fields[i]
            },
    ensures
        crate::foreign::field_values(next, name) == values,
    decreases fields.len(),
{
    let n = fields.len() - 1;
    assert(next[n] == next.last());
    if fields.last().0 != name {
        let i = choose|i: int| 0 <= i < fields.len() && (#[trigger] fields[i]).0 == name;
        assert(fields.drop_last()[i].0 == name);
        assert forall|i: int| 0 <= i < n implies #[trigger] next.drop_last()[i] == if (
        fields.drop_last()[i]).0 == name {
            (name, values)
        } else {
            fields.drop_last()[i]
        } by {
            assert(next.drop_last()[i] == next[i]);
        }
        lemma_has_values(fields.drop_last(), next.drop_last(), name, values);
    }
}

/// A finalized response frames its body in exactly one way, as far as the handler left it to the
/// server: a body of known length by its length, a body of unknown length by chunks, and no body by
/// the length zero. All other headers are left as they are.
pub proof fn law_finalized_response(resp: ResponseView, body: Option<Option<usize>>, other: Seq<u8>)
    requires
        other != crate::text::ascii("content-length"@),
        other != crate::text::ascii("transfer-encoding"@),
    ensures
        crate::foreign::field_values(resp.framed(body).fields, other)
            == crate::foreign::field_values(resp.fields, other),
        resp.framed(body).status == resp.status,
        resp.framed(body).version == resp.version,
        crate::foreign::field_values(
            resp.framed(body).fields,
            crate::text::ascii("transfer-encoding"@),
        ) == if body == Some(None::<usize>) {
            seq![crate::text::ascii("chunked"@)]
        } else {
            crate::foreign::field_values(resp.fields, crate::text::ascii("transfer-encoding"@))
        },
        body == Some(None::<usize>) ==> crate::foreign::field_values(
            resp.framed(body).fields,
            crate::text::ascii("content-length"@),
        ) == crate::foreign::field_values(resp.fields, crate::text::ascii("content-length"@)),
        body matches Some(Some(len)) ==> crate::number::parsed_usize(
            crate::foreign::field_values(
                resp.framed(body).fields,
                crate::text::ascii("content-length"@),
            )[0],
        ) == Some(len),
        match body {
            Some(Some(len)) => crate::foreign::field_values(
                resp.framed(body).fields,
                crate::text::ascii("content-length"@),
            ) == seq![crate::number::decimal_text(len as nat)],
            Some(None) => crate::foreign::field_values(
                resp.framed(body).fields,
                crate::text::ascii("transfer-encoding"@),
            ) == seq![crate::text::ascii("chunked"@)],
            None => crate::foreign::field_values(
                resp.framed(body).fields,
                crate::text::ascii("content-length"@),
            ) == seq![crate::text::ascii("0"@)],
        },
{
    let length = crate::text::ascii("content-length"@);
    let encoding = crate::text::ascii("transfer-encoding"@);
    reveal_strlit("content-length");
    reveal_strlit("transfer-encoding");
    assert(length.len() != encoding.len());
    match body {
        Some(Some(len)) => {
            let value = crate::number::decimal_text(len as nat);
            crate::number::law_decimal_round_trip(len as u64);
            law_insert_then_get(resp.fields, length, value, encoding);
            law_insert_then_get(resp.fields, length, value, other);
            law_insert_then_get(resp.fields, length, value, length);
        },
        Some(None) => {
            let value = crate::text::ascii("chunked"@);
            law_insert_then_get(resp.fields, encoding, value, length);
            law_insert_then_get(resp.fields, encoding, value, other);
            law_insert_then_get(resp.fields, encoding, value, encoding);
        },
        None => {
            let value = crate::text::ascii("0"@);
            law_insert_then_get(resp.fields, length, value, encoding);
            law_insert_then_get(resp.fields, length, value, other);
            law_insert_then_get(resp.fields, length, value, length);
        },
    }
}

/// Every response has a date: the one of the handler, if there is one, else the given one.
pub proof fn law_dated_response(resp: ResponseView, text: Seq<char>)
    ensures
        resp.dated(text).has_date(),
        resp.has_date() ==> resp.dated(text) == resp,
        !resp.has_date() ==> crate::foreign::field_values(
            resp.dated(text).fields,
            crate::text::ascii("date"@),
        ) == seq![date_value(text)],
        resp.dated(text).status == resp.status,
        resp.dated(text).version == resp.version,
{
    law_insert_then_get(
        resp.fields,
        crate::text::ascii("date"@),
        date_value(text),
        crate::text::ascii("date"@),
    );
}

/// Adding a date leaves all other headers as they are.
pub proof fn law_date_leaves_other_headers(resp: ResponseView, text: Seq<char>, other: Seq<u8>)
    requires
        other != crate::text::ascii("date"@),
    ensures
        crate::foreign::field_values(resp.dated(text).fields, other)
            == crate::foreign::field_values(resp.fields, other),
{
    law_insert_then_get(resp.fields, crate::text::ascii("date"@), date_value(text), other);
}

/// The value of a date header is the text of the date, up to its time zone, which is written as
/// `GMT` in place of its five chars.
pub proof fn law_date_is_in_gmt(text: Seq<char>, i: int)
    requires
        text.len() >= 5,
        0 <= i < text.len() - 5,
    ensures
        date_value(text).len() == text.len() - 2,
        date_value(text)[i] == text[i] as u8,
        date_value(text)[text.len() - 5] == 71,
        date_value(text)[text.len() - 4] == 77,
        date_value(text)[text.len() - 3] == 84,
{
    reveal_strlit("GMT");
}

} // verus!
