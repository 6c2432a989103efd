//! The heads of requests and responses.

use vstd::prelude::*;
use vstd::string::*;

use crate::error::{Error, ErrorKind, Result};
use crate::foreign::{
    get_all, get_first, header_name, new_headers, parse_rfc2822, try_append, value_text, Headers,
};
use crate::number::{parse_usize, to_decimal};
use crate::parse::bytes_equal;
use crate::text::{ascii_bytes, ascii_text, chars_equal, from_chars, to_chars};
use crate::util::byterange::{ByteRange, ByteRanges};

verus! {

/// The version of the protocol.
#[derive(Debug, Clone, Copy, PartialEq, Eq, Structural)]
pub enum Version {
    /// HTTP/0.9
    Http09,
    /// HTTP/1.0
    Http10,
    /// HTTP/1.1
    Http11,
    /// HTTP/2
    Http2,
    /// HTTP/3
    Http3,
}

impl Version {
    /// The name of the version in a status line.
    pub open spec fn name(self) -> Seq<u8> {
        crate::text::ascii(
            match self {
                Version::Http09 => "HTTP/0.9"@,
                Version::Http10 => "HTTP/1.0"@,
                Version::Http11 => "HTTP/1.1"@,
                Version::Http2 => "HTTP/2.0"@,
                Version::Http3 => "HTTP/3.0"@,
            },
        )
    }

    /// Writes the name of the version.
    pub fn to_bytes(self) -> (name: Vec<u8>)
        ensures
            name@ == self.name(),
    {
        proof {
            reveal_strlit("HTTP/0.9");
            reveal_strlit("HTTP/1.0");
            reveal_strlit("HTTP/1.1");
            reveal_strlit("HTTP/2.0");
            reveal_strlit("HTTP/3.0");
        }
        match self {
            Version::Http09 => ascii_bytes("HTTP/0.9"),
            Version::Http10 => ascii_bytes("HTTP/1.0"),
            Version::Http11 => ascii_bytes("HTTP/1.1"),
            Version::Http2 => ascii_bytes("HTTP/2.0"),
            Version::Http3 => ascii_bytes("HTTP/3.0"),
        }
    }
}

/// An answer with an error status.
#[derive(Debug, Clone, Copy, PartialEq, Eq, Structural)]
pub struct HttpError {
    /// The status of the answer.
    pub status: u16,
    /// Whether the connection is closed behind the answer. Where this is disabled, as for an invalid
    /// `Range` header, the client may send its next request on the same connection.
    pub close: bool,
}

impl HttpError {
    /// The error in a readable form, such as `HttpError(status: 404, close: false)`.
    pub fn to_string(&self) -> (text: String)
        ensures
            text@ == crate::foreign::ascii_chars(
                crate::text::ascii("HttpError(status: "@) + crate::number::decimal_text(
                    self.status as nat,
                ) + crate::text::ascii(", close: "@) + crate::text::ascii(
                    if self.close {
                        "true)"@
                    } else {
                        "false)"@
                    },
                ),
            ),
    {
        proof {
            reveal_strlit("HttpError(status: ");
            reveal_strlit(", close: ");
            reveal_strlit("true)");
            reveal_strlit("false)");
            crate::number::law_decimal_digits(self.status as u64);
        }
        let mut text: Vec<u8> = ascii_bytes("HttpError(status: ");
        text.append(&mut to_decimal(self.status as u64));
        text.append(&mut ascii_bytes(", close: "));
        if self.close {
            text.append(&mut ascii_bytes("true)"));
        } else {
            text.append(&mut ascii_bytes("false)"));
        }
        proof {
            let digits = crate::number::decimal_text(self.status as nat);
            assert(forall|j: int| 0 <= j < digits.len() ==> #[trigger] digits[j] < 128);
        }

        ascii_text(text.as_slice())
    }
}

impl From<u16> for HttpError {
    fn from(status: u16) -> (err: Self) {
        HttpError { status, close: false }
    }
}

impl vstd::std_specs::convert::FromSpecImpl<u16> for HttpError {
    open spec fn obeys_from_spec() -> bool {
        true
    }

    open spec fn from_spec(status: u16) -> Self {
        HttpError { status, close: false }
    }
}

impl From<Error> for HttpError {
    fn from(err: Error) -> (ret: Self) {
        let status: u16 = match err.kind {
            ErrorKind::InvalidData => 400,
            ErrorKind::NotFound => 404,
            ErrorKind::PermissionDenied => 403,
            _ => 500,
        };

        HttpError { status, close: false }
    }
}

impl vstd::std_specs::convert::FromSpecImpl<Error> for HttpError {
    open spec fn obeys_from_spec() -> bool {
        true
    }

    open spec fn from_spec(err: Error) -> Self {
        HttpError {
            status: match err.kind {
                ErrorKind::InvalidData => 400,
                ErrorKind::NotFound => 404,
                ErrorKind::PermissionDenied => 403,
                _ => 500,
            },
            close: false,
        }
    }
}

/// How the body of a request is framed.
#[derive(Debug, Clone, Copy, PartialEq, Eq, Structural)]
pub enum BodyType {
    /// There is no body.
    NoBody,
    /// The body has a known length.
    Fixed(usize),
    /// The body has no known length. In HTTP/1 it uses the chunked transfer encoding.
    Chunked,
}

/// The head of a request.
#[derive(Debug)]
pub struct Request {
    pub method: Vec<u8>,
    pub target: Vec<u8>,
    pub version: Version,
    pub headers: Headers,
}

/// What the head of a request holds.
#[verifier::ext_equal]
pub struct RequestView {
    pub method: Seq<u8>,
    pub target: Seq<u8>,
    pub version: Version,
    pub fields: Seq<crate::foreign::Field>,
}

impl View for Request {
    type V = RequestView;

    open spec fn view(&self) -> RequestView {
        RequestView {
            method: self.method@,
            target: self.target@,
            version: self.version,
            fields: crate::foreign::fields(self.headers),
        }
    }
}

/// The first value of the field with the given name, if it can be read as text.
pub open spec fn visible_value(fields: Seq<crate::foreign::Field>, name: Seq<u8>) -> Option<
    Seq<u8>,
> {
    let values = crate::foreign::field_values(fields, crate::foreign::lower_case(name));
    if !crate::foreign::valid_header_name(name) || values.len() == 0
        || !crate::foreign::is_visible(values[0]) {
        None
    } else {
        Some(values[0])
    }
}

/// The text of the first field with the given name.
pub open spec fn header_text(fields: Seq<crate::foreign::Field>, name: Seq<u8>) -> Option<
    Seq<char>,
> {
    match visible_value(fields, name) {
        Some(value) => Some(crate::foreign::ascii_chars(value)),
        None => None,
    }
}

/// The texts of those values which can be read as text.
pub open spec fn readable(values: Seq<Seq<u8>>) -> Seq<Seq<char>>
    decreases values.len(),
{
    if values.len() == 0 {
        Seq::empty()
    } else if crate::foreign::is_visible(values.last()) {
        readable(values.drop_last()).push(crate::foreign::ascii_chars(values.last()))
    } else {
        readable(values.drop_last())
    }
}

/// Texts with a separator between them.
pub open spec fn joined(texts: Seq<Seq<char>>, sep: Seq<char>) -> Seq<char>
    decreases texts.len(),
{
    if texts.len() == 0 {
        Seq::empty()
    } else if texts.len() == 1 {
        texts[0]
    } else {
        joined(texts.drop_last(), sep) + sep + texts.last()
    }
}

/// All values with the given name which can be read as text, joined by a separator.
pub open spec fn full_header_text(
    fields: Seq<crate::foreign::Field>,
    name: Seq<u8>,
    sep: Seq<char>,
) -> Option<Seq<char>> {
    let texts = readable(
        crate::foreign::field_values(fields, crate::foreign::lower_case(name)),
    );
    if !crate::foreign::valid_header_name(name) || texts.len() == 0 {
        None
    } else {
        Some(joined(texts, sep))
    }
}

/// Whether a request with the given method is not supposed to change anything.
pub open spec fn is_safe(method: Seq<u8>) -> bool {
    ||| method == crate::text::ascii("GET"@)
    ||| method == crate::text::ascii("HEAD"@)
    ||| method == crate::text::ascii("OPTIONS"@)
    ||| method == crate::text::ascii("TRACE"@)
}

/// The text of an optional string.
pub open spec fn text_of(text: Option<String>) -> Option<Seq<char>> {
    match text {
        Some(text) => Some(text@),
        None => None,
    }
}

impl RequestView {
    /// All values of the field with the given name.
    pub open spec fn values(self, name: Seq<char>) -> Seq<Seq<u8>> {
        crate::foreign::field_values(self.fields, crate::text::ascii(name))
    }

    /// The length which the `content-length` header announces.
    pub open spec fn announced_length(self) -> Result<Option<usize>> {
        let values = self.values("content-length"@);
        if values.len() == 0 {
            Ok(None)
        } else if !crate::foreign::is_visible(values[0]) {
            crate::parse::other_error("Invalid header value.")
        } else {
            match crate::number::parsed_usize(values[0]) {
                Some(len) => Ok(Some(len)),
                None => crate::parse::other_error("Invalid header value. (Not an integer)"),
            }
        }
    }

    /// How the body of an HTTP/1 request is framed. A transfer encoding wins over a length.
    pub open spec fn body_type(self) -> Result<BodyType> {
        let encodings = self.values("transfer-encoding"@);
        if is_safe(self.method) {
            Ok(BodyType::NoBody)
        } else if encodings.len() > 0 {
            if !crate::foreign::is_visible(encodings[0]) {
                crate::parse::other_error("Invalid header value.")
            } else if encodings[0] == crate::text::ascii("chunked"@) {
                Ok(BodyType::Chunked)
            } else {
                crate::parse::invalid_data("Unknown transfer encoding.")
            }
        } else {
            match self.announced_length() {
                Ok(Some(len)) => if len > 0 {
                    Ok(BodyType::Fixed(len))
                } else {
                    Ok(BodyType::NoBody)
                },
                Ok(None) => Ok(BodyType::NoBody),
                Err(err) => Err(err),
            }
        }
    }

    /// How the body of an HTTP/2 request is framed. The chunked transfer encoding is refused.
    pub open spec fn body_type_h2(self) -> Result<BodyType> {
        let encodings = self.values("transfer-encoding"@);
        if is_safe(self.method) {
            Ok(BodyType::NoBody)
        } else if encodings.len() > 0 && !crate::foreign::is_visible(encodings[0]) {
            crate::parse::other_error("Invalid header value.")
        } else if encodings.len() > 0 && encodings[0] == crate::text::ascii("chunked"@) {
            crate::parse::invalid_data("Unknown transfer encoding.")
        } else {
            match self.announced_length() {
                Ok(Some(len)) => if len > 0 {
                    Ok(BodyType::Fixed(len))
                } else {
                    Ok(BodyType::NoBody)
                },
                Ok(None) => Ok(BodyType::Chunked),
                Err(err) => Err(err),
            }
        }
    }

    /// The ranges which the `Range` header asks for.
    pub open spec fn ranges(self) -> core::result::Result<Option<Seq<ByteRange>>, HttpError> {
        let values = self.values("range"@);
        if values.len() == 0 {
            Ok(None)
        } else if !crate::foreign::is_visible(values[0]) {
            Err(HttpError { status: 400, close: false })
        } else {
            match crate::util::byterange::parsed_ranges(values[0]) {
                Some(ranges) => Ok(Some(ranges)),
                None => Err(HttpError { status: 400, close: false }),
            }
        }
    }
}

impl Request {
    /// A GET request for `/` without headers.
    pub fn new(version: Version) -> (req: Self)
        ensures
            req@ == (RequestView {
                method: crate::text::ascii("GET"@),
                target: crate::text::ascii("/"@),
                version,
                fields: Seq::empty(),
            }),
    {
        proof {
            reveal_strlit("GET");
            reveal_strlit("/");
        }
        Request {
            method: ascii_bytes("GET"),
            target: ascii_bytes("/"),
            version,
            headers: new_headers(),
        }
    }

    /// Retrieve the first header with the provided name as a [`String`].
    ///
    /// Will return [`None`] if the first header is not a valid [`str`].
    pub fn get_header(&self, name: &str) -> (text: Option<String>)
        ensures
            text_of(text) == header_text(self@.fields, name.spec_bytes()),
    {
        let name: &[u8] = name.as_bytes();
        if header_name(name).is_none() {
            return None;
        }
        match get_first(&self.headers, name) {
            Some(value) => value_text(value.as_slice()),
            None => None,
        }
    }

    /// Retrieve all header fields with the provided name, concatenated by a single white space.
    ///
    /// Will skip any header which is not a valid [`String`].
    pub fn get_header_full(&self, name: &str) -> (text: Option<String>)
        ensures
            text_of(text) == full_header_text(self@.fields, name.spec_bytes(), " "@),
    {
        self.get_header_full_with_seperator(name, " ")
    }

    /// Retrieve all header fields with the provided name, concatenated by a the given seperator.
    ///
    /// Will skip any header which is not a valid [`String`].
    pub fn get_header_full_with_seperator(&self, name: &str, sep: &str) -> (text: Option<String>)
        ensures
            text_of(text) == full_header_text(self@.fields, name.spec_bytes(), sep@),
    {
        let name: &[u8] = name.as_bytes();
        if header_name(name).is_none() {
            return None;
        }
        let values: Vec<Vec<u8>> = get_all(&self.headers, name);
        let ghost all = crate::parse::views(values@);
        let sep: Vec<char> = to_chars(sep);
        let mut full: Vec<char> = Vec::new();
        let mut found = false;
        let ghost mut texts: Seq<Seq<char>> = Seq::empty();
        let mut i: usize = 0;
        proof {
            assert(all.take(0) =~= Seq::empty());
        }
        while i < values.len()
            invariant
                i <= values@.len(),
                all == crate::parse::views(values@),
                texts == readable(all.take(i as int)),
                found == (texts.len() > 0),
                full@ == joined(texts, sep@),
                forall|j: int|
                    0 <= j < values@.len() ==> crate::foreign::valid_header_value(
                        (#[trigger] values@[j])@,
                    ),
            decreases values@.len() - i,
        {
            proof {
                assert(all.take(i + 1).drop_last() =~= all.take(i as int));
                assert(all.take(i + 1).last() == values@[i as int]@);
            }
            if let Some(text) = value_text(values[i].as_slice()) {
                let ghost next = texts.push(text@);
                proof {
                    assert(next.drop_last() =~= texts);
                }
                if found {
                    full.extend_from_slice(sep.as_slice());
                }
                full.extend_from_slice(to_chars(text.as_str()).as_slice());
                found = true;
                proof {
                    assert(full@ =~= joined(next, sep@));
                    texts = next;
                }
            }
            i = i + 1;
        }
        proof {
            assert(all.take(i as int) =~= all);
        }
        if !found {
            return None;
        }

        Some(from_chars(full.as_slice()))
    }

    /// Find out if the client send a `Expect: 100-continue` header.
    pub fn expects_continue(&self) -> (ret: bool)
        ensures
            ret == (header_text(self@.fields, crate::text::ascii("expect"@)) == Some(
                "100-continue"@,
            )),
    {
        proof {
            reveal_strlit("expect");
        }
        match self.get_ascii_header("expect") {
            Some(value) => chars_equal(
                to_chars(value.as_str()).as_slice(),
                to_chars("100-continue").as_slice(),
            ),
            None => false,
        }
    }

    /// Retrieve the content length of the request body, if any.
    ///
    /// Will return [`None`] if the first header is not a valid [`usize`] number.
    pub fn get_content_length(&self) -> (len: Option<usize>)
        ensures
            len == match visible_value(self@.fields, crate::text::ascii("content-length"@)) {
                Some(value) => crate::number::parsed_usize(value),
                None => None,
            },
    {
        proof {
            reveal_strlit("content-length");
            if let Some(value) = visible_value(
                self@.fields,
                crate::text::ascii("content-length"@),
            ) {
                crate::text::law_ascii_round_trip(value);
            }
        }
        match self.get_ascii_header("content-length") {
            Some(value) => parse_usize(value.as_str().as_bytes()),
            None => None,
        }
    }

    /// Retrieve the `If-Modified-Since` header as seconds since 1970, nanoseconds and the offset of
    /// the time zone, if any.
    ///
    /// Will return [`None`] if the first header is not a valid datetime string.
    pub fn get_if_modified_since(&self) -> (date: Option<(i64, u32, i32)>)
        ensures
            date == match header_text(self@.fields, crate::text::ascii("if-modified-since"@)) {
                Some(text) => crate::foreign::parsed_rfc2822(text),
                None => None,
            },
    {
        proof {
            reveal_strlit("if-modified-since");
        }
        match self.get_ascii_header("if-modified-since") {
            Some(value) => parse_rfc2822(value.as_str()),
            None => None,
        }
    }

    /// Retrieve the `If-Unmodified-Since` header as seconds since 1970, nanoseconds and the offset
    /// of the time zone, if any.
    ///
    /// Will return [`None`] if the first header is not a valid datetime string.
    pub fn get_if_unmodified_since(&self) -> (date: Option<(i64, u32, i32)>)
        ensures
            date == match header_text(self@.fields, crate::text::ascii("if-unmodified-since"@)) {
                Some(text) => crate::foreign::parsed_rfc2822(text),
                None => None,
            },
    {
        proof {
            reveal_strlit("if-unmodified-since");
        }
        match self.get_ascii_header("if-unmodified-since") {
            Some(value) => parse_rfc2822(value.as_str()),
            None => None,
        }
    }

    /// Retrieve the `Range` header as a parsed collection of [`ByteRange`] objects, if any.
    ///
    /// Will return [`None`] if the `Range` header does not exist and return an
    /// `Bad Request` [`HttpError`] with the close flag __disabled__ if the header was invalid.
    pub fn get_range(&self) -> (ret: core::result::Result<Option<Vec<ByteRange>>, HttpError>)
        ensures
            self@.ranges() == match ret {
                Ok(Some(ranges)) => Ok(Some(ranges@)),
                Ok(None) => Ok(None),
                Err(err) => Err(err),
            },
    {
        proof {
            reveal_strlit("range");
            assert(crate::foreign::lower_case(crate::text::ascii("range"@)) =~= crate::text::ascii(
                "range"@,
            ));
        }
        let name: Vec<u8> = ascii_bytes("range");
        let value: Vec<u8> = match get_first(&self.headers, name.as_slice()) {
            Some(value) => value,
            None => return Ok(None),
        };
        proof {
            if crate::foreign::is_visible(value@) {
                crate::text::law_ascii_round_trip(value@);
            }
        }
        match value_text(value.as_slice()) {
            Some(text) => match ByteRanges::from_str(text.as_str()) {
                Ok(ranges) => Ok(Some(ranges.into_inner())),
                Err(()) => Err(HttpError { status: 400, close: false }),
            },
            None => Err(HttpError { status: 400, close: false }),
        }
    }

    /// The same as [`Self::get_header`], with the name as it is written.
    fn get_ascii_header(&self, name: &str) -> (text: Option<String>)
        ensures
            vstd::utf8::is_ascii_chars(name@) ==> text_of(text) == header_text(
                self@.fields,
                crate::text::ascii(name@),
            ),
    {
        proof {
            broadcast use vstd::string::is_ascii_spec_bytes;

            if vstd::utf8::is_ascii_chars(name@) {
                assert(vstd::string::is_ascii(name));
                assert(name.spec_bytes() =~= crate::text::ascii(name@));
            }
        }
        self.get_header(name)
    }

    /// Finds out how the body of an HTTP/1 request is framed.
    pub fn determine_body_type(&self) -> (ret: Result<BodyType>)
        ensures
            ret == self@.body_type(),
    {
        if is_safe_method(self.method.as_slice()) {
            return Ok(BodyType::NoBody);
        }
        proof {
            reveal_strlit("transfer-encoding");
            reveal_strlit("chunked");
            assert(crate::foreign::lower_case(crate::text::ascii("transfer-encoding"@))
                =~= crate::text::ascii("transfer-encoding"@));
        }
        let name: Vec<u8> = ascii_bytes("transfer-encoding");
        if let Some(value) = get_first(&self.headers, name.as_slice()) {
            if value_text(value.as_slice()).is_none() {
                return Err(Error::new(ErrorKind::Other, "Invalid header value."));
            }
            if bytes_equal(value.as_slice(), ascii_bytes("chunked").as_slice()) {
                return Ok(BodyType::Chunked);
            } else {
                return Err(Error::new(ErrorKind::InvalidData, "Unknown transfer encoding."));
            }
        }
        match self.read_announced_length() {
            Ok(Some(len)) => if len > 0 {
                Ok(BodyType::Fixed(len))
            } else {
                Ok(BodyType::NoBody)
            },
            Ok(None) => Ok(BodyType::NoBody),
            Err(err) => Err(err),
        }
    }

    /// Finds out how the body of an HTTP/2 request is framed.
    pub fn determine_body_type_h2(&self) -> (ret: Result<BodyType>)
        ensures
            ret == self@.body_type_h2(),
    {
        if is_safe_method(self.method.as_slice()) {
            return Ok(BodyType::NoBody);
        }
        proof {
            reveal_strlit("transfer-encoding");
            reveal_strlit("chunked");
            assert(crate::foreign::lower_case(crate::text::ascii("transfer-encoding"@))
                =~= crate::text::ascii("transfer-encoding"@));
        }
        let name: Vec<u8> = ascii_bytes("transfer-encoding");
        if let Some(value) = get_first(&self.headers, name.as_slice()) {
            if value_text(value.as_slice()).is_none() {
                return Err(Error::new(ErrorKind::Other, "Invalid header value."));
            }
            if bytes_equal(value.as_slice(), ascii_bytes("chunked").as_slice()) {
                return Err(Error::new(ErrorKind::InvalidData, "Unknown transfer encoding."));
            }
        }
        match self.read_announced_length() {
            Ok(Some(len)) => if len > 0 {
                Ok(BodyType::Fixed(len))
            } else {
                Ok(BodyType::NoBody)
            },
            // The body has no fixed length, but it does not use the chunked transfer encoding.
            Ok(None) => Ok(BodyType::Chunked),
            Err(err) => Err(err),
        }
    }

    /// Reads the `content-length` header.
    fn read_announced_length(&self) -> (ret: Result<Option<usize>>)
        ensures
            ret == self@.announced_length(),
    {
        proof {
            reveal_strlit("content-length");
            assert(crate::foreign::lower_case(crate::text::ascii("content-length"@))
                =~= crate::text::ascii("content-length"@));
        }
        let name: Vec<u8> = ascii_bytes("content-length");
        match get_first(&self.headers, name.as_slice()) {
            Some(value) => {
                if value_text(value.as_slice()).is_none() {
                    return Err(Error::new(ErrorKind::Other, "Invalid header value."));
                }
                match parse_usize(value.as_slice()) {
                    Some(len) => Ok(Some(len)),
                    None => Err(
                        Error::new(ErrorKind::Other, "Invalid header value. (Not an integer)"),
                    ),
                }
            },
            None => Ok(None),
        }
    }

    /// Checks the request as a whole. Every request is accepted.
    pub fn validate(&self) -> (ret: Result<()>)
        ensures
            ret == Ok::<(), Error>(()),
    {
        Ok(())
    }

    /// Adds a value to the header with the given name. Returns false, without changing anything,
    /// if there is no room for another header.
    pub fn append_header(&mut self, name: &[u8], value: &[u8]) -> (ret: bool)
        requires
            crate::foreign::valid_header_name(name@),
            crate::foreign::valid_header_value(value@),
        ensures
            final(self)@ == if ret {
                RequestView {
                    fields: crate::foreign::with_appended(
                        old(self)@.fields,
                        crate::foreign::lower_case(name@),
                        value@,
                    ),
                    ..old(self)@
                }
            } else {
                old(self)@
            },
            old(self)@.fields.len() <= crate::foreign::FIELDS_GUARANTEED ==> ret,
    {
        try_append(&mut self.headers, name, value)
    }
}

/// Tells whether a request with the given method is not supposed to change anything.
pub fn is_safe_method(method: &[u8]) -> (ret: bool)
    ensures
        ret == is_safe(method@),
{
    proof {
        reveal_strlit("GET");
        reveal_strlit("HEAD");
        reveal_strlit("OPTIONS");
        reveal_strlit("TRACE");
    }
    bytes_equal(method, ascii_bytes("GET").as_slice()) || bytes_equal(
        method,
        ascii_bytes("HEAD").as_slice(),
    ) || bytes_equal(method, ascii_bytes("OPTIONS").as_slice()) || bytes_equal(
        method,
        ascii_bytes("TRACE").as_slice(),
    )
}

/// There are values exactly if there is a field which holds some.
proof fn lemma_no_values(fields: Seq<crate::foreign::Field>, name: Seq<u8>)
    requires
        !crate::foreign::has_field(fields, name),
    ensures
        crate::foreign::field_values(fields, name) == Seq::<Seq<u8>>::empty(),
    decreases fields.len(),
{
    if fields.len() > 0 {
        assert(fields[fields.len() - 1].0 != name);
        assert forall|i: int| 0 <= i < fields.drop_last().len() implies (
        #[trigger] fields.drop_last()[i]).0 != name by {
            assert(fields[i].0 != name);
        }
        lemma_no_values(fields.drop_last(), name);
    }
}

proof fn lemma_values_of_appended(
    fields: Seq<crate::foreign::Field>,
    name: Seq<u8>,
    value: Seq<u8>,
    other: Seq<u8>,
)
    requires
        crate::foreign::has_field(fields, name),
    ensures
        crate::foreign::field_values(crate::foreign::with_appended(fields, name, value), other)
            == if other == name {
            crate::foreign::field_values(fields, name).push(value)
        } else {
            crate::foreign::field_values(fields, other)
        },
    decreases fields.len(),
{
    let next = crate::foreign::with_appended(fields, name, value);
    let front = fields.drop_last();
    if crate::foreign::has_field(front, name) {
        lemma_values_of_appended(front, name, value, other);
        assert(next.drop_last() =~= crate::foreign::with_appended(front, name, value));
    } else {
        let at = choose|i: int| 0 <= i < fields.len() && (#[trigger] fields[i]).0 == name;
        assert(at == fields.len() - 1) by {
            if at < fields.len() - 1 {
                assert(front[at].0 == name);
            }
        }
        assert forall|i: int| 0 <= i < front.len() implies #[trigger] next[i] == fields[i] by {
            assert(front[i].0 != name);
        }
        assert(next.drop_last() =~= front);
    }
}

/// Adding a value to a header makes it the last one with the name and leaves the other headers as
/// they are.
pub proof fn law_append_then_get(
    fields: Seq<crate::foreign::Field>,
    name: Seq<u8>,
    value: Seq<u8>,
    other: Seq<u8>,
)
    ensures
        crate::foreign::field_values(crate::foreign::with_appended(fields, name, value), other)
            == if other == name {
            crate::foreign::field_values(fields, name).push(value)
        } else {
            crate::foreign::field_values(fields, other)
        },
{
    if crate::foreign::has_field(fields, name) {
        lemma_values_of_appended(fields, name, value, other);
    } else {
        lemma_no_values(fields, name);
        let next = crate::foreign::with_appended(fields, name, value);
        assert(next.drop_last() =~= fields);
        assert(Seq::<Seq<u8>>::empty().push(value) =~= seq![value]);
    }
}

/// A written number can be read as text.
proof fn lemma_decimal_is_visible(n: usize)
    ensures
        crate::foreign::is_visible(crate::number::decimal_text(n as nat)),
        crate::number::parsed_usize(crate::number::decimal_text(n as nat)) == Some(n),
{
    crate::number::law_decimal_digits(n as u64);
    crate::number::law_decimal_round_trip(n as u64);
    let text = crate::number::decimal_text(n as nat);
    assert forall|i: int| 0 <= i < text.len() implies 48 <= #[trigger] text[i] <= 57 by {
        assert(crate::number::is_digit(text[i]));
    }
}

/// A request with one of the methods GET, HEAD, OPTIONS and TRACE has no body, whatever its
/// headers say.
pub proof fn law_safe_requests_have_no_body(req: RequestView)
    requires
        req.method == crate::text::ascii("GET"@) || req.method == crate::text::ascii("HEAD"@)
            || req.method == crate::text::ascii("OPTIONS"@) || req.method == crate::text::ascii(
            "TRACE"@,
        ),
    ensures
        req.body_type() == Ok::<BodyType, Error>(BodyType::NoBody),
        req.body_type_h2() == Ok::<BodyType, Error>(BodyType::NoBody),
{
}

/// The body of a request with any other method is framed by its headers. Without a transfer
/// encoding a written length frames it, the length zero or no length at all means that there is no
/// body, and what is no number is refused. The chunked transfer encoding wins over a length, and
/// every other one is refused.
pub proof fn law_headers_frame_the_body(req: RequestView, len: usize)
    requires
        req.method != crate::text::ascii("GET"@),
        req.method != crate::text::ascii("HEAD"@),
        req.method != crate::text::ascii("OPTIONS"@),
        req.method != crate::text::ascii("TRACE"@),
    ensures
        ({
            let encodings = req.values("transfer-encoding"@);
            let lengths = req.values("content-length"@);
            &&& encodings.len() == 0 && lengths.len() > 0 && lengths[0]
                == crate::number::decimal_text(len as nat) && len > 0 ==> req.body_type() == Ok::<
                BodyType,
                Error,
            >(BodyType::Fixed(len))
            &&& encodings.len() == 0 && lengths.len() > 0 && lengths[0]
                == crate::number::decimal_text(0) ==> req.body_type() == Ok::<BodyType, Error>(
                BodyType::NoBody,
            )
            &&& encodings.len() == 0 && lengths.len() == 0 ==> req.body_type() == Ok::<
                BodyType,
                Error,
            >(BodyType::NoBody)
            &&& encodings.len() == 0 && lengths.len() > 0 && crate::number::parsed_usize(
                lengths[0],
            ) is None ==> req.body_type() is Err
            &&& encodings.len() > 0 ==> req.body_type() == if encodings[0] == crate::text::ascii(
                "chunked"@,
            ) {
                Ok::<BodyType, Error>(BodyType::Chunked)
            } else {
                Err(req.body_type()->Err_0)
            }
        }),
{
    lemma_decimal_is_visible(len);
    lemma_decimal_is_visible(0);
    reveal_strlit("chunked");
    let chunked = crate::text::ascii("chunked"@);
    assert(crate::foreign::is_visible(chunked));
}

/// The body of an HTTP/2 request with a method other than GET, HEAD, OPTIONS and TRACE has the
/// length which is announced, if there is one, the length zero means that there is no body, and
/// without an announcement its length is open. The chunked transfer encoding is refused, and every
/// other one which can be read is left out of account.
pub proof fn law_length_frames_the_h2_body(req: RequestView, len: usize)
    requires
        req.method != crate::text::ascii("GET"@),
        req.method != crate::text::ascii("HEAD"@),
        req.method != crate::text::ascii("OPTIONS"@),
        req.method != crate::text::ascii("TRACE"@),
    ensures
        ({
            let encodings = req.values("transfer-encoding"@);
            let lengths = req.values("content-length"@);
            let open = encodings.len() == 0 || crate::foreign::is_visible(encodings[0])
                && encodings[0] != crate::text::ascii("chunked"@);
            &&& open && lengths.len() > 0 && lengths[0] == crate::number::decimal_text(len as nat)
                && len > 0 ==> req.body_type_h2() == Ok::<BodyType, Error>(BodyType::Fixed(len))
            &&& open && lengths.len() > 0 && lengths[0] == crate::number::decimal_text(0)
                ==> req.body_type_h2() == Ok::<BodyType, Error>(BodyType::NoBody)
            &&& open && lengths.len() == 0 ==> req.body_type_h2() == Ok::<BodyType, Error>(
                BodyType::Chunked,
            )
            &&& open && lengths.len() > 0 && crate::number::parsed_usize(lengths[0]) is None
                ==> req.body_type_h2() is Err
            &&& !open ==> req.body_type_h2() is Err
        }),
{
    lemma_decimal_is_visible(len);
    lemma_decimal_is_visible(0);
}

/// The case of a header name makes no difference.
pub proof fn law_header_names_have_no_case(
    fields: Seq<crate::foreign::Field>,
    one: Seq<u8>,
    other: Seq<u8>,
    sep: Seq<char>,
)
    requires
        crate::foreign::lower_case(one) == crate::foreign::lower_case(other),
    ensures
        header_text(fields, one) == header_text(fields, other),
        full_header_text(fields, one, sep) == full_header_text(fields, other, sep),
{
    if crate::foreign::valid_header_name(one) {
        lemma_same_names(one, other);
    }
    if crate::foreign::valid_header_name(other) {
        lemma_same_names(other, one);
    }
}

proof fn lemma_same_names(one: Seq<u8>, other: Seq<u8>)
    requires
        crate::foreign::lower_case(one) == crate::foreign::lower_case(other),
        crate::foreign::valid_header_name(one),
    ensures
        crate::foreign::valid_header_name(other),
{
    let lower = crate::foreign::lower_case(other);
    assert(lower.len() == one.len());
    assert forall|i: int| 0 <= i < other.len() implies crate::foreign::is_header_name_char(
        #[trigger] other[i],
    ) by {
        assert(lower[i] == crate::foreign::lower_case(one)[i]);
        assert(crate::foreign::is_header_name_char(one[i]));
    }
}

/// A request without headers has no text for any name.
pub proof fn law_no_header_is_made_up(name: Seq<u8>, sep: Seq<char>)
    ensures
        header_text(Seq::empty(), name) is None,
        full_header_text(Seq::empty(), name, sep) is None,
{
    assert(readable(Seq::<Seq<u8>>::empty()) =~= Seq::empty());
}

/// The text of a header is that of its first value, and the full text gains the text of every
/// value which is added and can be read, behind a separator. A value which cannot be read is left
/// out of the full text, and as the first one it hides the others.
pub proof fn law_added_header_is_read(
    fields: Seq<crate::foreign::Field>,
    name: Seq<u8>,
    value: Seq<u8>,
    sep: Seq<char>,
)
    requires
        crate::foreign::valid_header_name(name),
    ensures
        ({
            let key = crate::foreign::lower_case(name);
            let next = crate::foreign::with_appended(fields, key, value);
            let visible = crate::foreign::is_visible(value);
            let text = crate::foreign::ascii_chars(value);
            &&& header_text(next, name) == if crate::foreign::field_values(fields, key).len() > 0 {
                header_text(fields, name)
            } else if visible {
                Some(text)
            } else {
                None
            }
            &&& full_header_text(next, name, sep) == match full_header_text(fields, name, sep) {
                Some(before) => if visible {
                    Some(before + sep + text)
                } else {
                    Some(before)
                },
                None => if visible {
                    Some(text)
                } else {
                    None
                },
            }
        }),
{
    let key = crate::foreign::lower_case(name);
    law_append_then_get(fields, key, value, key);
    let before = crate::foreign::field_values(fields, key);
    let values = before.push(value);
    assert(values.drop_last() =~= before);
    if before.len() > 0 {
        assert(values[0] == before[0]);
    }
    if crate::foreign::is_visible(value) {
        let texts = readable(before).push(crate::foreign::ascii_chars(value));
        assert(texts.drop_last() =~= readable(before));
        assert(texts.last() == crate::foreign::ascii_chars(value));
    }
}

/// Adding a header leaves the texts of all other names as they are.
pub proof fn law_other_headers_are_left(
    fields: Seq<crate::foreign::Field>,
    name: Seq<u8>,
    value: Seq<u8>,
    other: Seq<u8>,
    sep: Seq<char>,
)
    requires
        crate::foreign::lower_case(other) != crate::foreign::lower_case(name),
    ensures
        ({
            let next = crate::foreign::with_appended(
                fields,
                crate::foreign::lower_case(name),
                value,
            );
            &&& header_text(next, other) == header_text(fields, other)
            &&& full_header_text(next, other, sep) == full_header_text(fields, other, sep)
        }),
{
    law_append_then_get(
        fields,
        crate::foreign::lower_case(name),
        value,
        crate::foreign::lower_case(other),
    );
}

/// The ranges of a request are those which its first `Range` header spells out. Without the header
/// there are none, and one which can not be read makes the request a bad one, without closing the
/// connection.
pub proof fn law_range_header_is_read(req: RequestView, ranges: Seq<ByteRange>)
    requires
        ranges.len() > 0,
        forall|i: int|
            0 <= i < ranges.len() ==> (#[trigger] ranges[i]).begin is Some && (
            ranges[i].end matches Some(end) ==> ranges[i].begin->0 <= end),
        crate::util::byterange::written_ranges(ranges).len() <= usize::MAX,
    ensures
        ({
            let values = req.values("range"@);
            &&& values.len() == 0 ==> req.ranges() == Ok::<Option<Seq<ByteRange>>, HttpError>(None)
            &&& values.len() > 0 && values[0] == crate::util::byterange::written_ranges(ranges)
                ==> req.ranges() == Ok::<Option<Seq<ByteRange>>, HttpError>(Some(ranges))
            &&& req.ranges() matches Err(err) ==> values.len() > 0 && err.status == 400
                && !err.close
        }),
{
    crate::util::byterange::law_ranges_are_read_back(ranges);
    crate::util::byterange::law_written_ranges_are_visible(ranges);
}

/// The status which an error is answered with: bad data is the fault of the client, what is not
/// there is not found, what is not permitted is forbidden, and everything else is the fault of the
/// server. The connection stays open.
pub proof fn law_errors_have_a_status(err: Error)
    ensures
        ({
            let answer = <HttpError as vstd::std_specs::convert::FromSpec<Error>>::from_spec(err);
            &&& answer.status == 400 <==> err.kind is InvalidData
            &&& answer.status == 404 <==> err.kind is NotFound
            &&& answer.status == 403 <==> err.kind is PermissionDenied
            &&& answer.status == 500 || answer.status == 400 || answer.status == 403
                || answer.status == 404
            &&& !answer.close
        }),
{
}

} // verus!
