//! Finds and parses the parts of HTTP/1 messages.

use vstd::prelude::*;

use crate::error::{Error, ErrorKind, Result};
use crate::foreign::{header_name, header_value, is_valid_method, uri_path};
use crate::message::Version;

verus! {

pub const CR: u8 = 13;

pub const NL: u8 = 10;

pub const SP: u8 = 32;

pub const HTAB: u8 = 9;

pub const DQ: u8 = 34;

pub const SEMICOLON: u8 = 59;

pub const COLON: u8 = 58;

/// The bytes of `HTTP/1.0`.
pub open spec fn http_1_0() -> Seq<u8> {
    seq![72, 84, 84, 80, 47, 49, 46, 48]
}

/// The bytes of `HTTP/1.1`.
pub open spec fn http_1_1() -> Seq<u8> {
    seq![72, 84, 84, 80, 47, 49, 46, 49]
}

/// The bytes of `HTTP/2.0`.
pub open spec fn http_2_0() -> Seq<u8> {
    seq![72, 84, 84, 80, 47, 50, 46, 48]
}

/// An error about data which does not follow its format.
pub open spec fn invalid_data<T>(message: &'static str) -> Result<T> {
    Err(Error { kind: ErrorKind::InvalidData, message })
}

/// An error which fits in no other category.
pub open spec fn other_error<T>(message: &'static str) -> Result<T> {
    Err(Error { kind: ErrorKind::Other, message })
}

pub open spec fn spec_is_char(b: u8) -> bool {
    b < 128
}

/// A char of the US-ASCII set.
#[verifier::when_used_as_spec(spec_is_char)]
pub fn is_char(b: u8) -> (ret: bool)
    ensures
        ret == spec_is_char(b),
{
    128 > b
}

pub open spec fn spec_is_ctl(b: u8) -> bool {
    b <= 32 || b == 127
}

/// A control character. The space counts as one.
#[verifier::when_used_as_spec(spec_is_ctl)]
pub fn is_ctl(b: u8) -> (ret: bool)
    ensures
        ret == spec_is_ctl(b),
{
    32 >= b || b == 127
}

pub open spec fn spec_is_hex(b: u8) -> bool {
    48 <= b <= 57 || 65 <= b <= 70 || 97 <= b <= 102
}

/// A hexadecimal digit.
#[verifier::when_used_as_spec(spec_is_hex)]
pub fn is_hex(b: u8) -> (ret: bool)
    ensures
        ret == spec_is_hex(b),
{
    // From 'a' to 'f'.
    if b >= 97 && 102 >= b {
        return true;
    }
    // From 'A' to 'F'.
    if b >= 65 && 70 >= b {
        return true;
    }
    // From '0' to '9'.
    if b >= 48 && 57 >= b {
        return true;
    }

    false
}

pub open spec fn spec_is_lws(b: u8) -> bool {
    b == SP || b == HTAB
}

/// White space inside of a line.
#[verifier::when_used_as_spec(spec_is_lws)]
pub fn is_lws(b: u8) -> (ret: bool)
    ensures
        ret == spec_is_lws(b),
{
    b == SP || b == HTAB
}

pub open spec fn spec_is_lws_full(b: u8) -> bool {
    b == CR || b == NL || b == SP || b == HTAB
}

/// White space inside or at the end of a line.
#[verifier::when_used_as_spec(spec_is_lws_full)]
pub fn is_lws_full(b: u8) -> (ret: bool)
    ensures
        ret == spec_is_lws_full(b),
{
    b == CR || b == NL || b == SP || b == HTAB
}

pub open spec fn spec_is_text(b: u8) -> bool {
    31 < b < 127 || 159 < b
}

/// Text of a header value.
#[verifier::when_used_as_spec(spec_is_text)]
pub fn is_text(b: u8) -> (ret: bool)
    ensures
        ret == spec_is_text(b),
{
    (b > 31 && 127 > b) || b > 159
}

pub open spec fn spec_is_token(b: u8) -> bool {
    spec_is_char(b) && !spec_is_ctl(b) && !spec_is_seperator(b)
}

/// A char of a token.
#[verifier::when_used_as_spec(spec_is_token)]
pub fn is_token(b: u8) -> (ret: bool)
    ensures
        ret == spec_is_token(b),
{
    is_char(b) && !is_ctl(b) && !is_seperator(b)
}

/// One of `( ) < > @ , ; : \ " / [ ] ? = { }`, the space or the tab.
pub open spec fn spec_is_seperator(b: u8) -> bool {
    ||| b == 40 || b == 41 || b == 60 || b == 62
    ||| b == 64 || b == 44 || b == 59 || b == 58
    ||| b == 92 || b == DQ || b == 47
    ||| b == 91 || b == 93
    ||| b == 63 || b == 61
    ||| b == 123 || b == 125
    ||| b == SP || b == HTAB
}

/// A char which ends a token.
#[verifier::when_used_as_spec(spec_is_seperator)]
pub fn is_seperator(b: u8) -> (ret: bool)
    ensures
        ret == spec_is_seperator(b),
{
    match b {
        40 | 41 | 60 | 62 => true,  // ( ) < >
        64 | 44 | 59 | 58 => true,  // @ , ; :
        92 | 34 | 47 => true,  // \ " /
        91 | 93 | 63 | 61 => true,  // [ ] ? =
        123 | 125 => true,  // { }
        32 | 9 => true,  // SP HTAB
        _ => false,
    }
}

/// The index of the first byte from `from` on for which `p` holds.
pub open spec fn next_index(s: Seq<u8>, from: int, p: spec_fn(u8) -> bool) -> Option<usize>
    decreases s.len() - from,
{
    if from >= s.len() {
        None
    } else if p(s[from]) {
        Some(from as usize)
    } else {
        next_index(s, from + 1, p)
    }
}

/// [`next_index`] finds a byte for which `p` holds, and there is none in front of it.
pub proof fn law_next_index(s: Seq<u8>, from: int, p: spec_fn(u8) -> bool)
    requires
        0 <= from,
        s.len() <= usize::MAX,
    ensures
        match next_index(s, from, p) {
            Some(i) => {
                &&& from <= i < s.len()
                &&& p(s[i as int])
                &&& forall|j: int| from <= j < i ==> !p(#[trigger] s[j])
            },
            None => forall|j: int| from <= j < s.len() ==> !p(#[trigger] s[j]),
        },
    decreases s.len() - from,
{
    if from < s.len() && !p(s[from]) {
        law_next_index(s, from + 1, p);
    }
}

/// The index of the first space.
pub open spec fn next_sp(s: Seq<u8>) -> Option<usize> {
    next_index(s, 0, |b: u8| b == SP)
}

/// Finds the first space.
pub fn find_next_sp(buf: &[u8]) -> (ret: Result<Option<usize>>)
    ensures
        ret == Ok::<Option<usize>, Error>(next_sp(buf@)),
{
    let mut idx: usize = 0;
    while buf.len() > idx
        invariant
            idx <= buf@.len(),
            next_sp(buf@) == next_index(buf@, idx as int, |b: u8| b == SP),
        decreases buf@.len() - idx,
    {
        if buf[idx] == SP {
            return Ok(Some(idx));
        }
        idx = idx + 1;
    }

    Ok(None)
}

/// Where the line ends: behind the first CR, which has to be followed by a NL.
pub open spec fn start_line_end(s: Seq<u8>) -> Result<Option<usize>> {
    match next_index(s, 0, |b: u8| b == CR) {
        Some(i) => if i + 1 >= s.len() {
            Ok(None)
        } else if s[i + 1] == NL {
            Ok(Some((i + 2) as usize))
        } else {
            invalid_data("The start line had a CR that was not followed by NL.")
        },
        None => Ok(None),
    }
}

/// Finds the index behind the CRNL which ends the first line.
pub fn find_start_line_end(buf: &[u8]) -> (ret: Result<Option<usize>>)
    ensures
        ret == start_line_end(buf@),
{
    let mut idx: usize = 0;
    while buf.len() > idx && buf.len() - idx > 1
        invariant
            idx <= buf@.len(),
            next_index(buf@, 0, |b: u8| b == CR) == next_index(buf@, idx as int, |b: u8| b == CR),
        decreases buf@.len() - idx,
    {
        if buf[idx] == CR {
            if buf[idx + 1] == NL {
                return Ok(Some(idx + 2));
            } else {
                return Err(
                    Error::new(
                        ErrorKind::InvalidData,
                        "The start line had a CR that was not followed by NL.",
                    ),
                );
            }
        }
        idx = idx + 1;
    }
    proof {
        reveal_with_fuel(next_index, 3);
    }

    Ok(None)
}

/// Where the header line ends whose part in front of `from` is known to hold no end. A CRNL which
/// is followed by white space continues the line.
pub open spec fn header_end_from(s: Seq<u8>, from: int) -> Result<Option<usize>>
    decreases s.len() - from,
{
    if s.len() <= from + 2 {
        Ok(None)
    } else if s[from] != CR {
        header_end_from(s, from + 1)
    } else if s[from + 1] != NL {
        invalid_data("A CR was not followed by NL.")
    } else if is_lws(s[from + 2]) {
        header_end_from(s, from + 3)
    } else {
        Ok(Some((from + 2) as usize))
    }
}

/// Where a header line ends, which must not be empty.
pub open spec fn header_end(s: Seq<u8>) -> Result<Option<usize>> {
    if s.len() == 0 {
        Ok(None)
    } else if s[0] == CR {
        invalid_data("The header started with a CR.")
    } else {
        header_end_from(s, 1)
    }
}

/// Finds the index behind the CRNL which ends the first header. The byte behind it has to be known
/// to tell whether the header continues in the next line.
pub fn find_header_end(buf: &[u8]) -> (ret: Result<Option<usize>>)
    ensures
        ret == header_end(buf@),
{
    if buf.len() == 0 {
        return Ok(None);
    }
    // Check that the line does not start with a CR.
    if buf[0] == CR {
        return Err(Error::new(ErrorKind::InvalidData, "The header started with a CR."));
    }
    let mut idx: usize = 1;
    while buf.len() > idx && buf.len() - idx > 2
        invariant
            1 <= idx <= buf@.len() + 2,
            header_end_from(buf@, 1) == header_end_from(buf@, idx as int),
            buf@.len() > 0,
            buf@[0] != CR,
        decreases buf@.len() + 3 - idx,
    {
        if buf[idx] == CR {
            if buf[idx + 1] == NL {
                if is_lws(buf[idx + 2]) {
                    idx = idx + 3;
                    continue ;
                } else {
                    return Ok(Some(idx + 2));
                }
            } else {
                return Err(Error::new(ErrorKind::InvalidData, "A CR was not followed by NL."));
            }
        }
        idx = idx + 1;
    }

    // We did not yet find the end. (The line must end with a CRNL)
    Ok(None)
}

/// The index of the first byte which is no white space.
pub open spec fn next_non_lws(s: Seq<u8>, from: int) -> Option<usize> {
    next_index(s, from, |b: u8| !is_lws(b))
}

/// Where one run of white space ends. It may start with a CRNL if white space follows.
pub open spec fn lws_end(s: Seq<u8>) -> Result<Option<usize>> {
    if s.len() > 0 && s[0] == CR {
        if s.len() < 3 {
            Ok(None)
        } else if s[1] != NL {
            invalid_data("LWS had a CR that was not followed by a NL.")
        } else if !is_lws(s[2]) {
            Ok(Some(0))
        } else {
            Ok(next_non_lws(s, 3))
        }
    } else {
        Ok(next_non_lws(s, 0))
    }
}

/// Finds the end of one run of white space.
pub fn find_lws_end(buf: &[u8]) -> (ret: Result<Option<usize>>)
    ensures
        ret == lws_end(buf@),
        ret matches Ok(Some(idx)) ==> idx < buf@.len(),
{
    if buf.len() == 0 {
        return Ok(None);
    }
    let mut idx: usize = 0;
    if buf[0] == CR {
        if 3 > buf.len() {
            return Ok(None);
        }
        if buf[1] != NL {
            return Err(
                Error::new(
                    ErrorKind::InvalidData,
                    "LWS had a CR that was not followed by a NL.",
                ),
            );
        }
        if !is_lws(buf[2]) {
            // This is not LWS, but a regular CRNL.
            return Ok(Some(0));
        }
        idx = 3;
    }
    let ghost begin = idx as int;
    while buf.len() > idx
        invariant
            begin <= idx <= buf@.len(),
            next_non_lws(buf@, begin) == next_index(buf@, idx as int, |b: u8| !is_lws(b)),
            buf@.len() > 0,
            if buf@[0] == CR {
                buf@.len() >= 3 && buf@[1] == NL && is_lws(buf@[2]) && begin == 3
            } else {
                begin == 0
            },
        decreases buf@.len() - idx,
    {
        if !is_lws(buf[idx]) {
            return Ok(Some(idx));
        }
        idx = idx + 1;
    }

    Ok(None)
}

/// Where any number of runs of white space ends.
pub open spec fn multi_lws_end(s: Seq<u8>) -> Result<Option<usize>>
    decreases s.len(),
{
    match lws_end(s) {
        Err(err) => Err(err),
        Ok(None) => Ok(None),
        Ok(Some(n)) => if n == 0 {
            Ok(Some(0))
        } else if n < s.len() {
            match multi_lws_end(s.skip(n as int)) {
                Ok(Some(m)) => Ok(Some((n + m) as usize)),
                ret => ret,
            }
        } else {
            Ok(Some(n))
        },
    }
}

/// Finds the end of any number of runs of white space. The end is only known where another byte
/// follows.
pub fn find_multi_lws_end(buf: &[u8]) -> (ret: Result<Option<usize>>)
    ensures
        ret == multi_lws_end(buf@),
        ret matches Ok(Some(idx)) ==> idx < buf@.len(),
{
    if buf.len() == 0 {
        return Ok(None);
    }
    let mut idx: usize = 0;
    proof {
        assert(buf@.skip(0) =~= buf@);
    }
    while buf.len() > idx
        invariant_except_break
            idx < buf@.len(),
            multi_lws_end(buf@) == (match multi_lws_end(buf@.skip(idx as int)) {
                Ok(Some(m)) => Ok(Some((idx + m) as usize)),
                ret => ret,
            }),
        ensures
            idx < buf@.len(),
            multi_lws_end(buf@) == Ok::<Option<usize>, Error>(Some(idx)),
        decreases buf@.len() - idx,
    {
        let rest: &[u8] = vstd::slice::slice_subrange(buf, idx, buf.len());
        proof {
            assert(rest@ =~= buf@.skip(idx as int));
        }
        match find_lws_end(rest) {
            Ok(Some(new_idx)) => {
                if new_idx > 0 {
                    proof {
                        assert(rest@.skip(new_idx as int) =~= buf@.skip(idx + new_idx));
                        lemma_multi_lws_end_bound(buf@.skip(idx + new_idx));
                    }
                    idx = idx + new_idx;
                } else {
                    break ;
                }
            },
            Ok(None) => return Ok(None),
            Err(err) => return Err(err),
        }
    }

    Ok(Some(idx))
}

/// The end of white space lies in the text or right behind it.
proof fn lemma_multi_lws_end_bound(s: Seq<u8>)
    requires
        s.len() <= usize::MAX,
    ensures
        multi_lws_end(s) matches Ok(Some(n)) ==> n <= s.len(),
    decreases s.len(),
{
    law_next_index(s, 0, |b: u8| !is_lws(b));
    law_next_index(s, 3, |b: u8| !is_lws(b));
    if let Ok(Some(n)) = lws_end(s) {
        if 0 < n < s.len() {
            lemma_multi_lws_end_bound(s.skip(n as int));
        }
    }
}

/// Where a run of text ends.
pub open spec fn text_end(s: Seq<u8>) -> Option<usize> {
    next_index(s, 0, |b: u8| !is_text(b))
}

/// Finds the end of a run of text.
pub fn find_text_end(buf: &[u8]) -> (ret: Result<Option<usize>>)
    ensures
        ret == Ok::<Option<usize>, Error>(text_end(buf@)),
{
    let mut idx: usize = 0;
    while buf.len() > idx
        invariant
            idx <= buf@.len(),
            text_end(buf@) == next_index(buf@, idx as int, |b: u8| !is_text(b)),
        decreases buf@.len() - idx,
    {
        if !is_text(buf[idx]) {
            return Ok(Some(idx));
        }
        idx = idx + 1;
    }

    Ok(None)
}

/// Where a run of hexadecimal digits ends.
pub open spec fn hex_end(s: Seq<u8>) -> Option<usize> {
    next_index(s, 0, |b: u8| !is_hex(b))
}

/// Finds the end of a run of hexadecimal digits.
pub fn find_hex_end(buf: &[u8]) -> (ret: Result<Option<usize>>)
    ensures
        ret == Ok::<Option<usize>, Error>(hex_end(buf@)),
{
    let mut idx: usize = 0;
    while buf.len() > idx
        invariant
            idx <= buf@.len(),
            hex_end(buf@) == next_index(buf@, idx as int, |b: u8| !is_hex(b)),
        decreases buf@.len() - idx,
    {
        if !is_hex(buf[idx]) {
            return Ok(Some(idx));
        }
        idx = idx + 1;
    }

    Ok(None)
}

/// Where a token ends.
pub open spec fn token_end(s: Seq<u8>) -> Option<usize> {
    next_index(s, 0, |b: u8| !is_token(b))
}

/// Finds the end of a token.
pub fn find_token_end(buf: &[u8]) -> (ret: Result<Option<usize>>)
    ensures
        ret == Ok::<Option<usize>, Error>(token_end(buf@)),
{
    let mut idx: usize = 0;
    while buf.len() > idx
        invariant
            idx <= buf@.len(),
            token_end(buf@) == next_index(buf@, idx as int, |b: u8| !is_token(b)),
        decreases buf@.len() - idx,
    {
        if !is_token(buf[idx]) {
            return Ok(Some(idx));
        }
        idx = idx + 1;
    }

    Ok(None)
}

/// Finds the end of a quoted string, which is taken to be right behind the opening quote.
pub fn find_quoted_string_end(buf: &[u8]) -> (ret: Result<Option<usize>>)
    ensures
        ret == if buf@.len() == 0 {
            Ok(None)
        } else if buf@[0] == DQ {
            Ok(Some(1usize))
        } else {
            invalid_data("Quoted-string did not start with a '\"'.")
        },
{
    if buf.len() == 0 {
        return Ok(None);
    }
    if buf[0] != DQ {
        return Err(
            Error::new(ErrorKind::InvalidData, "Quoted-string did not start with a '\"'."),
        );
    }

    Ok(Some(1))
}

/// Where the line with the size of a chunk ends.
pub open spec fn chunk_header_end(s: Seq<u8>) -> Result<Option<usize>> {
    if s.len() == 0 {
        Ok(None)
    } else if !is_hex(s[0]) {
        invalid_data("Chunked-Encoding error: First char as not hex!")
    } else {
        match hex_end(s) {
            None => Ok(None),
            Some(i) => if s[i as int] == SEMICOLON {
                chunk_extension_end(s.skip(i as int))
            } else if s[i as int] == CR && i + 1 >= s.len() {
                Ok(None)
            } else if s[i as int] == CR && s[i + 1] == NL {
                Ok(Some((i + 2) as usize))
            } else {
                invalid_data("Chunked-Encoding error: Invalid chunk header!")
            },
        }
    }
}

/// Finds the index behind the CRNL which ends the line with the size of a chunk.
pub fn find_chunk_header_end(buf: &[u8]) -> (ret: Result<Option<usize>>)
    ensures
        ret == chunk_header_end(buf@),
        ret matches Ok(Some(idx)) ==> hex_end(buf@) == Some((idx - 2) as usize) && 3 <= idx
            <= buf@.len(),
{
    if buf.len() == 0 {
        return Ok(None);
    }
    // Make sure the first letter is a hex one.
    if !is_hex(buf[0]) {
        return Err(
            Error::new(
                ErrorKind::InvalidData,
                "Chunked-Encoding error: First char as not hex!",
            ),
        );
    }
    // Find the chunk-size.
    let idx: usize = match find_hex_end(buf) {
        Ok(Some(idx)) => idx,
        Ok(None) => return Ok(None),
        Err(err) => return Err(err),
    };
    proof {
        law_next_index(buf@, 0, |b: u8| !is_hex(b));
    }
    let b: u8 = buf[idx];
    if b == SEMICOLON {
        // An extension is either incomplete or invalid.
        let rest: &[u8] = vstd::slice::slice_subrange(buf, idx, buf.len());
        proof {
            assert(rest@ =~= buf@.skip(idx as int));
        }
        return find_chunk_header_extension_end(rest);
    }
    if b == CR {
        if idx + 1 >= buf.len() {
            return Ok(None);
        }
        if buf[idx + 1] == NL {
            return Ok(Some(idx + 2));
        }
    }

    Err(Error::new(ErrorKind::InvalidData, "Chunked-Encoding error: Invalid chunk header!"))
}

/// The outcome of looking for the end of a chunk extension. As soon as the name of the extension
/// is complete, the extension is rejected.
pub open spec fn chunk_extension_end(s: Seq<u8>) -> Result<Option<usize>> {
    if s.len() == 0 {
        Ok(None)
    } else if s[0] != SEMICOLON {
        invalid_data("Chunked-Encoding error: chunk-extension did not start with ';'.")
    } else if token_end(s.skip(1)) is None {
        Ok(None)
    } else {
        invalid_data("Chunked-Encoding error: chunk-extension did not contain the '='.")
    }
}

/// Looks for the end of a chunk extension. The `=` is looked for on the last char of the name of
/// the extension, so that no extension is accepted.
pub fn find_chunk_header_extension_end(buf: &[u8]) -> (ret: Result<Option<usize>>)
    ensures
        ret == chunk_extension_end(buf@),
        ret matches Ok(end) ==> end is None,
{
    if buf.len() == 0 {
        return Ok(None);
    }
    // Make sure the first letter is ";".
    if buf[0] != SEMICOLON {
        return Err(
            Error::new(
                ErrorKind::InvalidData,
                "Chunked-Encoding error: chunk-extension did not start with ';'.",
            ),
        );
    }
    // Find the chunk-ext-name.
    let rest: &[u8] = vstd::slice::slice_subrange(buf, 1, buf.len());
    proof {
        assert(rest@ =~= buf@.skip(1));
    }
    match find_token_end(rest) {
        Ok(Some(_)) => Err(
            Error::new(
                ErrorKind::InvalidData,
                "Chunked-Encoding error: chunk-extension did not contain the '='.",
            ),
        ),
        Ok(None) => Ok(None),
        Err(err) => Err(err),
    }
}

/// The version which the last part of a start line names. An unknown version counts as HTTP/1.1.
pub open spec fn named_version(s: Seq<u8>) -> Version {
    if s == http_1_0() {
        Version::Http10
    } else if s == http_2_0() {
        Version::Http2
    } else {
        Version::Http11
    }
}

/// Compares two byte strings.
pub fn bytes_equal(a: &[u8], b: &[u8]) -> (ret: bool)
    ensures
        ret == (a@ == b@),
{
    if a.len() != b.len() {
        return false;
    }
    let mut i: usize = 0;
    while i < a.len()
        invariant
            i <= a@.len(),
            a@.len() == b@.len(),
            forall|j: int| 0 <= j < i ==> a@[j] == b@[j],
        decreases a@.len() - i,
    {
        if a[i] != b[i] {
            return false;
        }
        i = i + 1;
    }
    proof {
        assert(a@ =~= b@);
    }

    true
}

/// Tells which version the last part of a start line names.
pub fn parse_version(version: &[u8]) -> (ret: Version)
    ensures
        ret == named_version(version@),
{
    let http_1_0: [u8; 8] = [72, 84, 84, 80, 47, 49, 46, 48];
    let http_2_0: [u8; 8] = [72, 84, 84, 80, 47, 50, 46, 48];
    proof {
        assert(http_1_0@ =~= self::http_1_0());
        assert(http_2_0@ =~= self::http_2_0());
    }
    if bytes_equal(version, http_1_0.as_slice()) {
        Version::Http10
    } else if bytes_equal(version, http_2_0.as_slice()) {
        Version::Http2
    } else {
        // Either HTTP/1.1 or something unknown.
        Version::Http11
    }
}

/// The parts of a start line: the method, the target and the version.
pub type StartLine = (Vec<u8>, Vec<u8>, Version);

/// What the parts of a start line hold.
pub type StartLineView = (Seq<u8>, Seq<u8>, Version);

/// The parsed start line seen through the views of its parts.
pub open spec fn start_line_view(ret: Result<StartLine>) -> Result<StartLineView> {
    match ret {
        Ok(line) => Ok((line.0@, line.1@, line.2)),
        Err(err) => Err(err),
    }
}

/// The parts of the start line `s`, which includes its CRNL.
pub open spec fn split_line(s: Seq<u8>) -> Result<StartLineView> {
    match next_sp(s) {
        None => invalid_data("Start line do not contain a SP."),
        Some(a) => if a + 1 >= s.len() {
            invalid_data("Start line ended early.")
        } else if !crate::foreign::valid_method(s.take(a as int)) {
            invalid_data("Invalid http method.")
        } else {
            match next_sp(s.skip(a + 1)) {
                None => invalid_data("Start line do not contain a second SP."),
                Some(b) => if a + 1 + b + 8 >= s.len() {
                    invalid_data("Start line ended early.")
                } else {
                    Ok(
                        (
                            s.take(a as int),
                            s.subrange(a + 1, a + 1 + b),
                            named_version(s.subrange(a + 1 + b + 1, s.len() - 2)),
                        ),
                    )
                },
            }
        },
    }
}

/// Splits a start line at its spaces and checks everything but the target.
pub fn split_start_line(buf: &[u8]) -> (ret: Result<StartLine>)
    ensures
        start_line_view(ret) == split_line(buf@),
{
    let len: usize = buf.len();
    // Find the method.
    let end: usize = match find_next_sp(buf) {
        Ok(Some(idx)) => idx,
        _ => return Err(Error::new(ErrorKind::InvalidData, "Start line do not contain a SP.")),
    };
    proof {
        law_next_index(buf@, 0, |b: u8| b == SP);
    }
    // Make sure there is still more data.
    if end + 1 >= len {
        return Err(Error::new(ErrorKind::InvalidData, "Start line ended early."));
    }
    let method: &[u8] = vstd::slice::slice_subrange(buf, 0, end);
    proof {
        assert(method@ =~= buf@.take(end as int));
    }
    if !is_valid_method(method) {
        return Err(Error::new(ErrorKind::InvalidData, "Invalid http method."));
    }
    let start: usize = end + 1;
    // Find the uri.
    let rest: &[u8] = vstd::slice::slice_subrange(buf, start, buf.len());
    proof {
        assert(rest@ =~= buf@.skip(start as int));
        law_next_index(rest@, 0, |b: u8| b == SP);
    }
    let end: usize = match find_next_sp(rest) {
        Ok(Some(idx)) => start + idx,
        _ => return Err(
            Error::new(ErrorKind::InvalidData, "Start line do not contain a second SP."),
        ),
    };
    // Make sure there is still more data.
    if buf.len() - end <= 8 {
        return Err(Error::new(ErrorKind::InvalidData, "Start line ended early."));
    }
    let target: &[u8] = vstd::slice::slice_subrange(buf, start, end);
    // Parse the http version.
    let version = parse_version(vstd::slice::slice_subrange(buf, end + 1, buf.len() - 2));

    Ok((vstd::slice::slice_to_vec(method), vstd::slice::slice_to_vec(target), version))
}

/// The parts of the start line `s`, whose target has to be one that [`uri_path`] knows.
pub open spec fn parsed_line(s: Seq<u8>) -> Result<StartLineView> {
    match split_line(s) {
        Ok(line) => if crate::foreign::path_of_uri(line.1) is Some {
            Ok(line)
        } else {
            invalid_data("URI was invalid.")
        },
        Err(err) => Err(err),
    }
}

/// Parses a start line, which includes its CRNL.
pub fn parse_start_line2(buf: &[u8]) -> (ret: Result<StartLine>)
    ensures
        start_line_view(ret) == parsed_line(buf@),
{
    let line = match split_start_line(buf) {
        Ok(line) => line,
        Err(err) => return Err(err),
    };
    if uri_path(line.1.as_slice()).is_none() {
        return Err(Error::new(ErrorKind::InvalidData, "URI was invalid."));
    }

    Ok(line)
}

/// A header line: the name in lower case and the parts of the value, which were separated by
/// line breaks.
pub type HeaderLine = (Vec<u8>, Vec<Vec<u8>>);

/// What a header line holds.
pub type HeaderLineView = (Seq<u8>, Seq<Seq<u8>>);

/// What a list of byte strings holds.
pub open spec fn views(list: Seq<Vec<u8>>) -> Seq<Seq<u8>> {
    Seq::new(list.len(), |i: int| list[i]@)
}

/// The parsed header line seen through the views of its parts.
pub open spec fn header_line_view(ret: Result<HeaderLine>) -> Result<HeaderLineView> {
    match ret {
        Ok(line) => Ok((line.0@, views(line.1@))),
        Err(err) => Err(err),
    }
}

/// The parts of the header value which starts at `from`, behind the parts `front`.
pub open spec fn values_from(s: Seq<u8>, from: int, front: Seq<Seq<u8>>) -> Result<Seq<Seq<u8>>>
    decreases s.len() - from,
{
    if from >= s.len() || from < 0 {
        other_error("Implementation error. (invalid header 8)")
    } else if is_text(s[from]) {
        match text_end(s.skip(from)) {
            Some(n) => if 0 < n && from + n <= s.len() {
                values_from(s, from + n, front.push(s.subrange(from, from + n)))
            } else {
                arbitrary()
            },
            None => other_error("Implementation error. (invalid header 5)"),
        }
    } else if is_lws_full(s[from]) {
        match multi_lws_end(s.skip(from)) {
            Ok(Some(n)) => if n == 0 {
                Ok(front)
            } else if from + n <= s.len() {
                values_from(s, from + n, front)
            } else {
                arbitrary()
            },
            Ok(None) => other_error("Implementation error. (invalid header 6)"),
            Err(err) => Err(err),
        }
    } else {
        other_error("Implementation error. (invalid header 7)")
    }
}

/// The name and the parts of the value of the header line `s`, which includes its CRNL and the
/// byte behind it.
pub open spec fn parsed_header(s: Seq<u8>) -> Result<HeaderLineView> {
    if s.len() == 0 {
        other_error("Implementation error. (invalid header 1)")
    } else if !is_token(s[0]) {
        other_error("Implementation error. (the header name did not start with a token)")
    } else {
        match token_end(s) {
            None => other_error("Implementation error. (invalid header 2)"),
            Some(i) => if !crate::foreign::valid_header_name(s.take(i as int)) {
                invalid_data("The header name was invalid.")
            } else if i + 1 >= s.len() {
                other_error("Implementation error. (invalid header 3)")
            } else if s[i as int] != COLON {
                invalid_data("The header name token was not followed by a ':'.")
            } else {
                match multi_lws_end(s.skip(i + 1)) {
                    Err(err) => Err(err),
                    Ok(None) => other_error("Implementation error. (invalid header 4)"),
                    Ok(Some(n)) => match values_from(s, i + n + 1, Seq::empty()) {
                        Ok(values) => Ok(
                            (crate::foreign::lower_case(s.take(i as int)), values),
                        ),
                        Err(err) => Err(err),
                    },
                }
            },
        }
    }
}

/// Parses the value of a header line from `begin` on.
fn parse_header_values(buf: &[u8], begin: usize) -> (ret: Result<Vec<Vec<u8>>>)
    ensures
        (match ret {
            Ok(values) => Ok(views(values@)),
            Err(err) => Err(err),
        }) == values_from(buf@, begin as int, Seq::empty()),
{
    let mut idx: usize = begin;
    let mut values: Vec<Vec<u8>> = Vec::new();
    proof {
        assert(views(values@) =~= Seq::empty());
    }
    while buf.len() > idx
        invariant
            values_from(buf@, idx as int, views(values@)) == values_from(
                buf@,
                begin as int,
                Seq::empty(),
            ),
        decreases buf@.len() - idx,
    {
        let b: u8 = buf[idx];
        let rest: &[u8] = vstd::slice::slice_subrange(buf, idx, buf.len());
        proof {
            assert(rest@ =~= buf@.skip(idx as int));
        }
        if is_text(b) {
            proof {
                law_next_index(rest@, 0, |b: u8| !is_text(b));
            }
            match find_text_end(rest) {
                Ok(Some(end)) => {
                    let part: &[u8] = vstd::slice::slice_subrange(rest, 0, end);
                    proof {
                        assert(part@ =~= buf@.subrange(idx as int, idx + end));
                        assert forall|i: int| 0 <= i < part@.len() implies is_text(
                            #[trigger] part@[i],
                        ) by {
                            assert(part@[i] == rest@[i]);
                        }
                    }
                    let value: Vec<u8> = match header_value(part) {
                        Some(value) => value,
                        None => return Err(
                            Error::new(ErrorKind::InvalidData, "The header name was invalid."),
                        ),
                    };
                    let ghost before = values@;
                    values.push(value);
                    proof {
                        assert(views(values@) =~= views(before).push(value@));
                    }
                    idx = idx + end;
                },
                _ => return Err(
                    Error::new(ErrorKind::Other, "Implementation error. (invalid header 5)"),
                ),
            }
            continue ;
        }
        if is_lws_full(b) {
            match find_multi_lws_end(rest) {
                Ok(Some(end)) => {
                    if end > 0 {
                        idx = idx + end;
                    } else {
                        // We found the line end.
                        return Ok(values);
                    }
                },
                Ok(None) => return Err(
                    Error::new(ErrorKind::Other, "Implementation error. (invalid header 6)"),
                ),
                Err(err) => return Err(err),
            }
            continue ;
        }
        return Err(Error::new(ErrorKind::Other, "Implementation error. (invalid header 7)"));
    }

    Err(Error::new(ErrorKind::Other, "Implementation error. (invalid header 8)"))
}

/// Parses a header line, which includes its CRNL and the byte behind it.
pub fn parse_request_header_new(buf: &[u8]) -> (ret: Result<HeaderLine>)
    ensures
        header_line_view(ret) == parsed_header(buf@),
{
    if buf.len() == 0 {
        return Err(Error::new(ErrorKind::Other, "Implementation error. (invalid header 1)"));
    }
    // Check that the line starts with a token.
    if !is_token(buf[0]) {
        return Err(
            Error::new(
                ErrorKind::Other,
                "Implementation error. (the header name did not start with a token)",
            ),
        );
    }
    // Find the index where the header name ends.
    let idx: usize = match find_token_end(buf) {
        Ok(Some(idx)) => idx,
        _ => return Err(
            Error::new(ErrorKind::Other, "Implementation error. (invalid header 2)"),
        ),
    };
    proof {
        law_next_index(buf@, 0, |b: u8| !is_token(b));
    }
    let name: &[u8] = vstd::slice::slice_subrange(buf, 0, idx);
    proof {
        assert(name@ =~= buf@.take(idx as int));
    }
    let name: Vec<u8> = match header_name(name) {
        Some(name) => name,
        None => return Err(Error::new(ErrorKind::InvalidData, "The header name was invalid.")),
    };
    // Make sure we can read at least two more bytes (the seperator and the byte after it).
    if idx + 1 >= buf.len() {
        return Err(Error::new(ErrorKind::Other, "Implementation error. (invalid header 3)"));
    }
    if buf[idx] != COLON {
        return Err(
            Error::new(
                ErrorKind::InvalidData,
                "The header name token was not followed by a ':'.",
            ),
        );
    }
    // Find the index where the (optional) LWS ends.
    let rest: &[u8] = vstd::slice::slice_subrange(buf, idx + 1, buf.len());
    proof {
        assert(rest@ =~= buf@.skip(idx + 1));
    }
    let begin: usize = match find_multi_lws_end(rest) {
        Ok(Some(new_idx)) => idx + new_idx + 1,
        Ok(None) => return Err(
            Error::new(ErrorKind::Other, "Implementation error. (invalid header 4)"),
        ),
        Err(err) => return Err(err),
    };
    match parse_header_values(buf, begin) {
        Ok(values) => Ok((name, values)),
        Err(err) => Err(err),
    }
}

/// The value of a hexadecimal digit.
pub open spec fn hex_digit(b: u8) -> int {
    if 48 <= b <= 57 {
        b - 48
    } else if 65 <= b <= 70 {
        b - 55
    } else {
        b - 87
    }
}

/// Parses a single hexadecimal digit.
pub fn parse_hex_byte(b: u8) -> (ret: Result<usize>)
    ensures
        ret == if is_hex(b) {
            Ok(hex_digit(b) as usize)
        } else {
            invalid_data("Invalid hex char!")
        },
        is_hex(b) ==> 0 <= hex_digit(b) < 16,
{
    match b {
        48..=57 => Ok((b - 48) as usize),
        97..=102 => Ok((b - 87) as usize),
        65..=70 => Ok((b - 55) as usize),
        _ => Err(Error::new(ErrorKind::InvalidData, "Invalid hex char!")),
    }
}

/// The number which a string of hexadecimal digits stands for.
pub open spec fn hex_number(s: Seq<u8>) -> int
    decreases s.len(),
{
    if s.len() == 0 {
        0
    } else {
        16 * hex_number(s.drop_last()) + hex_digit(s.last())
    }
}

/// Whether all bytes are hexadecimal digits.
pub open spec fn all_hex(s: Seq<u8>) -> bool {
    forall|i: int| 0 <= i < s.len() ==> is_hex(#[trigger] s[i])
}

/// How many hexadecimal digits fit in a [`usize`].
pub open spec fn hex_capacity() -> int {
    usize::BITS as int / 4
}

/// Whether the digits can be looked at one by one, from the last one on, without running out of
/// room in a [`usize`]: either they fit, or one of those looked at first is invalid.
pub open spec fn hex_fits(s: Seq<u8>) -> bool {
    s.len() <= hex_capacity() || !all_hex(s.skip(s.len() - hex_capacity() - 1))
}

/// The outcome of parsing a hexadecimal number.
pub open spec fn parsed_hex(s: Seq<u8>) -> Result<usize> {
    if s.len() == 0 {
        Err(Error { kind: ErrorKind::InvalidInput, message: "Empty buffer." })
    } else if all_hex(s) {
        Ok(hex_number(s) as usize)
    } else {
        invalid_data("Invalid hex char!")
    }
}

/// The first number which does not fit in `n` hexadecimal digits.
spec fn hex_limit(n: int) -> int
    decreases n,
{
    if n <= 0 {
        1
    } else {
        16 * hex_limit(n - 1)
    }
}

/// The limits of eight and sixteen digits are those of the two sizes which [`usize`] can have.
proof fn lemma_hex_limits()
    ensures
        hex_limit(hex_capacity()) == usize::MAX + 1,
{
    assert(hex_limit(8) == 0x1_0000_0000 && hex_limit(16) == 0x1_0000_0000_0000_0000) by {
        reveal_with_fuel(hex_limit, 17);
    }
}

/// More digits never lower the limit.
proof fn lemma_hex_limit_grows(a: int, b: int)
    requires
        0 <= a <= b,
    ensures
        1 <= hex_limit(a) <= hex_limit(b),
    decreases b,
{
    if a < b {
        lemma_hex_limit_grows(a, b - 1);
    } else if a > 0 {
        lemma_hex_limit_grows(a - 1, a - 1);
    }
}

/// A string of digits stands for a number below its limit.
pub proof fn law_hex_number_bound(s: Seq<u8>)
    requires
        all_hex(s),
        s.len() <= hex_capacity(),
    ensures
        0 <= hex_number(s) <= usize::MAX,
{
    lemma_hex_number_bound(s);
    lemma_hex_limit_grows(s.len() as int, hex_capacity());
    lemma_hex_limits();
}

proof fn lemma_hex_number_bound(s: Seq<u8>)
    requires
        all_hex(s),
    ensures
        0 <= hex_number(s) < hex_limit(s.len() as int),
    decreases s.len(),
{
    if s.len() > 0 {
        assert(all_hex(s.drop_last())) by {
            assert forall|i: int| 0 <= i < s.len() - 1 implies is_hex(
                #[trigger] s.drop_last()[i],
            ) by {
                assert(s.drop_last()[i] == s[i]);
            }
        }
        lemma_hex_number_bound(s.drop_last());
        assert(is_hex(s[s.len() - 1]));
    }
}

/// Tests whether all bytes are hexadecimal digits.
pub fn is_all_hex(buf: &[u8]) -> (ret: bool)
    ensures
        ret == all_hex(buf@),
{
    let mut i: usize = 0;
    while i < buf.len()
        invariant
            i <= buf@.len(),
            forall|j: int| 0 <= j < i ==> is_hex(#[trigger] buf@[j]),
        decreases buf@.len() - i,
    {
        if !is_hex(buf[i]) {
            return false;
        }
        i = i + 1;
    }

    true
}

/// Parses a hexadecimal number.
pub fn parse_hex(buf: &[u8]) -> (ret: Result<usize>)
    requires
        hex_fits(buf@),
    ensures
        ret == parsed_hex(buf@),
{
    if buf.len() == 0 {
        return Err(Error::new(ErrorKind::InvalidInput, "Empty buffer."));
    }
    if !is_all_hex(buf) {
        return Err(Error::new(ErrorKind::InvalidData, "Invalid hex char!"));
    }
    let mut total: usize = 0;
    let mut idx: usize = 0;
    proof {
        if buf@.len() > hex_capacity() {
            let last = buf@.skip(buf@.len() - hex_capacity() - 1);
            assert forall|i: int| 0 <= i < last.len() implies is_hex(#[trigger] last[i]) by {
                assert(last[i] == buf@[buf@.len() - hex_capacity() - 1 + i]);
            }
        }
    }
    while idx < buf.len()
        invariant
            idx <= buf@.len(),
            buf@.len() <= hex_capacity(),
            all_hex(buf@),
            total == hex_number(buf@.take(idx as int)),
        decreases buf@.len() - idx,
    {
        let ghost next = buf@.take(idx + 1);
        proof {
            assert(next.drop_last() =~= buf@.take(idx as int));
            assert(all_hex(next)) by {
                assert forall|i: int| 0 <= i < next.len() implies is_hex(#[trigger] next[i]) by {
                    assert(next[i] == buf@[i]);
                }
            }
            law_hex_number_bound(next);
        }
        let num: usize = match parse_hex_byte(buf[idx]) {
            Ok(num) => num,
            Err(err) => return Err(err),
        };
        total = total * 16 + num;
        idx = idx + 1;
    }
    proof {
        assert(buf@.take(idx as int) =~= buf@);
    }

    Ok(total)
}

/// The digits with which a chunk header starts.
pub open spec fn chunk_digits(s: Seq<u8>) -> Seq<u8> {
    match hex_end(s) {
        Some(i) => s.take(i as int),
        None => s,
    }
}

/// The size of the chunk which a chunk header announces.
pub open spec fn chunk_size(s: Seq<u8>) -> Result<usize> {
    if s.len() == 0 {
        Err(Error { kind: ErrorKind::InvalidInput, message: "Empty buffer." })
    } else if hex_end(s) is None {
        other_error("Implementation error.")
    } else {
        parsed_hex(chunk_digits(s))
    }
}

/// Tests whether [`parse_chunk_header`] can be called for a chunk header.
pub fn chunk_size_fits(buf: &[u8]) -> (ret: bool)
    ensures
        ret == (hex_end(buf@) is None || chunk_digits(buf@).len() <= hex_capacity()),
{
    let len: usize = buf.len();
    let capacity: usize = (usize::BITS / 4) as usize;
    match find_hex_end(buf) {
        Ok(Some(idx)) => {
            proof {
                law_next_index(buf@, 0, |b: u8| !is_hex(b));
            }
            idx <= capacity
        },
        _ => true,
    }
}

/// Parses a chunk header, returning the size of the chunk.
pub fn parse_chunk_header(buf: &[u8]) -> (ret: Result<usize>)
    requires
        hex_end(buf@) is Some ==> chunk_digits(buf@).len() <= hex_capacity(),
    ensures
        ret == chunk_size(buf@),
{
    if buf.len() == 0 {
        return Err(Error::new(ErrorKind::InvalidInput, "Empty buffer."));
    }
    // Find the chunk-size.
    let idx: usize = match find_hex_end(buf) {
        Ok(Some(idx)) => idx,
        _ => return Err(Error::new(ErrorKind::Other, "Implementation error.")),
    };
    proof {
        law_next_index(buf@, 0, |b: u8| !is_hex(b));
    }
    let digits: &[u8] = vstd::slice::slice_subrange(buf, 0, idx);
    proof {
        assert(digits@ =~= chunk_digits(buf@));
    }

    parse_hex(digits)
}

/// A chunk header which was found complete holds a valid size, unless the size has too many digits.
pub proof fn law_found_chunk_header_has_size(s: Seq<u8>)
    requires
        s.len() <= usize::MAX,
        chunk_header_end(s) matches Ok(Some(_)),
        chunk_digits(s).len() <= hex_capacity(),
    ensures
        chunk_size(s) is Ok,
        chunk_size(s)->Ok_0 == hex_number(chunk_digits(s)),
{
    let digits = chunk_digits(s);
    law_next_index(s, 0, |b: u8| !is_hex(b));
    assert(all_hex(digits)) by {
        assert forall|i: int| 0 <= i < digits.len() implies is_hex(#[trigger] digits[i]) by {
            assert(digits[i] == s[i]);
        }
    }
    law_hex_number_bound(digits);
}

/// What comes behind the end of a chunk header has no influence on where it is found.
pub proof fn law_chunk_header_end_is_stable(s: Seq<u8>, more: Seq<u8>)
    requires
        (s + more).len() <= usize::MAX,
        chunk_header_end(s) matches Ok(Some(_)),
    ensures
        chunk_header_end(s + more) == chunk_header_end(s),
{
    let p = |b: u8| !is_hex(b);
    law_next_index(s, 0, p);
    lemma_next_index_stable(s, more, 0, p);
    let end = hex_end(s)->Some_0 as int;
    assert((s + more)[end] == s[end]);
    assert((s + more)[0] == s[0]);
    if s[end] == SEMICOLON {
        assert(chunk_extension_end(s.skip(end)) !is Ok || chunk_extension_end(s.skip(end))->Ok_0
            is None);
    }
    assert((s + more)[end + 1] == s[end + 1]);
}

/// A byte which was found is still the first one when more bytes are added.
proof fn lemma_next_index_stable(
    s: Seq<u8>,
    more: Seq<u8>,
    from: int,
    p: spec_fn(u8) -> bool,
)
    requires
        0 <= from,
        next_index(s, from, p) is Some,
    ensures
        next_index(s + more, from, p) == next_index(s, from, p),
    decreases s.len() - from,
{
    assert((s + more)[from] == s[from]);
    if !p(s[from]) {
        lemma_next_index_stable(s, more, from + 1, p);
    }
}

/// What comes behind the end of the start line has no influence on where it is found.
pub proof fn law_start_line_end_is_stable(s: Seq<u8>, more: Seq<u8>)
    requires
        start_line_end(s) matches Ok(Some(_)),
    ensures
        start_line_end(s + more) == start_line_end(s),
{
    let p = |b: u8| b == CR;
    lemma_next_index_stable(s, more, 0, p);
    let i = next_index(s, 0, p)->Some_0 as int;
    lemma_next_index_in_range(s, 0, p);
    assert((s + more)[i + 1] == s[i + 1]);
}

proof fn lemma_next_index_in_range(s: Seq<u8>, from: int, p: spec_fn(u8) -> bool)
    requires
        0 <= from,
    ensures
        s.len() <= usize::MAX ==> (next_index(s, from, p) matches Some(i) ==> from <= i < s.len()),
    decreases s.len() - from,
{
    if from < s.len() {
        lemma_next_index_in_range(s, from + 1, p);
    }
}

/// What comes behind the end of a header has no influence on where it is found.
pub proof fn law_header_end_is_stable(s: Seq<u8>, more: Seq<u8>)
    requires
        header_end(s) matches Ok(Some(_)),
    ensures
        header_end(s + more) == header_end(s),
{
    assert((s + more)[0] == s[0]);
    lemma_header_end_stable(s, more, 1);
}

proof fn lemma_header_end_stable(s: Seq<u8>, more: Seq<u8>, from: int)
    requires
        0 <= from,
        header_end_from(s, from) matches Ok(Some(_)),
    ensures
        header_end_from(s + more, from) == header_end_from(s, from),
    decreases s.len() - from,
{
    assert((s + more)[from] == s[from]);
    assert((s + more)[from + 1] == s[from + 1]);
    assert((s + more)[from + 2] == s[from + 2]);
    if s[from] != CR {
        lemma_header_end_stable(s, more, from + 1);
    } else if s[from + 1] == NL && is_lws(s[from + 2]) {
        lemma_header_end_stable(s, more, from + 3);
    }
}

/// The end of a header line lies behind its first bytes, and there is a byte behind it.
pub proof fn law_header_end_in_range(s: Seq<u8>)
    requires
        s.len() <= usize::MAX,
    ensures
        header_end(s) matches Ok(Some(idx)) ==> 3 <= idx < s.len(),
{
    lemma_header_end_in_range(s, 1);
}

proof fn lemma_header_end_in_range(s: Seq<u8>, from: int)
    requires
        1 <= from,
        s.len() <= usize::MAX,
    ensures
        header_end_from(s, from) matches Ok(Some(idx)) ==> 3 <= idx < s.len(),
    decreases s.len() - from,
{
    if s.len() > from + 2 {
        lemma_header_end_in_range(s, from + 1);
        lemma_header_end_in_range(s, from + 3);
    }
}

/// The end of a start line lies in the text or right behind it.
pub proof fn law_start_line_end_in_range(s: Seq<u8>)
    requires
        s.len() <= usize::MAX,
    ensures
        start_line_end(s) matches Ok(Some(idx)) ==> 0 < idx <= s.len(),
{
    law_next_index(s, 0, |b: u8| b == CR);
}

proof fn lemma_lws_end_stable(s: Seq<u8>, more: Seq<u8>)
    requires
        (s + more).len() <= usize::MAX,
        lws_end(s) matches Ok(Some(_)),
    ensures
        lws_end(s + more) == lws_end(s),
        lws_end(s) matches Ok(Some(n)) ==> n < s.len(),
{
    let p = |b: u8| !is_lws(b);
    law_next_index(s, 0, p);
    law_next_index(s, 3, p);
    assert(s.len() > 0);
    assert((s + more)[0] == s[0]);
    if s[0] == CR {
        assert((s + more)[1] == s[1]);
        assert((s + more)[2] == s[2]);
        if is_lws(s[2]) && s[1] == NL {
            lemma_next_index_stable(s, more, 3, p);
        }
    } else {
        lemma_next_index_stable(s, more, 0, p);
    }
}

proof fn lemma_multi_lws_end_stable(s: Seq<u8>, more: Seq<u8>)
    requires
        (s + more).len() <= usize::MAX,
        multi_lws_end(s) matches Ok(Some(_)),
    ensures
        multi_lws_end(s + more) == multi_lws_end(s),
    decreases s.len(),
{
    lemma_lws_end_stable(s, more);
    if let Ok(Some(n)) = lws_end(s) {
        if 0 < n < s.len() {
            assert((s + more).skip(n as int) =~= s.skip(n as int) + more);
            lemma_multi_lws_end_stable(s.skip(n as int), more);
        }
    }
}

proof fn lemma_values_from_stable(s: Seq<u8>, more: Seq<u8>, from: int, front: Seq<Seq<u8>>)
    requires
        (s + more).len() <= usize::MAX,
        values_from(s, from, front) is Ok,
    ensures
        values_from(s + more, from, front) == values_from(s, from, front),
    decreases s.len() - from,
{
    if 0 <= from < s.len() {
        let rest = s.skip(from);
        let whole = s + more;
        assert(whole[from] == s[from]);
        assert(whole.skip(from) =~= rest + more);
        if is_text(s[from]) {
            let p = |b: u8| !is_text(b);
            law_next_index(rest, 0, p);
            lemma_next_index_stable(rest, more, 0, p);
            let n = text_end(rest)->Some_0 as int;
            assert(rest[0] == s[from]);
            assert(0 < n);
            assert(whole.subrange(from, from + n) =~= s.subrange(from, from + n));
            lemma_values_from_stable(s, more, from + n, front.push(s.subrange(from, from + n)));
        } else if is_lws_full(s[from]) {
            lemma_multi_lws_end_stable(rest, more);
            lemma_multi_lws_end_bound(rest);
            let n = multi_lws_end(rest)->Ok_0->Some_0 as int;
            if n > 0 {
                lemma_values_from_stable(s, more, from + n, front);
            }
        }
    }
}

/// What comes behind a complete header line has no influence on what it holds.
pub proof fn law_parsed_header_is_stable(s: Seq<u8>, more: Seq<u8>)
    requires
        (s + more).len() <= usize::MAX,
        parsed_header(s) is Ok,
    ensures
        parsed_header(s + more) == parsed_header(s),
{
    let p = |b: u8| !is_token(b);
    let whole = s + more;
    assert(whole[0] == s[0]);
    law_next_index(s, 0, p);
    lemma_next_index_stable(s, more, 0, p);
    let i = token_end(s)->Some_0 as int;
    assert(whole.take(i) =~= s.take(i));
    assert(whole[i] == s[i]);
    assert(whole.skip(i + 1) =~= s.skip(i + 1) + more);
    lemma_multi_lws_end_stable(s.skip(i + 1), more);
    let n = multi_lws_end(s.skip(i + 1))->Ok_0->Some_0 as int;
    lemma_values_from_stable(s, more, i + n + 1, Seq::empty());
}

/// Whether all header values are acceptable.
pub open spec fn all_values_ok(values: Seq<Seq<u8>>) -> bool {
    forall|i: int|
        0 <= i < values.len() ==> crate::foreign::valid_header_value(#[trigger] values[i])
}

proof fn lemma_values_from_ok(s: Seq<u8>, from: int, front: Seq<Seq<u8>>)
    requires
        s.len() <= usize::MAX,
        all_values_ok(front),
    ensures
        values_from(s, from, front) matches Ok(values) ==> all_values_ok(values),
    decreases s.len() - from,
{
    if 0 <= from < s.len() {
        let rest = s.skip(from);
        if is_text(s[from]) {
            law_next_index(rest, 0, |b: u8| !is_text(b));
            assert(rest[0] == s[from]);
            if let Some(n) = text_end(rest) {
                if 0 < n && from + n <= s.len() {
                    let value = s.subrange(from, from + n);
                    assert forall|j: int| 0 <= j < value.len() implies {
                        let b = #[trigger] value[j];
                        b >= 32 && b != 127 || b == 9
                    } by {
                        assert(value[j] == rest[j]);
                    }
                    assert(crate::foreign::valid_header_value(value));
                    lemma_values_from_ok(s, from + n, front.push(value));
                }
            }
        } else if is_lws_full(s[from]) {
            lemma_multi_lws_end_bound(rest);
            if let Ok(Some(n)) = multi_lws_end(rest) {
                if n > 0 && from + n <= s.len() {
                    lemma_values_from_ok(s, from + n, front);
                }
            }
        }
    }
}

/// A header line which could be parsed holds a valid name in lower case and valid values.
pub proof fn law_parsed_header_is_valid(s: Seq<u8>)
    requires
        s.len() <= usize::MAX,
    ensures
        parsed_header(s) matches Ok((name, values)) ==> crate::foreign::valid_header_name(name)
            && crate::foreign::lower_case(name) == name && all_values_ok(values),
{
    if let Ok((name, values)) = parsed_header(s) {
        law_next_index(s, 0, |b: u8| !is_token(b));
        let i = token_end(s)->Some_0 as int;
        let n = multi_lws_end(s.skip(i + 1))->Ok_0->Some_0 as int;
        lemma_values_from_ok(s, i + n + 1, Seq::empty());
        let written = s.take(i);
        assert forall|j: int| 0 <= j < name.len() implies crate::foreign::is_header_name_char(
            #[trigger] name[j],
        ) by {
            assert(crate::foreign::is_header_name_char(written[j]));
        }
        assert(crate::foreign::lower_case(name) =~= name);
    }
}

/// Which bytes belong to which class: a token consists of letters, digits and some signs, text is
/// everything but control characters, and white space is a space or a tab.
pub proof fn law_byte_classes(b: u8)
    ensures
        is_token(b) <==> 48 <= b <= 57 || 65 <= b <= 90 || 97 <= b <= 122 || b == 33 || 35 <= b
            <= 39 || b == 42 || b == 43 || b == 45 || b == 46 || 94 <= b <= 96 || b == 124 || b
            == 126,
        is_text(b) <==> !(b < 32) && !(127 <= b < 160),
        is_lws(b) <==> b == 32 || b == 9,
        is_lws_full(b) <==> is_lws(b) || b == 13 || b == 10,
        is_hex(b) <==> exists|n: int|
            0 <= n < 16 && (#[trigger] crate::number::hex_char(n) == b || 10 <= n && b + 32
                == crate::number::hex_char(n)),
{
    if is_hex(b) {
        let n = hex_digit(b);
        if b >= 65 && b <= 70 {
            assert(b + 32 == crate::number::hex_char(n));
        } else {
            assert(b == crate::number::hex_char(n));
        }
    }
}

/// A byte which is found at a known place is the first one.
proof fn lemma_found_at(s: Seq<u8>, from: int, at: int, p: spec_fn(u8) -> bool)
    requires
        0 <= from <= at < s.len() <= usize::MAX,
        forall|j: int| from <= j < at ==> !p(#[trigger] s[j]),
        p(s[at]),
    ensures
        next_index(s, from, p) == Some(at as usize),
    decreases at - from,
{
    if from < at {
        lemma_found_at(s, from + 1, at, p);
    }
}

/// A start line ends behind its line end, if it has one. A carriage return without a line feed is
/// refused.
pub proof fn law_start_line_ends_at_line_end(line: Seq<u8>, next: u8, tail: Seq<u8>)
    requires
        forall|i: int| 0 <= i < line.len() ==> (#[trigger] line[i]) != 13,
        line.len() + tail.len() + 2 <= usize::MAX,
    ensures
        start_line_end(line) == Ok::<Option<usize>, Error>(None),
        start_line_end(line + seq![13u8]) == Ok::<Option<usize>, Error>(None),
        start_line_end(line + seq![13u8, 10u8] + tail) == Ok::<Option<usize>, Error>(
            Some((line.len() + 2) as usize),
        ),
        next != 10 ==> start_line_end(line + seq![13u8, next] + tail) is Err,
{
    let n = line.len() as int;
    law_next_index(line, 0, |b: u8| b == CR);
    let a = line + seq![13u8];
    assert forall|i: int| 0 <= i < n implies (#[trigger] a[i]) != 13 by {
        assert(a[i] == line[i]);
    }
    lemma_found_at(a, 0, n, |b: u8| b == CR);
    let b = line + seq![13u8, 10u8] + tail;
    assert forall|i: int| 0 <= i < n implies (#[trigger] b[i]) != 13 by {
        assert(b[i] == line[i]);
    }
    assert(b[n] == 13 && b[n + 1] == 10);
    lemma_found_at(b, 0, n, |b: u8| b == CR);
    let c = line + seq![13u8, next] + tail;
    assert forall|i: int| 0 <= i < n implies (#[trigger] c[i]) != 13 by {
        assert(c[i] == line[i]);
    }
    assert(c[n] == 13 && c[n + 1] == next);
    lemma_found_at(c, 0, n, |b: u8| b == CR);
}

/// A start line is read back as it was written: its method, its target, and its version, where
/// everything but the names of HTTP/1.0 and HTTP/2.0 counts as HTTP/1.1.
#[verifier::spinoff_prover]
#[verifier::rlimit(30)]
pub proof fn law_start_line_is_read_back(
    method: Seq<u8>,
    target: Seq<u8>,
    version: Seq<u8>,
    end: Seq<u8>,
)
    requires
        crate::foreign::valid_method(method),
        crate::foreign::path_of_uri(target) is Some,
        forall|i: int| 0 <= i < target.len() ==> (#[trigger] target[i]) != 32,
        version.len() >= 6,
        end.len() == 2,
        method.len() + target.len() + version.len() + 4 <= usize::MAX,
    ensures
        parsed_line(method + seq![32u8] + target + seq![32u8] + version + end) == Ok::<
            StartLineView,
            Error,
        >(
            (
                method,
                target,
                if version == Version::Http10.name() {
                    Version::Http10
                } else if version == Version::Http2.name() {
                    Version::Http2
                } else {
                    Version::Http11
                },
            ),
        ),
{
    let s = method + seq![32u8] + target + seq![32u8] + version + end;
    let a = method.len() as int;
    let b = target.len() as int;
    assert forall|i: int| 0 <= i < a implies (#[trigger] s[i]) != 32 by {
        assert(crate::foreign::is_method_char(method[i]));
        assert(s[i] == method[i]);
    }
    assert(s[a] == 32);
    lemma_found_at(s, 0, a, |b: u8| b == SP);
    assert(s.take(a) =~= method);
    let behind = s.skip(a + 1);
    assert forall|i: int| 0 <= i < b implies (#[trigger] behind[i]) != 32 by {
        assert(behind[i] == target[i]);
    }
    assert(behind[b] == 32);
    lemma_found_at(behind, 0, b, |b: u8| b == SP);
    assert(s.subrange(a + 1, a + 1 + b) =~= target);
    assert(s.subrange(a + 1 + b + 1, s.len() - 2) =~= version);
    reveal_strlit("HTTP/1.0");
    reveal_strlit("HTTP/2.0");
    assert(Version::Http10.name() =~= http_1_0());
    assert(Version::Http2.name() =~= http_2_0());
}

/// What is accepted as a start line is a method, a target and a version with spaces between them.
pub proof fn law_accepted_start_line(s: Seq<u8>)
    requires
        s.len() <= usize::MAX,
    ensures
        parsed_line(s) matches Ok((method, target, version)) ==> {
            &&& crate::foreign::valid_method(method)
            &&& crate::foreign::path_of_uri(target) is Some
            &&& (method + seq![32u8] + target + seq![32u8]).is_prefix_of(s)
            &&& forall|i: int| 0 <= i < target.len() ==> (#[trigger] target[i]) != 32
            &&& method.len() + target.len() + 10 <= s.len()
        },
{
    if let Ok((method, target, version)) = parsed_line(s) {
        law_next_index(s, 0, |b: u8| b == SP);
        let a = method.len() as int;
        let behind = s.skip(a + 1);
        law_next_index(behind, 0, |b: u8| b == SP);
        let b = target.len() as int;
        let front = method + seq![32u8] + target + seq![32u8];
        assert(behind[b] == s[a + 1 + b]);
        assert(front =~= s.take(front.len() as int));
        assert forall|i: int| 0 <= i < target.len() implies (#[trigger] target[i]) != 32 by {
            assert(target[i] == behind[i]);
        }
    }
}

/// The parts of a header value, each in a line of its own: every line but the first one starts with
/// white space.
pub open spec fn folded(values: Seq<Seq<u8>>) -> Seq<u8>
    decreases values.len(),
{
    if values.len() == 0 {
        Seq::empty()
    } else if values.len() == 1 {
        values[0] + seq![13u8, 10u8]
    } else {
        values[0] + seq![13u8, 10u8, 32u8] + folded(values.skip(1))
    }
}

/// Whether a part of a header value consists of text and starts with no white space.
pub open spec fn is_plain_value(value: Seq<u8>) -> bool {
    &&& value.len() > 0
    &&& forall|i: int| 0 <= i < value.len() ==> is_text(#[trigger] value[i])
    &&& !is_lws(value[0])
}

/// A folded value is read part by part.
#[verifier::spinoff_prover]
#[verifier::rlimit(50)]
proof fn lemma_folded_values(
    s: Seq<u8>,
    from: int,
    front: Seq<Seq<u8>>,
    values: Seq<Seq<u8>>,
    tail: Seq<u8>,
)
    requires
        0 <= from < s.len() <= usize::MAX,
        values.len() > 0,
        forall|i: int| 0 <= i < values.len() ==> is_plain_value(#[trigger] values[i]),
        tail.len() > 0,
        !is_lws(tail[0]),
        s.skip(from) == folded(values) + tail,
    ensures
        values_from(s, from, front) == Ok::<Seq<Seq<u8>>, Error>(front + values),
    decreases values.len(),
{
    let first = values[0];
    let m = first.len() as int;
    let rest = s.skip(from);
    assert(is_plain_value(first));
    assert(folded(values).len() >= m + 2);
    assert forall|i: int| 0 <= i < m implies #[trigger] rest[i] == first[i] by {
        assert(folded(values)[i] == first[i]);
    }
    assert(rest[m] == folded(values)[m] && rest[m + 1] == folded(values)[m + 1]);
    assert(rest[m] == 13 && rest[m + 1] == 10);
    assert(s[from] == rest[0]);
    assert(is_text(first[0]));
    lemma_found_at(rest, 0, m, |b: u8| !is_text(b));
    assert(s.subrange(from, from + m) =~= first);
    let end = s.skip(from + m);
    assert forall|i: int| 0 <= i < end.len() implies #[trigger] end[i] == rest[m + i] by {}
    let next = front.push(first);
    assert(s[from + m] == rest[m]);
    if values.len() == 1 {
        assert(rest[m + 2] == tail[0]);
        assert(end[2] == tail[0]);
        assert(multi_lws_end(end) == Ok::<Option<usize>, Error>(Some(0)));
        assert(values_from(s, from + m, next) == Ok::<Seq<Seq<u8>>, Error>(next));
        assert(next =~= front + values);
    } else {
        let others = values.skip(1);
        assert forall|i: int| 0 <= i < others.len() implies is_plain_value(
            #[trigger] others[i],
        ) by {
            assert(others[i] == values[i + 1]);
        }
        assert(others[0] == values[1]);
        assert(folded(values)[m + 2] == 32);
        assert(end[2] == 32);
        let behind = s.skip(from + m + 3);
        assert(rest =~= first + seq![13u8, 10u8, 32u8] + folded(others) + tail);
        assert(behind =~= rest.skip(m + 3));
        assert(behind =~= folded(others) + tail);
        assert(behind[0] == others[0][0]);
        assert(end[3] == behind[0]);
        assert(is_text(others[0][0]));
        lemma_found_at(end, 3, 3, |b: u8| !is_lws(b));
        assert(lws_end(end) == Ok::<Option<usize>, Error>(Some(3)));
        assert(end.skip(3) =~= behind);
        lemma_found_at(behind, 0, 0, |b: u8| !is_lws(b));
        assert(lws_end(behind) == Ok::<Option<usize>, Error>(Some(0)));
        assert(multi_lws_end(behind) == Ok::<Option<usize>, Error>(Some(0)));
        assert(multi_lws_end(end) == Ok::<Option<usize>, Error>(Some(3)));
        lemma_folded_values(s, from + m + 3, next, others, tail);
        assert(next + others =~= front + values);
    }
}

/// Text holds no line end.
proof fn lemma_header_end_skips(s: Seq<u8>, from: int, to: int)
    requires
        0 <= from <= to,
        to + 2 < s.len(),
        forall|j: int| from <= j < to ==> (#[trigger] s[j]) != 13,
    ensures
        header_end_from(s, from) == header_end_from(s, to),
    decreases to - from,
{
    if from < to {
        lemma_header_end_skips(s, from + 1, to);
    }
}

/// A folded value ends where its last line ends.
#[verifier::spinoff_prover]
#[verifier::rlimit(50)]
proof fn lemma_folded_end(s: Seq<u8>, from: int, values: Seq<Seq<u8>>, tail: Seq<u8>)
    requires
        0 <= from < s.len() <= usize::MAX,
        values.len() > 0,
        forall|i: int| 0 <= i < values.len() ==> is_plain_value(#[trigger] values[i]),
        tail.len() > 0,
        !is_lws(tail[0]),
        s.skip(from) == folded(values) + tail,
    ensures
        header_end_from(s, from) == Ok::<Option<usize>, Error>(
            Some((from + folded(values).len()) as usize),
        ),
    decreases values.len(),
{
    let first = values[0];
    let m = first.len() as int;
    let rest = s.skip(from);
    assert(is_plain_value(first));
    assert(folded(values).len() >= m + 2);
    assert(rest.len() == s.len() - from);
    assert(rest.len() == folded(values).len() + tail.len());
    assert forall|j: int| from <= j < from + m implies (#[trigger] s[j]) != 13 by {
        assert(s[j] == rest[j - from]);
        assert(rest[j - from] == folded(values)[j - from]);
        assert(is_text(first[j - from]));
    }
    assert(rest[m] == folded(values)[m] && rest[m + 1] == folded(values)[m + 1]);
    assert(s[from + m] == rest[m] && s[from + m + 1] == rest[m + 1]);
    lemma_header_end_skips(s, from, from + m);
    if values.len() == 1 {
        assert(rest[m + 2] == tail[0]);
        assert(s[from + m + 2] == tail[0]);
    } else {
        let others = values.skip(1);
        assert forall|i: int| 0 <= i < others.len() implies is_plain_value(
            #[trigger] others[i],
        ) by {
            assert(others[i] == values[i + 1]);
        }
        assert(rest[m + 2] == folded(values)[m + 2]);
        assert(s[from + m + 2] == 32);
        assert(rest =~= first + seq![13u8, 10u8, 32u8] + folded(others) + tail);
        assert(s.skip(from + m + 3) =~= rest.skip(m + 3));
        assert(s.skip(from + m + 3) =~= folded(others) + tail);
        lemma_folded_end(s, from + m + 3, others, tail);
    }
}

/// A header whose value is folded into any number of lines is read back: its name in lower case and
/// all parts of its value, in order. It ends where its last line ends.
#[verifier::spinoff_prover]
#[verifier::rlimit(50)]
pub proof fn law_folded_header_is_read_back(name: Seq<u8>, values: Seq<Seq<u8>>, tail: Seq<u8>)
    requires
        crate::foreign::valid_header_name(name),
        forall|i: int| 0 <= i < name.len() ==> is_token(#[trigger] name[i]),
        values.len() > 0,
        forall|i: int| 0 <= i < values.len() ==> is_plain_value(#[trigger] values[i]),
        tail.len() > 0,
        !is_lws(tail[0]),
        (name + seq![58u8, 32u8] + folded(values) + tail).len() <= usize::MAX,
    ensures
        ({
            let written = name + seq![58u8, 32u8] + folded(values);
            &&& header_end(written + tail) == Ok::<Option<usize>, Error>(
                Some(written.len() as usize),
            )
            &&& parsed_header(written + tail) == Ok::<HeaderLineView, Error>(
                (crate::foreign::lower_case(name), values),
            )
        }),
{
    let written = name + seq![58u8, 32u8] + folded(values);
    let s = written + tail;
    let n = name.len() as int;
    let first = values[0];
    assert(is_plain_value(first));
    assert forall|i: int| 0 <= i < n implies #[trigger] s[i] == name[i] by {}
    assert(s[n] == 58 && s[n + 1] == 32);
    assert(s.skip(n + 2) =~= folded(values) + tail);
    assert(folded(values)[0] == first[0]);
    assert(s[n + 2] == first[0]);
    assert(is_token(name[0]));
    assert forall|j: int| 1 <= j < n + 2 implies (#[trigger] s[j]) != 13 by {
        if j < n {
            assert(is_token(name[j]));
        }
    }
    assert(folded(values).len() >= first.len() + 2);
    lemma_header_end_skips(s, 1, n + 2);
    lemma_folded_end(s, n + 2, values, tail);
    assert forall|i: int| 0 <= i < n implies is_token(#[trigger] s[i]) by {
        assert(is_token(name[i]));
    }
    lemma_found_at(s, 0, n, |b: u8| !is_token(b));
    assert(s.take(n) =~= name);
    let rest = s.skip(n + 1);
    assert(rest[0] == 32 && rest[1] == first[0]);
    assert(is_text(first[0]));
    lemma_found_at(rest, 0, 1, |b: u8| !is_lws(b));
    assert(lws_end(rest) == Ok::<Option<usize>, Error>(Some(1)));
    let text = rest.skip(1);
    assert(text[0] == first[0]);
    lemma_found_at(text, 0, 0, |b: u8| !is_lws(b));
    assert(multi_lws_end(text) == Ok::<Option<usize>, Error>(Some(0)));
    assert(multi_lws_end(rest) == Ok::<Option<usize>, Error>(Some(1)));
    lemma_folded_values(s, n + 2, Seq::empty(), values, tail);
    assert(Seq::<Seq<u8>>::empty() + values =~= values);
}

/// A header line without a name, or whose name is not followed by a colon, is refused.
pub proof fn law_header_needs_a_name(s: Seq<u8>, n: int)
    requires
        0 <= n < s.len() <= usize::MAX,
        forall|i: int| 0 <= i < n ==> is_token(#[trigger] s[i]),
        !is_token(s[n]),
        n == 0 || s[n] != 58,
    ensures
        parsed_header(s) is Err,
{
    if n > 0 {
        assert(is_token(s[0]));
        lemma_found_at(s, 0, n, |b: u8| !is_token(b));
    }
}

/// The case of a hexadecimal digit makes no difference, and each digit behind a number makes it
/// sixteen times as big and adds the value of the digit.
pub proof fn law_next_hex_digit(s: Seq<u8>, b: u8, n: int)
    requires
        0 <= n < 16,
        b == crate::number::hex_char(n) || n >= 10 && b + 32 == crate::number::hex_char(n),
    ensures
        is_hex(b),
        all_hex(s.push(b)) <==> all_hex(s),
        hex_number(s.push(b)) == 16 * hex_number(s) + n,
        hex_number(Seq::empty()) == 0,
{
    assert(s.push(b).drop_last() =~= s);
    assert(hex_digit(b) == n);
    if all_hex(s.push(b)) {
        assert forall|i: int| 0 <= i < s.len() implies is_hex(#[trigger] s[i]) by {
            assert(is_hex(s.push(b)[i]));
        }
    }
}

/// A text is a hexadecimal number exactly if it has some digits and nothing else, and then it stands
/// for the number of its digits.
pub proof fn law_which_texts_are_hex(s: Seq<u8>)
    requires
        s.len() <= hex_capacity(),
    ensures
        parsed_hex(s) is Ok <==> s.len() > 0 && forall|i: int|
            0 <= i < s.len() ==> is_hex(#[trigger] s[i]),
        parsed_hex(s) matches Ok(n) ==> n == hex_number(s),
{
    if all_hex(s) {
        law_hex_number_bound(s);
    }
}

/// The header of a chunk consists of digits in either case, and of the line end behind them. It is
/// incomplete as long as the line end is missing, and anything else is refused.
#[verifier::spinoff_prover]
#[verifier::rlimit(30)]
pub proof fn law_chunk_header_is_digits_and_line_end(digits: Seq<u8>, b: u8, tail: Seq<u8>)
    requires
        digits.len() > 0,
        forall|i: int| 0 <= i < digits.len() ==> is_hex(#[trigger] digits[i]),
        digits.len() + tail.len() + 2 <= usize::MAX,
    ensures
        chunk_header_end(digits) == Ok::<Option<usize>, Error>(None),
        chunk_header_end(digits + seq![13u8]) == Ok::<Option<usize>, Error>(None),
        chunk_header_end(digits + seq![13u8, 10u8] + tail) == Ok::<Option<usize>, Error>(
            Some((digits.len() + 2) as usize),
        ),
        chunk_digits(digits + seq![13u8, 10u8] + tail) == digits,
        b != 10 ==> chunk_header_end(digits + seq![13u8, b] + tail) is Err,
        !is_hex(b) && b != 13 && b != 59 ==> chunk_header_end(digits + seq![b] + tail) is Err,
        !is_hex(b) ==> chunk_header_end(seq![b] + tail) is Err,
        chunk_header_end(Seq::empty()) == Ok::<Option<usize>, Error>(None),
{
    let n = digits.len() as int;
    let p = |b: u8| !is_hex(b);
    assert(is_hex(digits[0]));
    law_next_index(digits, 0, p);
    let one = digits + seq![13u8];
    let line = digits + seq![13u8, 10u8] + tail;
    let odd = digits + seq![13u8, b] + tail;
    let other = digits + seq![b] + tail;
    assert forall|i: int| 0 <= i < n implies is_hex(#[trigger] one[i]) by {
        assert(one[i] == digits[i]);
    }
    assert forall|i: int| 0 <= i < n implies is_hex(#[trigger] line[i]) by {
        assert(line[i] == digits[i]);
    }
    assert forall|i: int| 0 <= i < n implies is_hex(#[trigger] odd[i]) by {
        assert(odd[i] == digits[i]);
    }
    assert forall|i: int| 0 <= i < n implies is_hex(#[trigger] other[i]) by {
        assert(other[i] == digits[i]);
    }
    assert(one[0] == digits[0] && line[0] == digits[0] && odd[0] == digits[0] && other[0]
        == digits[0]);
    lemma_found_at(one, 0, n, p);
    assert(line[n] == 13 && line[n + 1] == 10);
    lemma_found_at(line, 0, n, p);
    assert(line.take(n) =~= digits);
    assert(odd[n] == 13 && odd[n + 1] == b);
    lemma_found_at(odd, 0, n, p);
    assert(other[n] == b);
    if !is_hex(b) {
        lemma_found_at(other, 0, n, p);
        assert((seq![b] + tail)[0] == b);
    }
}

/// An extension of a chunk header is not accepted: as soon as its name is complete it is refused, and
/// until then it is awaited.
#[verifier::spinoff_prover]
#[verifier::rlimit(30)]
pub proof fn law_chunk_extension_is_refused(digits: Seq<u8>, name: Seq<u8>, b: u8, tail: Seq<u8>)
    requires
        digits.len() > 0,
        forall|i: int| 0 <= i < digits.len() ==> is_hex(#[trigger] digits[i]),
        forall|i: int| 0 <= i < name.len() ==> is_token(#[trigger] name[i]),
        !is_token(b),
        digits.len() + name.len() + tail.len() + 2 <= usize::MAX,
    ensures
        chunk_header_end(digits + seq![59u8] + name) == Ok::<Option<usize>, Error>(None),
        chunk_header_end(digits + seq![59u8] + name + seq![b] + tail) is Err,
{
    let n = digits.len() as int;
    let m = name.len() as int;
    let p = |b: u8| !is_hex(b);
    let q = |b: u8| !is_token(b);
    assert(is_hex(digits[0]));
    let part = digits + seq![59u8] + name;
    assert forall|i: int| 0 <= i < n implies is_hex(#[trigger] part[i]) by {
        assert(part[i] == digits[i]);
    }
    assert(part[n] == 59 && part[0] == digits[0]);
    lemma_found_at(part, 0, n, p);
    assert(part.skip(n)[0] == 59);
    assert(part.skip(n).skip(1) =~= name);
    law_next_index(name, 0, q);
    let whole = part + seq![b] + tail;
    assert forall|i: int| 0 <= i < n implies is_hex(#[trigger] whole[i]) by {
        assert(whole[i] == digits[i]);
    }
    assert(whole[n] == 59 && whole[0] == digits[0]);
    lemma_found_at(whole, 0, n, p);
    assert(whole.skip(n)[0] == 59);
    let rest = whole.skip(n).skip(1);
    assert(rest =~= name + seq![b] + tail);
    assert forall|i: int| 0 <= i < m implies is_token(#[trigger] rest[i]) by {
        assert(rest[i] == name[i]);
    }
    assert(rest[m] == b);
    lemma_found_at(rest, 0, m, q);
}

/// Where a header ends behind some bytes which are known to hold no end.
proof fn lemma_header_end_behind(front: Seq<u8>, rest: Seq<u8>, at: int)
    requires
        0 <= at,
        front.len() + rest.len() <= usize::MAX,
    ensures
        match header_end_from(rest, at) {
            Ok(Some(end)) => header_end_from(front + rest, front.len() + at) == Ok::<
                Option<usize>,
                Error,
            >(Some((front.len() + end) as usize)),
            ret => header_end_from(front + rest, front.len() + at) == ret,
        },
        header_end_from(rest, at) matches Ok(Some(end)) ==> end < rest.len(),
    decreases rest.len() - at,
{
    let s = front + rest;
    if rest.len() > at + 2 {
        assert(s[front.len() + at] == rest[at]);
        assert(s[front.len() + at + 1] == rest[at + 1]);
        assert(s[front.len() + at + 2] == rest[at + 2]);
        if rest[at] != CR {
            lemma_header_end_behind(front, rest, at + 1);
        } else if rest[at + 1] == NL && is_lws(rest[at + 2]) {
            lemma_header_end_behind(front, rest, at + 3);
        }
    }
}

/// A line end which is followed by a space or a tab does not end a header: it goes on with the next
/// line.
#[verifier::spinoff_prover]
#[verifier::rlimit(30)]
pub proof fn law_header_goes_on_behind_white_space(line: Seq<u8>, space: u8, rest: Seq<u8>)
    requires
        line.len() > 0,
        forall|i: int| 0 <= i < line.len() ==> (#[trigger] line[i]) != 13,
        space == 32 || space == 9,
        line.len() + rest.len() + 3 <= usize::MAX,
    ensures
        match header_end_from(rest, 0) {
            Ok(Some(end)) => header_end(line + seq![13u8, 10u8, space] + rest) == Ok::<
                Option<usize>,
                Error,
            >(Some((line.len() + 3 + end) as usize)),
            ret => header_end(line + seq![13u8, 10u8, space] + rest) == ret,
        },
{
    let n = line.len() as int;
    let front = line + seq![13u8, 10u8, space];
    let s = front + rest;
    assert forall|j: int| 0 <= j < n implies (#[trigger] s[j]) != 13 by {
        assert(s[j] == line[j]);
    }
    assert(s[n] == 13 && s[n + 1] == 10 && s[n + 2] == space);
    lemma_header_end_skips(s, 1, n);
    assert(header_end_from(s, n) == header_end_from(s, n + 3));
    lemma_header_end_behind(front, rest, 0);
}

/// White space between the colon and the value of a header is left out, however much there is.
#[verifier::spinoff_prover]
#[verifier::rlimit(50)]
pub proof fn law_white_space_is_left_out(
    name: Seq<u8>,
    space: Seq<u8>,
    value: Seq<u8>,
    tail: Seq<u8>,
)
    requires
        crate::foreign::valid_header_name(name),
        forall|i: int| 0 <= i < name.len() ==> is_token(#[trigger] name[i]),
        forall|i: int| 0 <= i < space.len() ==> #[trigger] space[i] == 32 || space[i] == 9,
        is_plain_value(value),
        tail.len() > 0,
        !is_lws(tail[0]),
        name.len() + space.len() + value.len() + tail.len() + 3 <= usize::MAX,
    ensures
        parsed_header(name + seq![58u8] + space + value + seq![13u8, 10u8] + tail) == Ok::<
            HeaderLineView,
            Error,
        >((crate::foreign::lower_case(name), seq![value])),
{
    let n = name.len() as int;
    let k = space.len() as int;
    let s = name + seq![58u8] + space + value + seq![13u8, 10u8] + tail;
    assert(is_token(name[0]));
    assert(s[0] == name[0]);
    assert forall|i: int| 0 <= i < n implies is_token(#[trigger] s[i]) by {
        assert(s[i] == name[i]);
    }
    assert(s[n] == 58);
    lemma_found_at(s, 0, n, |b: u8| !is_token(b));
    assert(s.take(n) =~= name);
    let rest = s.skip(n + 1);
    assert(rest =~= space + value + seq![13u8, 10u8] + tail);
    assert forall|i: int| 0 <= i < k implies is_lws(#[trigger] rest[i]) by {
        assert(rest[i] == space[i]);
    }
    assert(rest[k] == value[0]);
    assert(is_text(value[0]));
    assert(rest[0] != 13) by {
        if k > 0 {
            assert(rest[0] == space[0]);
        }
    }
    lemma_found_at(rest, 0, k, |b: u8| !is_lws(b));
    assert(lws_end(rest) == Ok::<Option<usize>, Error>(Some(k as usize)));
    let text = rest.skip(k);
    assert(text =~= value + seq![13u8, 10u8] + tail);
    assert(text[0] == value[0]);
    lemma_found_at(text, 0, 0, |b: u8| !is_lws(b));
    assert(multi_lws_end(text) == Ok::<Option<usize>, Error>(Some(0)));
    assert(multi_lws_end(rest) == Ok::<Option<usize>, Error>(Some(k as usize)));
    let values = seq![value];
    assert(folded(values) =~= value + seq![13u8, 10u8]);
    assert(s.skip(n + 1 + k) =~= folded(values) + tail);
    lemma_folded_values(s, n + 1 + k, Seq::empty(), values, tail);
    assert(Seq::<Seq<u8>>::empty() + values =~= values);
}

} // verus!
