//! The ranges of a `Range` header.

use vstd::prelude::*;
use vstd::string::*;

use crate::number::{parse_u64, to_decimal};
use crate::parse::bytes_equal;
use crate::text::{ascii_bytes, ascii_text};

verus! {

/// A single range of bytes.
#[derive(Debug, Clone, Copy, PartialEq, Eq, Structural)]
pub struct ByteRange {
    pub begin: Option<u64>,
    pub end: Option<u64>,
}

/// The digits of a bound, or nothing.
pub open spec fn bound_text(bound: Option<u64>) -> Seq<u8> {
    match bound {
        Some(byte) => crate::number::decimal_text(byte as nat),
        None => Seq::empty(),
    }
}

impl ByteRange {
    /// The range in a readable form, such as `ByteRange(5-10)`.
    pub fn to_string(&self) -> (text: String)
        ensures
            text@ == crate::foreign::ascii_chars(
                crate::text::ascii("ByteRange("@) + bound_text(self.begin) + crate::text::ascii(
                    "-"@,
                ) + bound_text(self.end) + crate::text::ascii(")"@),
            ),
    {
        proof {
            reveal_strlit("ByteRange(");
            reveal_strlit("-");
            reveal_strlit(")");
        }
        let mut text: Vec<u8> = ascii_bytes("ByteRange(");
        if let Some(byte) = self.begin {
            text.append(&mut to_decimal(byte));
            proof {
                crate::number::law_decimal_digits(byte);
            }
        }
        text.append(&mut ascii_bytes("-"));
        if let Some(byte) = self.end {
            text.append(&mut to_decimal(byte));
            proof {
                crate::number::law_decimal_digits(byte);
            }
        }
        text.append(&mut ascii_bytes(")"));
        proof {
            assert(text@ =~= crate::text::ascii("ByteRange("@) + bound_text(self.begin)
                + crate::text::ascii("-"@) + bound_text(self.end) + crate::text::ascii(")"@));
            assert forall|i: int| 0 <= i < text@.len() implies #[trigger] text@[i] < 128 by {
                let a = crate::text::ascii("ByteRange("@);
                let b = bound_text(self.begin);
                let d = bound_text(self.end);
                assert(forall|j: int| 0 <= j < b.len() ==> #[trigger] b[j] < 128);
                assert(forall|j: int| 0 <= j < d.len() ==> #[trigger] d[j] < 128);
            }
        }

        ascii_text(text.as_slice())
    }
}

/// Multiple ranges of bytes.
#[derive(Debug)]
pub struct ByteRanges(pub Vec<ByteRange>);

impl From<Vec<ByteRange>> for ByteRanges {
    fn from(ranges: Vec<ByteRange>) -> (ret: Self) {
        ByteRanges(ranges)
    }
}

impl vstd::std_specs::convert::FromSpecImpl<Vec<ByteRange>> for ByteRanges {
    open spec fn obeys_from_spec() -> bool {
        true
    }

    open spec fn from_spec(ranges: Vec<ByteRange>) -> Self {
        ByteRanges(ranges)
    }
}

impl From<ByteRanges> for Vec<ByteRange> {
    fn from(ranges: ByteRanges) -> (ret: Self) {
        ranges.into_inner()
    }
}

impl vstd::std_specs::convert::FromSpecImpl<ByteRanges> for Vec<ByteRange> {
    open spec fn obeys_from_spec() -> bool {
        true
    }

    open spec fn from_spec(ranges: ByteRanges) -> Self {
        ranges.0
    }
}

/// The index of the first separator from `from` on.
pub open spec fn next_sep(s: Seq<u8>, from: int, sep: u8) -> Option<usize> {
    crate::parse::next_index(s, from, |b: u8| b == sep)
}

/// The pieces of `s` between the bytes `sep`.
pub open spec fn split(s: Seq<u8>, sep: u8) -> Seq<Seq<u8>>
    decreases s.len(),
{
    match next_sep(s, 0, sep) {
        None => seq![s],
        Some(i) => if i < s.len() {
            seq![s.take(i as int)] + split(s.skip(i + 1), sep)
        } else {
            seq![s]
        },
    }
}

/// The range which a piece such as `5-10` or `5-` stands for. The begin must not be bigger than
/// the end.
pub open spec fn parsed_range(piece: Seq<u8>) -> Option<ByteRange> {
    let parts = split(piece, 45);
    if parts.len() != 2 {
        None
    } else {
        match crate::number::parsed_u64(parts[0]) {
            None => None,
            Some(begin) => if parts[1].len() == 0 {
                Some(ByteRange { begin: Some(begin), end: None })
            } else {
                match crate::number::parsed_u64(parts[1]) {
                    None => None,
                    Some(end) => if begin > end {
                        None
                    } else {
                        Some(ByteRange { begin: Some(begin), end: Some(end) })
                    },
                }
            },
        }
    }
}

/// The text in front of the ranges.
pub open spec fn range_prefix() -> Seq<u8> {
    crate::text::ascii("bytes="@)
}

/// The ranges which a header value such as `bytes=0-9,20-` stands for.
pub open spec fn parsed_ranges(s: Seq<u8>) -> Option<Seq<ByteRange>> {
    if s.len() < 6 || s.take(6) != range_prefix() {
        None
    } else {
        let pieces = split(s.skip(6), 44);
        if forall|i: int| 0 <= i < pieces.len() ==> parsed_range(#[trigger] pieces[i]) is Some {
            Some(Seq::new(pieces.len(), |i: int| parsed_range(pieces[i])->Some_0))
        } else {
            None
        }
    }
}

/// Splits a byte string at a separator.
fn split_bytes(buf: &[u8], sep: u8) -> (pieces: Vec<Vec<u8>>)
    ensures
        crate::parse::views(pieces@) == split(buf@, sep),
        pieces@.len() > 0,
{
    let mut pieces: Vec<Vec<u8>> = Vec::new();
    let mut begin: usize = 0;
    let mut idx: usize = 0;
    proof {
        assert(buf@.skip(0) =~= buf@);
        assert(crate::parse::views(pieces@) + split(buf@, sep) =~= split(buf@, sep));
    }
    while idx < buf.len()
        invariant
            begin <= idx <= buf@.len(),
            split(buf@, sep) == crate::parse::views(pieces@) + split(buf@.skip(begin as int), sep),
            next_sep(buf@.skip(begin as int), 0, sep) == next_sep(
                buf@.skip(begin as int),
                idx - begin,
                sep,
            ),
        decreases buf@.len() - idx,
    {
        let ghost rest = buf@.skip(begin as int);
        proof {
            assert(rest[idx - begin] == buf@[idx as int]);
        }
        if buf[idx] == sep {
            let ghost before = pieces@;
            let piece: Vec<u8> = vstd::slice::slice_to_vec(
                vstd::slice::slice_subrange(buf, begin, idx),
            );
            pieces.push(piece);
            proof {
                assert(piece@ =~= rest.take(idx - begin));
                assert(next_sep(rest, idx - begin, sep) == Some((idx - begin) as usize));
                assert(rest.skip(idx - begin + 1) =~= buf@.skip(idx + 1));
                assert(crate::parse::views(pieces@) =~= crate::parse::views(before).push(piece@));
                assert(crate::parse::views(before) + split(rest, sep) =~= crate::parse::views(
                    pieces@,
                ) + split(buf@.skip(idx + 1), sep));
            }
            begin = idx + 1;
        }
        idx = idx + 1;
    }
    let ghost before = pieces@;
    let piece: Vec<u8> = vstd::slice::slice_to_vec(
        vstd::slice::slice_subrange(buf, begin, buf.len()),
    );
    pieces.push(piece);
    proof {
        assert(piece@ =~= buf@.skip(begin as int));
        assert(next_sep(buf@.skip(begin as int), idx - begin, sep) is None);
        assert(split(buf@.skip(begin as int), sep) == seq![piece@]);
        assert(crate::parse::views(pieces@) =~= crate::parse::views(before).push(piece@));
        assert(crate::parse::views(pieces@) =~= split(buf@, sep));
    }

    pieces
}

/// Parses a single range.
fn parse_range(piece: &[u8]) -> (range: Option<ByteRange>)
    ensures
        range == parsed_range(piece@),
{
    let parts: Vec<Vec<u8>> = split_bytes(piece, 45);
    proof {
        assert(parts@.len() == split(piece@, 45).len());
        assert(parts@.len() == 2 ==> split(piece@, 45)[0] == parts@[0]@ && split(piece@, 45)[1]
            == parts@[1]@);
    }
    if parts.len() != 2 {
        return None;
    }
    let begin: u64 = match parse_u64(parts[0].as_slice()) {
        Some(begin) => begin,
        None => return None,
    };
    if parts[1].len() == 0 {
        return Some(ByteRange { begin: Some(begin), end: None });
    }
    match parse_u64(parts[1].as_slice()) {
        Some(end) => if begin > end {
            None
        } else {
            Some(ByteRange { begin: Some(begin), end: Some(end) })
        },
        None => None,
    }
}

impl ByteRanges {
    /// The plain list of ranges.
    pub fn into_inner(self) -> (ranges: Vec<ByteRange>)
        ensures
            ranges == self.0,
    {
        self.0
    }

    /// Parses the value of a `Range` header.
    pub fn from_str(s: &str) -> (ret: core::result::Result<Self, ()>)
        ensures
            parsed_ranges(s.spec_bytes()) == match ret {
                Ok(ranges) => Some(ranges.0@),
                Err(()) => None,
            },
    {
        let bytes: &[u8] = s.as_bytes();
        if bytes.len() < 6 {
            return Err(());
        }
        proof {
            reveal_strlit("bytes=");
        }
        let prefix: Vec<u8> = ascii_bytes("bytes=");
        let front: &[u8] = vstd::slice::slice_subrange(bytes, 0, 6);
        proof {
            assert(front@ =~= bytes@.take(6));
        }
        if !bytes_equal(front, prefix.as_slice()) {
            return Err(());
        }
        let rest: &[u8] = vstd::slice::slice_subrange(bytes, 6, bytes.len());
        proof {
            assert(rest@ =~= bytes@.skip(6));
        }
        let pieces: Vec<Vec<u8>> = split_bytes(rest, 44);
        let ghost expected = split(bytes@.skip(6), 44);
        let mut store: Vec<ByteRange> = Vec::new();
        let mut i: usize = 0;
        while i < pieces.len()
            invariant
                i <= pieces@.len(),
                bytes@ == s.spec_bytes(),
                bytes@.len() >= 6,
                bytes@.take(6) == range_prefix(),
                expected == split(bytes@.skip(6), 44),
                expected == crate::parse::views(pieces@),
                store@.len() == i,
                forall|j: int|
                    0 <= j < i ==> parsed_range(#[trigger] expected[j]) == Some(store@[j]),
            decreases pieces@.len() - i,
        {
            proof {
                assert(expected[i as int] == pieces@[i as int]@);
            }
            match parse_range(pieces[i].as_slice()) {
                Some(range) => store.push(range),
                None => return Err(()),
            }
            i = i + 1;
        }
        proof {
            assert(store@ =~= parsed_ranges(s.spec_bytes())->Some_0);
        }

        Ok(ByteRanges(store))
    }
}

/// In every parsed range the begin is known and is not bigger than the end.
pub proof fn law_parsed_ranges_are_ordered(s: Seq<u8>, i: int)
    requires
        parsed_ranges(s) matches Some(ranges) && 0 <= i < ranges.len(),
    ensures
        parsed_ranges(s)->Some_0[i].begin matches Some(begin) && (parsed_ranges(
            s,
        )->Some_0[i].end matches Some(end) ==> begin <= end),
{
    let pieces = split(s.skip(6), 44);
    assert(parsed_range(pieces[i]) is Some);
}

/// Some texts with a separator between them.
pub open spec fn separated(pieces: Seq<Seq<u8>>, sep: u8) -> Seq<u8>
    decreases pieces.len(),
{
    if pieces.len() == 0 {
        Seq::empty()
    } else if pieces.len() == 1 {
        pieces[0]
    } else {
        pieces[0] + seq![sep] + separated(pieces.skip(1), sep)
    }
}

/// Whether a text is free of a separator.
pub open spec fn is_free_of(s: Seq<u8>, sep: u8) -> bool {
    forall|i: int| 0 <= i < s.len() ==> (#[trigger] s[i]) != sep
}

/// A separator which is not there is not found.
proof fn lemma_no_sep(s: Seq<u8>, from: int, sep: u8)
    requires
        0 <= from,
        is_free_of(s, sep),
    ensures
        next_sep(s, from, sep) is None,
    decreases s.len() - from,
{
    if from < s.len() {
        lemma_no_sep(s, from + 1, sep);
    }
}

/// The first separator is found.
proof fn lemma_first_sep(s: Seq<u8>, from: int, at: int, sep: u8)
    requires
        0 <= from <= at < s.len() <= usize::MAX,
        s[at] == sep,
        forall|i: int| 0 <= i < at ==> (#[trigger] s[i]) != sep,
    ensures
        next_sep(s, from, sep) == Some(at as usize),
    decreases at - from,
{
    if from < at {
        lemma_first_sep(s, from + 1, at, sep);
    }
}

/// What is found is the first separator.
proof fn lemma_sep_is_first(s: Seq<u8>, from: int, sep: u8)
    requires
        0 <= from,
        s.len() <= usize::MAX,
        forall|i: int| 0 <= i < from && i < s.len() ==> (#[trigger] s[i]) != sep,
    ensures
        match next_sep(s, from, sep) {
            Some(at) => from <= at < s.len() && s[at as int] == sep && forall|i: int|
                0 <= i < at ==> (#[trigger] s[i]) != sep,
            None => is_free_of(s, sep),
        },
    decreases s.len() - from,
{
    if from < s.len() && s[from] != sep {
        lemma_sep_is_first(s, from + 1, sep);
    }
}

/// Texts which were put together with a separator are split again at the same places.
#[verifier::spinoff_prover]
#[verifier::rlimit(30)]
pub proof fn law_separated_texts_are_split(pieces: Seq<Seq<u8>>, sep: u8)
    requires
        pieces.len() > 0,
        forall|i: int| 0 <= i < pieces.len() ==> is_free_of(#[trigger] pieces[i], sep),
        separated(pieces, sep).len() <= usize::MAX,
    ensures
        split(separated(pieces, sep), sep) == pieces,
    decreases pieces.len(),
{
    let s = separated(pieces, sep);
    let first = pieces[0];
    assert(is_free_of(first, sep));
    if pieces.len() == 1 {
        lemma_no_sep(s, 0, sep);
        assert(split(s, sep) =~= pieces);
    } else {
        let others = pieces.skip(1);
        let rest = separated(others, sep);
        let n = first.len() as int;
        assert(s[n] == sep);
        assert forall|i: int| 0 <= i < n implies (#[trigger] s[i]) != sep by {
            assert(s[i] == first[i]);
        }
        lemma_first_sep(s, 0, n, sep);
        assert(s.take(n) =~= first);
        assert(s.skip(n + 1) =~= rest);
        assert forall|i: int| 0 <= i < others.len() implies is_free_of(
            #[trigger] others[i],
            sep,
        ) by {
            assert(others[i] == pieces[i + 1]);
        }
        law_separated_texts_are_split(others, sep);
        assert(seq![first] + others =~= pieces);
    }
}

/// Splitting a text loses nothing: its pieces are free of the separator, and with separators between
/// them they are the text again.
#[verifier::spinoff_prover]
#[verifier::rlimit(30)]
pub proof fn law_split_loses_nothing(s: Seq<u8>, sep: u8)
    requires
        s.len() <= usize::MAX,
    ensures
        split(s, sep).len() > 0,
        separated(split(s, sep), sep) == s,
        forall|i: int| 0 <= i < split(s, sep).len() ==> is_free_of(#[trigger] split(s, sep)[i], sep),
    decreases s.len(),
{
    lemma_sep_is_first(s, 0, sep);
    let pieces = split(s, sep);
    match next_sep(s, 0, sep) {
        None => {
            assert(pieces =~= seq![s]);
            assert(is_free_of(s, sep));
        },
        Some(at) => {
            let n = at as int;
            let rest = s.skip(n + 1);
            law_split_loses_nothing(rest, sep);
            let others = split(rest, sep);
            assert(pieces =~= seq![s.take(n)] + others);
            assert(pieces.skip(1) =~= others);
            assert(s =~= s.take(n) + seq![sep] + rest);
            assert forall|i: int| 0 <= i < pieces.len() implies is_free_of(
                #[trigger] pieces[i],
                sep,
            ) by {
                if i == 0 {
                    assert forall|j: int| 0 <= j < n implies (#[trigger] s.take(n)[j]) != sep by {
                        assert(s[j] != sep);
                    }
                } else {
                    assert(pieces[i] == others[i - 1]);
                }
            }
        },
    }
}

/// A range as it is written, such as `5-10` or `5-`.
pub open spec fn written_range(range: ByteRange) -> Seq<u8> {
    bound_text(range.begin) + seq![45u8] + bound_text(range.end)
}

/// Some ranges as they are written, such as `bytes=0-9,20-`.
pub open spec fn written_ranges(ranges: Seq<ByteRange>) -> Seq<u8> {
    crate::text::ascii("bytes="@) + separated(
        Seq::new(ranges.len(), |i: int| written_range(ranges[i])),
        44,
    )
}

proof fn lemma_bound_is_free_of(bound: Option<u64>, sep: u8)
    requires
        !crate::number::is_digit(sep),
    ensures
        is_free_of(bound_text(bound), sep),
{
    if let Some(byte) = bound {
        crate::number::law_decimal_digits(byte);
        let text = bound_text(bound);
        assert forall|i: int| 0 <= i < text.len() implies (#[trigger] text[i]) != sep by {
            assert(crate::number::is_digit(text[i]));
        }
    }
}

proof fn lemma_range_is_read_back(range: ByteRange)
    requires
        range.begin is Some,
        range.end matches Some(end) ==> range.begin->0 <= end,
        written_range(range).len() <= usize::MAX,
    ensures
        parsed_range(written_range(range)) == Some(range),
        is_free_of(written_range(range), 44),
{
    let s = written_range(range);
    let parts = seq![bound_text(range.begin), bound_text(range.end)];
    lemma_bound_is_free_of(range.begin, 45);
    lemma_bound_is_free_of(range.end, 45);
    lemma_bound_is_free_of(range.begin, 44);
    lemma_bound_is_free_of(range.end, 44);
    assert(parts.skip(1) =~= seq![bound_text(range.end)]);
    assert(separated(parts.skip(1), 45) =~= bound_text(range.end));
    assert(separated(parts, 45) =~= s);
    law_separated_texts_are_split(parts, 45);
    crate::number::law_decimal_round_trip(range.begin->0);
    if let Some(end) = range.end {
        crate::number::law_decimal_round_trip(end);
        crate::number::law_decimal_digits(end);
    }
}

/// Ranges are read back as they were written, however many there are: each one with its begin and,
/// if there is one, its end.
#[verifier::spinoff_prover]
#[verifier::rlimit(30)]
pub proof fn law_ranges_are_read_back(ranges: Seq<ByteRange>)
    requires
        ranges.len() > 0,
        forall|i: int|
            0 <= i < ranges.len() ==> (#[trigger] ranges[i]).begin is Some && (
            ranges[i].end matches Some(end) ==> ranges[i].begin->0 <= end),
        written_ranges(ranges).len() <= usize::MAX,
    ensures
        parsed_ranges(written_ranges(ranges)) == Some(ranges),
{
    let pieces = Seq::new(ranges.len(), |i: int| written_range(ranges[i]));
    let s = written_ranges(ranges);
    reveal_strlit("bytes=");
    assert(s.take(6) =~= range_prefix());
    assert(s.skip(6) =~= separated(pieces, 44));
    assert forall|i: int| 0 <= i < pieces.len() implies is_free_of(#[trigger] pieces[i], 44)
        && parsed_range(pieces[i]) == Some(ranges[i]) by {
        lemma_pieces_fit(pieces, i);
        lemma_range_is_read_back(ranges[i]);
    }
    law_separated_texts_are_split(pieces, 44);
    assert(parsed_ranges(s)->Some_0 =~= ranges);
}

/// A piece is not longer than all of them together.
proof fn lemma_pieces_fit(pieces: Seq<Seq<u8>>, i: int)
    requires
        0 <= i < pieces.len(),
    ensures
        pieces[i].len() <= separated(pieces, 44).len(),
    decreases pieces.len(),
{
    if i > 0 {
        assert(pieces.skip(1)[i - 1] == pieces[i]);
        lemma_pieces_fit(pieces.skip(1), i - 1);
    }
}

/// Whether a text is a range: the digits of its begin, a minus and, if there is one, the digits of
/// its end, which is not in front of the begin.
pub open spec fn is_range_text(text: Seq<u8>, range: ByteRange) -> bool {
    exists|n: int|
        0 <= n < text.len() && #[trigger] text[n] == 45 && range.begin is Some
            && crate::number::parsed_u64(text.take(n)) == range.begin && if range.end is Some {
            &&& n + 1 < text.len()
            &&& crate::number::parsed_u64(text.skip(n + 1)) == range.end
            &&& range.begin->0 <= range.end->0
        } else {
            n + 1 == text.len()
        }
}

#[verifier::spinoff_prover]
#[verifier::rlimit(40)]
proof fn lemma_range_text(text: Seq<u8>)
    requires
        text.len() <= usize::MAX,
    ensures
        parsed_range(text) matches Some(range) ==> is_range_text(text, range),
{
    if let Some(range) = parsed_range(text) {
        let parts = split(text, 45);
        law_split_loses_nothing(text, 45);
        let n = parts[0].len() as int;
        assert(parts.skip(1) =~= seq![parts[1]]);
        assert(separated(parts.skip(1), 45) =~= parts[1]);
        assert(text =~= parts[0] + seq![45u8] + parts[1]);
        assert(text[n] == 45);
        assert(text.take(n) =~= parts[0]);
        assert(text.skip(n + 1) =~= parts[1]);
    }
}

/// What is accepted as ranges is a list of ranges behind `bytes=`, with commas between them, and
/// each range is what its own text says.
pub proof fn law_accepted_ranges_are_written(s: Seq<u8>)
    requires
        s.len() <= usize::MAX,
    ensures
        parsed_ranges(s) matches Some(ranges) ==> exists|pieces: Seq<Seq<u8>>|
            s == crate::text::ascii("bytes="@) + #[trigger] separated(pieces, 44) && pieces.len()
                == ranges.len() && forall|i: int|
                0 <= i < pieces.len() ==> is_range_text(#[trigger] pieces[i], ranges[i]),
{
    if let Some(ranges) = parsed_ranges(s) {
        let pieces = split(s.skip(6), 44);
        law_split_loses_nothing(s.skip(6), 44);
        assert(s =~= s.take(6) + s.skip(6));
        assert forall|i: int| 0 <= i < pieces.len() implies is_range_text(
            #[trigger] pieces[i],
            ranges[i],
        ) by {
            lemma_pieces_fit(pieces, i);
            lemma_range_text(pieces[i]);
        }
        assert(s == crate::text::ascii("bytes="@) + separated(pieces, 44));
    }
}

proof fn lemma_separated_is_visible(pieces: Seq<Seq<u8>>)
    requires
        forall|i: int| 0 <= i < pieces.len() ==> crate::foreign::is_visible(#[trigger] pieces[i]),
    ensures
        crate::foreign::is_visible(separated(pieces, 44)),
    decreases pieces.len(),
{
    if pieces.len() > 0 {
        assert(crate::foreign::is_visible(pieces[0]));
        if pieces.len() > 1 {
            let others = pieces.skip(1);
            assert forall|i: int| 0 <= i < others.len() implies crate::foreign::is_visible(
                #[trigger] others[i],
            ) by {
                assert(others[i] == pieces[i + 1]);
            }
            lemma_separated_is_visible(others);
            let rest = separated(others, 44);
            let s = separated(pieces, 44);
            let n = pieces[0].len() as int;
            assert forall|i: int| 0 <= i < s.len() implies {
                let b = #[trigger] s[i];
                32 <= b < 127 || b == 9
            } by {
                if i < n {
                    assert(s[i] == pieces[0][i]);
                } else if i > n {
                    assert(s[i] == rest[i - n - 1]);
                }
            }
        }
    }
}

/// Written ranges can stand in a header.
#[verifier::spinoff_prover]
#[verifier::rlimit(30)]
pub proof fn law_written_ranges_are_visible(ranges: Seq<ByteRange>)
    ensures
        crate::foreign::is_visible(written_ranges(ranges)),
{
    let pieces = Seq::new(ranges.len(), |i: int| written_range(ranges[i]));
    assert forall|i: int| 0 <= i < pieces.len() implies crate::foreign::is_visible(
        #[trigger] pieces[i],
    ) by {
        lemma_bound_is_visible(ranges[i].begin);
        lemma_bound_is_visible(ranges[i].end);
        let begin = bound_text(ranges[i].begin);
        let end = bound_text(ranges[i].end);
        let text = pieces[i];
        assert forall|j: int| 0 <= j < text.len() implies {
            let b = #[trigger] text[j];
            32 <= b < 127 || b == 9
        } by {
            if j < begin.len() {
                assert(text[j] == begin[j]);
            } else if j > begin.len() {
                assert(text[j] == end[j - begin.len() - 1]);
            }
        }
    }
    lemma_separated_is_visible(pieces);
    reveal_strlit("bytes=");
    let front = crate::text::ascii("bytes="@);
    let rest = separated(pieces, 44);
    let s = written_ranges(ranges);
    assert forall|i: int| 0 <= i < s.len() implies {
        let b = #[trigger] s[i];
        32 <= b < 127 || b == 9
    } by {
        if i < 6 {
            assert(s[i] == front[i]);
        } else {
            assert(s[i] == rest[i - 6]);
        }
    }
}

proof fn lemma_bound_is_visible(bound: Option<u64>)
    ensures
        crate::foreign::is_visible(bound_text(bound)),
{
    if let Some(byte) = bound {
        crate::number::law_decimal_digits(byte);
        let text = bound_text(bound);
        assert forall|i: int| 0 <= i < text.len() implies 48 <= #[trigger] text[i] <= 57 by {
            assert(crate::number::is_digit(text[i]));
        }
    }
}

} // verus!
