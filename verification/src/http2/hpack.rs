//! The framing of HPACK header blocks: where one field ends and the next one starts.

use vstd::prelude::*;

verus! {

/// The number and the length of an integer whose prefix was full, read up to the octet `at`.
pub open spec fn continued(s: Seq<u8>, at: int, value: int, factor: int) -> Option<(int, int)>
    decreases 5 - at,
{
    if at >= 5 || at >= s.len() || at < 0 {
        None
    } else if s[at] < 128 {
        Some((value + s[at] * factor, at + 1))
    } else {
        continued(s, at + 1, value + (s[at] - 128) * factor, factor * 128)
    }
}

/// The number and the length of the integer at the begin of `s` whose prefix can hold numbers
/// below `limit`. An integer which is incomplete or has more than five octets is none.
pub open spec fn integer(s: Seq<u8>, limit: int) -> Option<(int, int)> {
    if s.len() == 0 {
        None
    } else if s[0] as int % (limit + 1) < limit {
        Some((s[0] as int % (limit + 1), 1))
    } else {
        continued(s, 1, limit, 1)
    }
}

/// The length of the string at the begin of `s`, if it is complete.
pub open spec fn string_len(s: Seq<u8>) -> Option<int> {
    match integer(s, 127) {
        Some((len, octets)) => if octets + len <= s.len() {
            Some(octets + len)
        } else {
            None
        },
        None => None,
    }
}

/// The length of a literal field at the begin of `s`, if it is complete.
pub open spec fn literal_len(s: Seq<u8>, limit: int) -> Option<int> {
    match integer(s, limit) {
        None => None,
        Some((index, octets)) => {
            let name = if index == 0 {
                string_len(s.skip(octets))
            } else {
                Some(0)
            };
            match name {
                None => None,
                Some(name) => match string_len(s.skip(octets + name)) {
                    None => None,
                    Some(value) => Some(octets + name + value),
                },
            }
        },
    }
}

/// The length of the field at the begin of `s`, if it is complete.
pub open spec fn field_len(s: Seq<u8>) -> Option<int> {
    if s[0] >= 128 {
        match integer(s, 127) {
            Some((_, octets)) => Some(octets),
            None => None,
        }
    } else if s[0] >= 64 {
        literal_len(s, 63)
    } else if is_update(s[0]) {
        match integer(s, 31) {
            Some((_, octets)) => Some(octets),
            None => None,
        }
    } else {
        literal_len(s, 15)
    }
}

/// Whether a field which starts with `octet` is a table size update.
pub open spec fn is_update(octet: u8) -> bool {
    32 <= octet < 64
}

/// The place of the first table size update from `at` on whose number is incomplete or too long,
/// unless another field is incomplete in front of it.
pub open spec fn bad_update(block: Seq<u8>, at: int) -> Option<usize>
    decreases block.len() - at,
{
    if at >= block.len() || at < 0 {
        None
    } else {
        match field_len(block.skip(at)) {
            Some(len) => if 0 < len && at + len <= block.len() {
                bad_update(block, at + len)
            } else {
                None
            },
            None => if is_update(block[at]) {
                Some(at as usize)
            } else {
                None
            },
        }
    }
}

/// An integer is at least one and at most five octets long, all of which are there.
proof fn lemma_integer_bounds(s: Seq<u8>, limit: int)
    requires
        1 <= limit <= 127,
    ensures
        integer(s, limit) matches Some((value, octets)) ==> 1 <= octets <= 5 && octets <= s.len()
            && 0 <= value < 0x2000_0000,
{
    if s.len() > 0 && s[0] as int % (limit + 1) >= limit {
        lemma_continued_bounds(s, 1, limit, 1);
    }
}

/// The octets behind a full prefix keep the number small.
proof fn lemma_continued_bounds(s: Seq<u8>, at: int, value: int, factor: int)
    requires
        1 <= at <= 5,
        at == 1 ==> factor == 1 && 0 <= value <= 0x7f,
        at == 2 ==> factor == 0x80 && 0 <= value <= 0xff,
        at == 3 ==> factor == 0x4000 && 0 <= value <= 0x4100,
        at == 4 ==> factor == 0x20_0000 && 0 <= value <= 0x20_4100,
    ensures
        continued(s, at, value, factor) matches Some((value, octets)) ==> 1 <= octets <= 5
            && octets <= s.len() && 0 <= value < 0x2000_0000,
    decreases 5 - at,
{
    if at < 5 && at < s.len() {
        let octet = s[at] as int;
        assert(0 <= octet < 256);
        if at == 1 {
            assert(octet * factor == octet);
        } else if at == 2 {
            assert(octet * factor == octet * 0x80);
        } else if at == 3 {
            assert(octet * factor == octet * 0x4000);
        } else {
            assert(octet * factor == octet * 0x20_0000);
        }
        assert((octet - 128) * factor == octet * factor - 128 * factor) by (nonlinear_arith);
        if octet >= 128 {
            lemma_continued_bounds(s, at + 1, value + (octet - 128) * factor, factor * 128);
        }
    }
}

/// Reads the integer at the begin of `buf`.
fn read_integer(buf: &[u8], limit: usize) -> (ret: Option<(usize, usize)>)
    requires
        1 <= limit <= 127,
    ensures
        integer(buf@, limit as int) == match ret {
            Some((value, octets)) => Some((value as int, octets as int)),
            None => None,
        },
        ret matches Some((value, octets)) ==> 1 <= octets <= buf@.len() && octets <= 5 && value
            < 0x2000_0000,
{
    proof {
        lemma_integer_bounds(buf@, limit as int);
    }
    if buf.len() == 0 {
        return None;
    }
    let prefix: usize = buf[0] as usize % (limit + 1);
    if prefix < limit {
        return Some((prefix, 1));
    }
    let mut value: usize = limit;
    let mut factor: usize = 1;
    let mut at: usize = 1;
    while at < 5
        invariant
            1 <= at <= 5,
            buf@.len() > 0,
            1 <= limit <= 127,
            buf@[0] as int % (limit + 1) == limit,
            integer(buf@, limit as int) == continued(buf@, at as int, value as int, factor as int),
            at == 1 ==> factor == 1 && value <= 127,
            at == 2 ==> factor == 128 && value <= 0xff,
            at == 3 ==> factor == 0x4000 && value <= 0x4100,
            at == 4 ==> factor == 0x20_0000 && value <= 0x20_4100,
            at == 5 ==> value <= 0x1000_4100 + 0x20_0000,
            integer(buf@, limit as int) matches Some((value, octets)) ==> 1 <= octets <= 5
                && octets <= buf@.len() && 0 <= value < 0x2000_0000,
        decreases 5 - at,
    {
        if at >= buf.len() {
            return None;
        }
        let octet: usize = buf[at] as usize;
        if octet < 128 {
            return Some((value + octet * factor, at + 1));
        }
        proof {
            reveal_with_fuel(continued, 3);
        }
        value = value + (octet - 128) * factor;
        if at < 4 {
            factor = factor * 128;
        }
        at = at + 1;
    }

    None
}

/// Measures the string at the begin of `buf`.
fn read_string_len(buf: &[u8]) -> (ret: Option<usize>)
    ensures
        string_len(buf@) == match ret {
            Some(len) => Some(len as int),
            None => None,
        },
        ret matches Some(len) ==> 1 <= len <= buf@.len(),
{
    match read_integer(buf, 127) {
        Some((len, octets)) => if len <= buf.len() - octets {
            Some(octets + len)
        } else {
            None
        },
        None => None,
    }
}

/// Measures the literal field at the begin of `buf`.
fn read_literal_len(buf: &[u8], limit: usize) -> (ret: Option<usize>)
    requires
        1 <= limit <= 127,
    ensures
        literal_len(buf@, limit as int) == match ret {
            Some(len) => Some(len as int),
            None => None,
        },
        ret matches Some(len) ==> 1 <= len <= buf@.len(),
{
    let (index, octets): (usize, usize) = match read_integer(buf, limit) {
        Some(pair) => pair,
        None => return None,
    };
    let rest: &[u8] = vstd::slice::slice_subrange(buf, octets, buf.len());
    proof {
        assert(rest@ =~= buf@.skip(octets as int));
    }
    let name: usize = if index == 0 {
        match read_string_len(rest) {
            Some(len) => len,
            None => return None,
        }
    } else {
        0
    };
    let rest: &[u8] = vstd::slice::slice_subrange(buf, octets + name, buf.len());
    proof {
        assert(rest@ =~= buf@.skip(octets + name));
    }
    match read_string_len(rest) {
        Some(value) => Some(octets + name + value),
        None => None,
    }
}

/// Measures the field at the begin of `buf`.
fn read_field_len(buf: &[u8]) -> (ret: Option<usize>)
    requires
        buf@.len() > 0,
    ensures
        field_len(buf@) == match ret {
            Some(len) => Some(len as int),
            None => None,
        },
        ret matches Some(len) ==> 1 <= len <= buf@.len(),
{
    if buf[0] >= 128 {
        match read_integer(buf, 127) {
            Some((_, octets)) => Some(octets),
            None => None,
        }
    } else if buf[0] >= 64 {
        read_literal_len(buf, 63)
    } else if buf[0] >= 32 {
        match read_integer(buf, 31) {
            Some((_, octets)) => Some(octets),
            None => None,
        }
    } else {
        read_literal_len(buf, 15)
    }
}

/// Finds the first table size update which can not be read.
pub fn find_bad_update(block: &[u8]) -> (ret: Option<usize>)
    ensures
        ret == bad_update(block@, 0),
        ret matches Some(at) ==> at < block@.len() && bad_update(block@.take(at as int), 0) is None,
{
    let mut at: usize = 0;
    while at < block.len()
        invariant
            at <= block@.len(),
            bad_update(block@, 0) == bad_update(block@, at as int),
            sound_up_to(block@, 0, at as int),
        decreases block@.len() - at,
    {
        let rest: &[u8] = vstd::slice::slice_subrange(block, at, block.len());
        proof {
            assert(rest@ =~= block@.skip(at as int));
        }
        match read_field_len(rest) {
            Some(len) => {
                proof {
                    lemma_sound_extend(block@, 0, at as int, len as int);
                }
                at = at + len;
            },
            None => {
                if block[at] >= 32 && block[at] < 64 {
                    proof {
                        lemma_sound_prefix(block@, 0, at as int);
                    }
                    return Some(at);
                }
                return None;
            },
        }
    }

    None
}

/// Whether the fields from `from` on are complete and the last one of them ends at `to`.
spec fn sound_up_to(block: Seq<u8>, from: int, to: int) -> bool
    decreases to - from,
{
    from == to || {
        &&& 0 <= from < to <= block.len()
        &&& field_len(block.skip(from)) matches Some(len)
        &&& 0 < len
        &&& from + len <= to
        &&& sound_up_to(block, from + len, to)
    }
}

proof fn lemma_sound_extend(block: Seq<u8>, from: int, to: int, len: int)
    requires
        0 <= from <= to < block.len(),
        sound_up_to(block, from, to),
        field_len(block.skip(to)) == Some(len),
        0 < len,
        to + len <= block.len(),
    ensures
        sound_up_to(block, from, to + len),
    decreases to - from,
{
    if from == to {
        assert(sound_up_to(block, to + len, to + len));
    } else {
        let first = field_len(block.skip(from))->Some_0;
        lemma_sound_extend(block, from + first, to, len);
    }
}

/// What a field holds does not depend on what comes behind it.
proof fn lemma_field_len_prefix(s: Seq<u8>, n: int)
    requires
        0 < n <= s.len(),
        field_len(s) == Some(n),
    ensures
        forall|m: int| n <= m <= s.len() ==> field_len(#[trigger] s.take(m)) == Some(n),
{
    assert forall|m: int| n <= m <= s.len() implies field_len(#[trigger] s.take(m)) == Some(n) by {
        let t = s.take(m);
        assert(t[0] == s[0]);
        if s[0] >= 128 {
            lemma_integer_prefix(s, 127, m);
        } else if s[0] >= 64 {
            lemma_literal_prefix(s, 63, n, m);
        } else if is_update(s[0]) {
            lemma_integer_prefix(s, 31, m);
        } else {
            lemma_literal_prefix(s, 15, n, m);
        }
    }
}

proof fn lemma_integer_prefix(s: Seq<u8>, limit: int, m: int)
    requires
        1 <= limit <= 127,
        integer(s, limit) matches Some((_, octets)) && octets <= m <= s.len(),
    ensures
        integer(s.take(m), limit) == integer(s, limit),
{
    let t = s.take(m);
    lemma_integer_bounds(s, limit);
    assert(forall|i: int| 0 <= i < m ==> t[i] == s[i]);
    reveal_with_fuel(continued, 6);
}

proof fn lemma_string_prefix(s: Seq<u8>, n: int, m: int)
    requires
        string_len(s) == Some(n),
        n <= m <= s.len(),
    ensures
        string_len(s.take(m)) == Some(n),
        1 <= n,
{
    lemma_integer_bounds(s, 127);
    lemma_integer_prefix(s, 127, m);
}

proof fn lemma_literal_prefix(s: Seq<u8>, limit: int, n: int, m: int)
    requires
        1 <= limit <= 127,
        literal_len(s, limit) == Some(n),
        n <= m <= s.len(),
    ensures
        literal_len(s.take(m), limit) == Some(n),
{
    lemma_integer_bounds(s, limit);
    let (index, octets) = integer(s, limit)->Some_0;
    let name = if index == 0 {
        string_len(s.skip(octets))->Some_0
    } else {
        0
    };
    if index == 0 {
        lemma_integer_bounds(s.skip(octets), 127);
    }
    let value = string_len(s.skip(octets + name))->Some_0;
    lemma_integer_bounds(s.skip(octets + name), 127);
    lemma_integer_prefix(s, limit, m);
    if index == 0 {
        lemma_string_prefix(s.skip(octets), name, m - octets);
        assert(s.skip(octets).take(m - octets) =~= s.take(m).skip(octets));
    }
    lemma_string_prefix(s.skip(octets + name), value, m - octets - name);
    assert(s.skip(octets + name).take(m - octets - name) =~= s.take(m).skip(octets + name));
}

/// The complete fields in front of an unreadable update hold no unreadable update.
proof fn lemma_sound_prefix(block: Seq<u8>, from: int, to: int)
    requires
        0 <= from <= to <= block.len(),
        sound_up_to(block, from, to),
    ensures
        bad_update(block.take(to), from) is None,
    decreases to - from,
{
    if from < to {
        let len = field_len(block.skip(from))->Some_0;
        lemma_field_len_prefix(block.skip(from), len);
        assert(block.skip(from).take(to - from) =~= block.take(to).skip(from));
        lemma_sound_prefix(block, from + len, to);
    }
}

/// A number in groups of seven bits, the lowest ones first. All groups but the last one are marked.
pub open spec fn groups(n: int) -> Seq<u8>
    decreases n,
{
    if n < 128 {
        seq![n as u8]
    } else {
        seq![(n % 128 + 128) as u8] + groups(n / 128)
    }
}

/// The octets of an integer which shares its first octet with the bits `first`.
pub open spec fn written_integer(first: int, n: int, limit: int) -> Seq<u8> {
    if n < limit {
        seq![(first + n) as u8]
    } else {
        seq![(first + limit) as u8] + groups(n - limit)
    }
}

/// The biggest number which fits in `k` groups, and one.
pub open spec fn group_limit(k: int) -> int
    decreases k,
{
    if k <= 0 {
        1
    } else {
        128 * group_limit(k - 1)
    }
}

#[verifier::spinoff_prover]
#[verifier::rlimit(50)]
proof fn lemma_groups_are_read(
    s: Seq<u8>,
    at: int,
    n: int,
    tail: Seq<u8>,
    value: int,
    factor: int,
)
    requires
        1 <= at <= 4,
        at <= s.len(),
        0 <= n < group_limit(5 - at),
        s.skip(at) == groups(n) + tail,
    ensures
        continued(s, at, value, factor) == Some((value + n * factor, at + groups(n).len())),
    decreases 5 - at,
{
    let rest = s.skip(at);
    reveal_with_fuel(group_limit, 5);
    assert(groups(n).len() > 0);
    assert((groups(n) + tail).len() > 0);
    assert(rest.len() == s.len() - at);
    assert(rest[0] == groups(n)[0]);
    assert(s[at] == rest[0]);
    if n >= 128 {
        let low = n % 128;
        let high = n / 128;
        assert(s[at] == low + 128);
        assert(s.skip(at + 1) =~= groups(high) + tail) by {
            assert(rest =~= seq![(n % 128 + 128) as u8] + groups(high) + tail);
            assert(s.skip(at + 1) =~= rest.skip(1));
        }
        assert(at < 4);
        lemma_groups_are_read(s, at + 1, high, tail, value + low * factor, factor * 128);
        assert(low * factor + high * (factor * 128) == n * factor) by (nonlinear_arith)
            requires
                n == 128 * high + low,
        ;
    }
}

/// An integer is read back as it was written, with the number of its octets, unless it needs more
/// than five octets.
#[verifier::spinoff_prover]
#[verifier::rlimit(50)]
pub proof fn law_integer_is_read_back(first: int, n: int, limit: int, tail: Seq<u8>)
    requires
        limit == 15 || limit == 31 || limit == 63 || limit == 127,
        0 <= first,
        first + limit < 256,
        first % (limit + 1) == 0,
        0 <= n < limit + 268_435_456,
    ensures
        integer(written_integer(first, n, limit) + tail, limit) == Some(
            (n, written_integer(first, n, limit).len() as int),
        ),
{
    let written = written_integer(first, n, limit);
    let s = written + tail;
    assert(s[0] == written[0]);
    let low = if n < limit {
        n
    } else {
        limit
    };
    assert((first + low) % (limit + 1) == low) by {
        vstd::arithmetic::div_mod::lemma_add_mod_noop(first, low, limit + 1);
        vstd::arithmetic::div_mod::lemma_small_mod(low as nat, (limit + 1) as nat);
    }
    if n >= limit {
        reveal_with_fuel(group_limit, 5);
        assert(s.skip(1) =~= groups(n - limit) + tail);
        lemma_groups_are_read(s, 1, n - limit, tail, limit, 1);
    }
}

/// The octets of a string, which is either plain or compressed.
pub open spec fn written_string(compressed: bool, data: Seq<u8>) -> Seq<u8> {
    written_integer(
        if compressed {
            128
        } else {
            0
        },
        data.len() as int,
        127,
    ) + data
}

/// A string is as long as it was written.
pub proof fn law_string_is_read_back(compressed: bool, data: Seq<u8>, tail: Seq<u8>)
    requires
        data.len() < 268_435_456,
    ensures
        string_len(written_string(compressed, data) + tail) == Some(
            written_string(compressed, data).len() as int,
        ),
{
    let first: int = if compressed {
        128
    } else {
        0
    };
    let front = written_integer(first, data.len() as int, 127);
    law_integer_is_read_back(first, data.len() as int, 127, data + tail);
    assert(written_string(compressed, data) + tail =~= front + (data + tail));
}

/// A field of a header block.
pub enum HpackField {
    /// A field of the table.
    Indexed(int),
    /// A new size of the table.
    Update(int),
    /// A field with a name of the table, which starts with the given bits, and a value.
    Named(LiteralKind, int, bool, Seq<u8>),
    /// A field with a name and a value of its own.
    New(LiteralKind, bool, Seq<u8>, bool, Seq<u8>),
}

/// How a literal field affects the table.
pub enum LiteralKind {
    /// It is added to the table.
    Added,
    /// It is not added to the table.
    Left,
    /// It is never added to a table.
    Never,
}

impl LiteralKind {
    /// The bits in front of the index.
    pub open spec fn first(self) -> int {
        match self {
            LiteralKind::Added => 64,
            LiteralKind::Left => 0,
            LiteralKind::Never => 16,
        }
    }

    /// The biggest index which needs no more octets.
    pub open spec fn limit(self) -> int {
        match self {
            LiteralKind::Added => 63,
            LiteralKind::Left => 15,
            LiteralKind::Never => 15,
        }
    }
}

impl HpackField {
    /// All numbers of the field can be written in five octets.
    pub open spec fn wf(self) -> bool {
        match self {
            HpackField::Indexed(n) => 0 <= n < 268_435_456,
            HpackField::Update(n) => 0 <= n < 268_435_456,
            HpackField::Named(_, n, _, value) => 0 < n < 268_435_456 && value.len() < 268_435_456,
            HpackField::New(_, _, name, _, value) => name.len() < 268_435_456 && value.len()
                < 268_435_456,
        }
    }

    /// The octets of the field.
    #[verifier::opaque]
    pub open spec fn written(self) -> Seq<u8> {
        match self {
            HpackField::Indexed(n) => written_integer(128, n, 127),
            HpackField::Update(n) => written_integer(32, n, 31),
            HpackField::Named(kind, n, compressed, value) => written_integer(
                kind.first(),
                n,
                kind.limit(),
            ) + written_string(compressed, value),
            HpackField::New(kind, short, name, compressed, value) => written_integer(
                kind.first(),
                0,
                kind.limit(),
            ) + written_string(short, name) + written_string(compressed, value),
        }
    }
}

/// The first octet of a field tells which kind it is.
proof fn lemma_first_octet(first: int, n: int, limit: int, tail: Seq<u8>)
    requires
        limit == 15 || limit == 31 || limit == 63 || limit == 127,
        0 <= first,
        first + limit < 256,
        0 <= n,
    ensures
        written_integer(first, n, limit).len() > 0,
        first <= (written_integer(first, n, limit) + tail)[0] <= first + limit,
{
    let written = written_integer(first, n, limit);
    assert((written + tail)[0] == written[0]);
}

/// A literal field with a name of the table is as long as it was written.
#[verifier::spinoff_prover]
#[verifier::rlimit(50)]
proof fn lemma_named_is_read_back(
    first: int,
    limit: int,
    n: int,
    compressed: bool,
    value: Seq<u8>,
    tail: Seq<u8>,
)
    requires
        limit == 15 || limit == 63,
        0 <= first,
        first + limit < 256,
        first % (limit + 1) == 0,
        0 < n < 268_435_456,
        value.len() < 268_435_456,
    ensures
        ({
            let written = written_integer(first, n, limit) + written_string(compressed, value);
            literal_len(written + tail, limit) == Some(written.len() as int)
        }),
{
    let front = written_integer(first, n, limit);
    let text = written_string(compressed, value);
    let s = front + text + tail;
    law_integer_is_read_back(first, n, limit, text + tail);
    law_string_is_read_back(compressed, value, tail);
    assert(s =~= front + (text + tail));
    assert(s.skip(front.len() as int) =~= text + tail);
}

/// A literal field with a name of its own is as long as it was written.
#[verifier::spinoff_prover]
#[verifier::rlimit(50)]
proof fn lemma_new_is_read_back(
    first: int,
    limit: int,
    short: bool,
    name: Seq<u8>,
    compressed: bool,
    value: Seq<u8>,
    tail: Seq<u8>,
)
    requires
        limit == 15 || limit == 63,
        0 <= first,
        first + limit < 256,
        first % (limit + 1) == 0,
        name.len() < 268_435_456,
        value.len() < 268_435_456,
    ensures
        ({
            let written = written_integer(first, 0, limit) + written_string(short, name)
                + written_string(compressed, value);
            literal_len(written + tail, limit) == Some(written.len() as int)
        }),
{
    let front = written_integer(first, 0, limit);
    let key = written_string(short, name);
    let text = written_string(compressed, value);
    let s = front + key + text + tail;
    law_integer_is_read_back(first, 0, limit, key + text + tail);
    law_string_is_read_back(short, name, text + tail);
    law_string_is_read_back(compressed, value, tail);
    assert(s =~= front + (key + text + tail));
    assert(s.skip(front.len() as int) =~= key + (text + tail));
    assert(s.skip((front.len() + key.len()) as int) =~= text + tail);
}

/// The length of a literal field, by its kind.
proof fn lemma_literal_field(kind: LiteralKind, s: Seq<u8>)
    requires
        s.len() > 0,
        kind.first() <= s[0] <= kind.first() + kind.limit(),
    ensures
        field_len(s) == literal_len(s, kind.limit()),
{
}

#[verifier::spinoff_prover]
#[verifier::rlimit(50)]
proof fn lemma_named_field(
    kind: LiteralKind,
    n: int,
    compressed: bool,
    value: Seq<u8>,
    tail: Seq<u8>,
)
    requires
        0 < n < 268_435_456,
        value.len() < 268_435_456,
    ensures
        ({
            let written = HpackField::Named(kind, n, compressed, value).written();
            field_len(written + tail) == Some(written.len() as int)
        }),
{
    reveal(HpackField::written);
    let front = written_integer(kind.first(), n, kind.limit());
    let text = written_string(compressed, value);
    let s = front + text + tail;
    lemma_first_octet(kind.first(), n, kind.limit(), text + tail);
    assert(s =~= front + (text + tail));
    lemma_literal_field(kind, s);
    match kind {
        LiteralKind::Added => lemma_named_is_read_back(64, 63, n, compressed, value, tail),
        LiteralKind::Left => lemma_named_is_read_back(0, 15, n, compressed, value, tail),
        LiteralKind::Never => lemma_named_is_read_back(16, 15, n, compressed, value, tail),
    }
}

#[verifier::spinoff_prover]
#[verifier::rlimit(50)]
proof fn lemma_new_field(
    kind: LiteralKind,
    short: bool,
    name: Seq<u8>,
    compressed: bool,
    value: Seq<u8>,
    tail: Seq<u8>,
)
    requires
        name.len() < 268_435_456,
        value.len() < 268_435_456,
    ensures
        ({
            let written = HpackField::New(kind, short, name, compressed, value).written();
            field_len(written + tail) == Some(written.len() as int)
        }),
{
    reveal(HpackField::written);
    let front = written_integer(kind.first(), 0, kind.limit());
    let key = written_string(short, name);
    let text = written_string(compressed, value);
    let s = front + key + text + tail;
    lemma_first_octet(kind.first(), 0, kind.limit(), key + text + tail);
    assert(s =~= front + (key + text + tail));
    lemma_literal_field(kind, s);
    match kind {
        LiteralKind::Added => {
            lemma_new_is_read_back(64, 63, short, name, compressed, value, tail);
        },
        LiteralKind::Left => {
            lemma_new_is_read_back(0, 15, short, name, compressed, value, tail);
        },
        LiteralKind::Never => {
            lemma_new_is_read_back(16, 15, short, name, compressed, value, tail);
        },
    }
}

/// A field is as long as it was written, whatever comes behind it.
#[verifier::spinoff_prover]
#[verifier::rlimit(50)]
pub proof fn law_field_is_read_back(field: HpackField, tail: Seq<u8>)
    requires
        field.wf(),
    ensures
        field.written().len() > 0,
        field_len(field.written() + tail) == Some(field.written().len() as int),
{
    reveal(HpackField::written);
    match field {
        HpackField::Indexed(n) => {
            lemma_first_octet(128, n, 127, tail);
            law_integer_is_read_back(128, n, 127, tail);
        },
        HpackField::Update(n) => {
            lemma_first_octet(32, n, 31, tail);
            law_integer_is_read_back(32, n, 31, tail);
        },
        HpackField::Named(kind, n, compressed, value) => {
            lemma_first_octet(kind.first(), n, kind.limit(), tail);
            lemma_named_field(kind, n, compressed, value, tail);
        },
        HpackField::New(kind, short, name, compressed, value) => {
            lemma_first_octet(kind.first(), 0, kind.limit(), tail);
            lemma_new_field(kind, short, name, compressed, value, tail);
        },
    }
}

/// Some fields behind each other.
pub open spec fn written_fields(fields: Seq<HpackField>) -> Seq<u8>
    decreases fields.len(),
{
    if fields.len() == 0 {
        Seq::empty()
    } else {
        fields[0].written() + written_fields(fields.skip(1))
    }
}

proof fn lemma_bad_update_behind(front: Seq<u8>, rest: Seq<u8>, at: int)
    requires
        0 <= at,
        front.len() + rest.len() <= usize::MAX,
    ensures
        bad_update(front + rest, front.len() + at) == match bad_update(rest, at) {
            Some(place) => Some((front.len() + place) as usize),
            None => None,
        },
    decreases rest.len() - at,
{
    let s = front + rest;
    if at < rest.len() {
        assert(s.skip(front.len() + at) =~= rest.skip(at));
        assert(s[front.len() + at] == rest[at]);
        if let Some(len) = field_len(rest.skip(at)) {
            if 0 < len && at + len <= rest.len() {
                lemma_bad_update_behind(front, rest, at + len);
            }
        }
    }
}

/// What is found is in the block.
proof fn lemma_bad_update_in_range(block: Seq<u8>, at: int)
    requires
        0 <= at,
        block.len() <= usize::MAX,
    ensures
        bad_update(block, at) matches Some(place) ==> place < block.len(),
    decreases block.len() - at,
{
    if at < block.len() {
        if let Some(len) = field_len(block.skip(at)) {
            if 0 < len && at + len <= block.len() {
                lemma_bad_update_in_range(block, at + len);
            }
        }
    }
}

/// A complete field is passed over.
proof fn lemma_field_is_passed_over(first: Seq<u8>, behind: Seq<u8>)
    requires
        first.len() > 0,
        first.len() + behind.len() <= usize::MAX,
        field_len(first + behind) == Some(first.len() as int),
    ensures
        bad_update(first + behind, 0) == match bad_update(behind, 0) {
            Some(place) => Some((first.len() + place) as usize),
            None => None,
        },
{
    let s = first + behind;
    assert(s.skip(0) =~= s);
    lemma_bad_update_behind(first, behind, 0);
}

/// Complete fields are passed over: what is found behind them is what would be found without them.
/// In a block of complete fields there is nothing to be found.
#[verifier::spinoff_prover]
#[verifier::rlimit(50)]
pub proof fn law_complete_fields_are_passed_over(fields: Seq<HpackField>, rest: Seq<u8>)
    requires
        forall|i: int| 0 <= i < fields.len() ==> (#[trigger] fields[i]).wf(),
        written_fields(fields).len() + rest.len() <= usize::MAX,
    ensures
        bad_update(written_fields(fields) + rest, 0) == match bad_update(rest, 0) {
            Some(place) => Some((written_fields(fields).len() + place) as usize),
            None => None,
        },
        bad_update(Seq::empty(), 0) is None,
    decreases fields.len(),
{
    if fields.len() == 0 {
        assert(written_fields(fields) + rest =~= rest);
    } else {
        let first = fields[0].written();
        let others = fields.skip(1);
        let behind = written_fields(others) + rest;
        let s = written_fields(fields) + rest;
        assert(fields[0].wf());
        assert forall|i: int| 0 <= i < others.len() implies (#[trigger] others[i]).wf() by {
            assert(others[i] == fields[i + 1]);
        }
        law_field_is_read_back(fields[0], behind);
        assert(s =~= first + behind);
        lemma_field_is_passed_over(first, behind);
        lemma_bad_update_in_range(rest, 0);
        law_complete_fields_are_passed_over(others, rest);
    }
}

/// A table size update whose number does not end, within the block or within five octets, is found.
/// Any other field which does not end is none.
#[verifier::spinoff_prover]
#[verifier::rlimit(50)]
pub proof fn law_endless_update_is_found(s: Seq<u8>)
    requires
        s.len() > 0,
        forall|i: int| 1 <= i < 5 && i < s.len() ==> #[trigger] s[i] >= 128,
    ensures
        s[0] == 63 ==> bad_update(s, 0) == Some(0usize),
        s[0] == 255 ==> bad_update(s, 0) is None,
        s[0] == 127 ==> bad_update(s, 0) is None,
        s[0] == 15 || s[0] == 31 ==> bad_update(s, 0) is None,
{
    assert(s.skip(0) =~= s);
    assert(forall|value: int, factor: int| #[trigger] continued(s, 1, value, factor) is None) by {
        reveal_with_fuel(continued, 6);
    }
    assert(63int % 32 == 31 && 255int % 128 == 127 && 127int % 64 == 63);
    assert(15int % 16 == 15 && 31int % 16 == 15);
    if s[0] == 127 {
        assert(literal_len(s, 63) is None);
    } else if s[0] == 15 {
        assert(literal_len(s, 15) is None);
    } else if s[0] == 31 {
        assert(literal_len(s, 15) is None);
    }
}

} // verus!
