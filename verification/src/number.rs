//! Decimal and hexadecimal numbers in text.

use vstd::prelude::*;

verus! {

/// A decimal digit.
pub open spec fn is_digit(b: u8) -> bool {
    48 <= b <= 57
}

/// Whether all bytes are decimal digits.
pub open spec fn all_digits(s: Seq<u8>) -> bool {
    forall|i: int| 0 <= i < s.len() ==> is_digit(#[trigger] s[i])
}

/// The number which a string of decimal digits stands for.
pub open spec fn decimal(s: Seq<u8>) -> int
    decreases s.len(),
{
    if s.len() == 0 {
        0
    } else {
        10 * decimal(s.drop_last()) + (s.last() - 48)
    }
}

/// The digits of a number behind an optional plus sign.
pub open spec fn without_plus(s: Seq<u8>) -> Seq<u8> {
    if s.len() > 0 && s[0] == 43 {
        s.skip(1)
    } else {
        s
    }
}

/// The number which `s` stands for: digits behind an optional plus sign, up to `max`.
pub open spec fn parsed_decimal(s: Seq<u8>, max: int) -> Option<int> {
    let digits = without_plus(s);
    if digits.len() > 0 && all_digits(digits) && decimal(digits) <= max {
        Some(decimal(digits))
    } else {
        None
    }
}

/// The [`u64`] which `s` stands for.
pub open spec fn parsed_u64(s: Seq<u8>) -> Option<u64> {
    match parsed_decimal(s, u64::MAX as int) {
        Some(n) => Some(n as u64),
        None => None,
    }
}

/// The [`usize`] which `s` stands for.
pub open spec fn parsed_usize(s: Seq<u8>) -> Option<usize> {
    match parsed_decimal(s, usize::MAX as int) {
        Some(n) => Some(n as usize),
        None => None,
    }
}

/// A number does not shrink when digits are added.
proof fn lemma_decimal_grows(s: Seq<u8>, n: int)
    requires
        all_digits(s),
        0 <= n <= s.len(),
    ensures
        0 <= decimal(s.take(n)) <= decimal(s),
    decreases s.len(),
{
    if s.len() > 0 {
        assert forall|i: int| 0 <= i < s.len() - 1 implies is_digit(
            #[trigger] s.drop_last()[i],
        ) by {
            assert(s.drop_last()[i] == s[i]);
        }
    }
    if s.len() == 0 {
        assert(s.take(n) =~= s);
    } else if n == s.len() {
        assert(s.take(n) =~= s);
        lemma_decimal_grows(s.drop_last(), s.len() - 1);
        assert(s.drop_last().take(s.len() - 1) =~= s.drop_last());
        assert(is_digit(s[s.len() - 1]));
    } else {
        lemma_decimal_grows(s.drop_last(), n);
        assert(s.drop_last().take(n) =~= s.take(n));
        assert(is_digit(s[s.len() - 1]));
    }
}

/// Parses a decimal number.
pub fn parse_u64(text: &[u8]) -> (ret: Option<u64>)
    ensures
        ret == parsed_u64(text@),
{
    let begin: usize = if text.len() > 0 && text[0] == 43 {
        1
    } else {
        0
    };
    let digits: &[u8] = vstd::slice::slice_subrange(text, begin, text.len());
    proof {
        assert(digits@ =~= without_plus(text@));
    }
    if digits.len() == 0 {
        return None;
    }
    let mut i: usize = 0;
    while i < digits.len()
        invariant
            i <= digits@.len(),
            forall|j: int| 0 <= j < i ==> is_digit(#[trigger] digits@[j]),
            digits@ == without_plus(text@),
        decreases digits@.len() - i,
    {
        if digits[i] < 48 || digits[i] > 57 {
            return None;
        }
        i = i + 1;
    }
    let mut total: u64 = 0;
    i = 0;
    while i < digits.len()
        invariant
            i <= digits@.len(),
            all_digits(digits@),
            digits@.len() > 0,
            digits@ == without_plus(text@),
            total == decimal(digits@.take(i as int)),
        decreases digits@.len() - i,
    {
        let digit: u64 = (digits[i] - 48) as u64;
        proof {
            assert(digits@.take(i + 1).drop_last() =~= digits@.take(i as int));
            lemma_decimal_grows(digits@, i + 1);
        }
        total = match total.checked_mul(10) {
            Some(total) => total,
            None => return None,
        };
        total = match total.checked_add(digit) {
            Some(total) => total,
            None => return None,
        };
        i = i + 1;
    }
    proof {
        assert(digits@.take(i as int) =~= digits@);
    }

    Some(total)
}

/// Parses a decimal number which has to fit in a [`usize`].
pub fn parse_usize(text: &[u8]) -> (ret: Option<usize>)
    ensures
        ret == parsed_usize(text@),
{
    proof {
        let digits = without_plus(text@);
        if all_digits(digits) {
            lemma_decimal_grows(digits, 0);
        }
    }
    match parse_u64(text) {
        Some(n) => if n <= usize::MAX as u64 {
            Some(n as usize)
        } else {
            None
        },
        None => None,
    }
}

/// The decimal digits of a number, without leading zeros.
pub open spec fn decimal_text(n: nat) -> Seq<u8>
    decreases n,
{
    if n < 10 {
        seq![(48 + n) as u8]
    } else {
        decimal_text(n / 10).push((48 + n % 10) as u8)
    }
}

/// Writes a number in decimal digits.
pub fn to_decimal(n: u64) -> (text: Vec<u8>)
    ensures
        text@ == decimal_text(n as nat),
    decreases n,
{
    if n < 10 {
        let mut text: Vec<u8> = Vec::new();
        text.push(48 + n as u8);
        proof {
            assert(text@ =~= decimal_text(n as nat));
        }

        text
    } else {
        let mut text: Vec<u8> = to_decimal(n / 10);
        text.push(48 + (n % 10) as u8);

        text
    }
}

/// Reading a written number gives it back.
pub proof fn law_decimal_round_trip(n: u64)
    ensures
        parsed_u64(decimal_text(n as nat)) == Some(n),
        n <= usize::MAX ==> parsed_usize(decimal_text(n as nat)) == Some(n as usize),
{
    lemma_decimal_text(n as nat);
    let text = decimal_text(n as nat);
    assert(is_digit(text[0]));
    assert(without_plus(text) =~= text);
}

/// A written number consists of digits.
pub proof fn law_decimal_digits(n: u64)
    ensures
        decimal_text(n as nat).len() > 0,
        all_digits(decimal_text(n as nat)),
{
    lemma_decimal_text(n as nat);
}

proof fn lemma_decimal_text(n: nat)
    ensures
        decimal_text(n).len() > 0,
        all_digits(decimal_text(n)),
        decimal(decimal_text(n)) == n,
    decreases n,
{
    let text = decimal_text(n);
    if n < 10 {
        assert(text.drop_last() =~= Seq::empty());
        assert(decimal(text.drop_last()) == 0);
    } else {
        lemma_decimal_text(n / 10);
        let front = decimal_text(n / 10);
        assert(text.drop_last() =~= front);
        assert forall|i: int| 0 <= i < text.len() implies is_digit(#[trigger] text[i]) by {
            if i < front.len() {
                assert(text[i] == front[i]);
            }
        }
    }
}

/// The hexadecimal digit with the given value, in lower case.
pub open spec fn hex_char(n: int) -> u8 {
    if n < 10 {
        (48 + n) as u8
    } else {
        (87 + n) as u8
    }
}

/// The hexadecimal digits of a number in lower case, without leading zeros.
pub open spec fn hex_text(n: nat) -> Seq<u8>
    decreases n,
{
    if n < 16 {
        seq![hex_char(n as int)]
    } else {
        hex_text(n / 16).push(hex_char(n as int % 16))
    }
}

/// Writes a number in hexadecimal digits.
pub fn to_hex(n: usize) -> (text: Vec<u8>)
    ensures
        text@ == hex_text(n as nat),
    decreases n,
{
    let digit: u8 = (n % 16) as u8;
    let last: u8 = if digit < 10 {
        48 + digit
    } else {
        87 + digit
    };
    let mut text: Vec<u8> = if n < 16 {
        Vec::new()
    } else {
        to_hex(n / 16)
    };
    text.push(last);
    proof {
        assert(text@ =~= hex_text(n as nat));
    }

    text
}

/// The hexadecimal text of a number holds only digits, stands for the number and is not longer
/// than a [`usize`] allows.
pub proof fn law_hex_round_trip(n: usize)
    ensures
        hex_text(n as nat).len() > 0,
        crate::parse::all_hex(hex_text(n as nat)),
        crate::parse::hex_number(hex_text(n as nat)) == n,
        hex_text(n as nat).len() <= crate::parse::hex_capacity(),
{
    lemma_hex_text(n as nat);
    if usize::BITS == 32 {
        lemma_hex_text_len(n as nat, 8);
    } else {
        lemma_hex_text_len(n as nat, 16);
    }
}

proof fn lemma_hex_text(n: nat)
    ensures
        hex_text(n).len() > 0,
        crate::parse::all_hex(hex_text(n)),
        crate::parse::hex_number(hex_text(n)) == n,
    decreases n,
{
    let text = hex_text(n);
    if n < 16 {
        assert(text.drop_last() =~= Seq::empty());
        assert(crate::parse::hex_number(text.drop_last()) == 0);
    } else {
        lemma_hex_text(n / 16);
        let front = hex_text(n / 16);
        assert(text.drop_last() =~= front);
        assert forall|i: int| 0 <= i < text.len() implies crate::parse::is_hex(
            #[trigger] text[i],
        ) by {
            if i < front.len() {
                assert(text[i] == front[i]);
            }
        }
    }
}

/// The first number which needs more than `digits` hexadecimal digits.
spec fn digits_limit(digits: nat) -> nat
    decreases digits,
{
    if digits == 0 {
        1
    } else {
        16 * digits_limit((digits - 1) as nat)
    }
}

proof fn lemma_hex_text_len(n: nat, digits: nat)
    requires
        digits == 8 && n < 0x1_0000_0000 || digits == 16 && n < 0x1_0000_0000_0000_0000,
    ensures
        hex_text(n).len() <= digits,
{
    assert(digits_limit(8) == 0x1_0000_0000 && digits_limit(16) == 0x1_0000_0000_0000_0000) by {
        reveal_with_fuel(digits_limit, 17);
    }
    lemma_hex_text_fits(n, digits);
}

proof fn lemma_hex_text_fits(n: nat, digits: nat)
    requires
        digits > 0,
        n < digits_limit(digits),
    ensures
        hex_text(n).len() <= digits,
    decreases digits,
{
    if n >= 16 {
        if digits == 1 {
            assert(digits_limit(1) == 16) by {
                reveal_with_fuel(digits_limit, 2);
            }
        }
        lemma_hex_text_fits(n / 16, (digits - 1) as nat);
    }
}

proof fn lemma_push_digit(s: Seq<u8>, digit: u8)
    requires
        is_digit(digit),
    ensures
        all_digits(s.push(digit)) <==> all_digits(s),
        decimal(s.push(digit)) == 10 * decimal(s) + (digit - 48),
{
    assert(s.push(digit).drop_last() =~= s);
    if all_digits(s.push(digit)) {
        assert forall|i: int| 0 <= i < s.len() implies is_digit(#[trigger] s[i]) by {
            assert(is_digit(s.push(digit)[i]));
        }
    }
}

proof fn lemma_decimal_is_positive(s: Seq<u8>)
    requires
        all_digits(s),
    ensures
        0 <= decimal(s),
    decreases s.len(),
{
    if s.len() > 0 {
        assert(is_digit(s[s.len() - 1]));
        assert forall|i: int| 0 <= i < s.drop_last().len() implies is_digit(
            #[trigger] s.drop_last()[i],
        ) by {
            assert(is_digit(s[i]));
        }
        lemma_decimal_is_positive(s.drop_last());
    }
}

/// A digit behind a number makes it ten times as big and adds the digit, as long as the limit allows
/// it. A number which is too big stays too big, and what is no number does not become one.
pub proof fn law_next_digit(s: Seq<u8>, digit: u8, max: int)
    requires
        is_digit(digit),
        s.len() > 0,
        s != seq![43u8],
    ensures
        parsed_decimal(s.push(digit), max) == match parsed_decimal(s, max) {
            Some(n) => if 10 * n + (digit - 48) <= max {
                Some(10 * n + (digit - 48))
            } else {
                None
            },
            None => None,
        },
{
    let digits = without_plus(s);
    assert(s.push(digit)[0] == s[0]);
    assert(digits.len() > 0) by {
        if s[0] == 43 && s.len() == 1 {
            assert(s =~= seq![43u8]);
        }
    }
    assert(without_plus(s.push(digit)) =~= digits.push(digit));
    lemma_push_digit(digits, digit);
    if all_digits(digits) {
        lemma_decimal_is_positive(digits);
    }
}

/// A single digit stands for itself, and so does one behind a plus. A byte which is no digit makes
/// everything behind it no number.
pub proof fn law_first_digit(b: u8, max: int)
    requires
        max >= 9,
    ensures
        parsed_decimal(seq![b], max) == if 48 <= b <= 57 {
            Some(b - 48)
        } else {
            None
        },
        parsed_decimal(seq![43u8, b], max) == if 48 <= b <= 57 {
            Some(b - 48)
        } else {
            None
        },
        parsed_decimal(Seq::empty(), max) is None,
{
    let one = seq![b];
    assert(one.drop_last() =~= Seq::empty());
    assert(one.last() == b);
    assert(decimal(one) == b - 48) by {
        assert(decimal(Seq::<u8>::empty()) == 0);
    }
    assert(all_digits(one) <==> is_digit(b)) by {
        if all_digits(one) {
            assert(is_digit(one[0]));
        }
    }
    assert(seq![43u8, b].skip(1) =~= one);
    assert(without_plus(seq![43u8, b]) =~= one);
    if b != 43 {
        assert(without_plus(one) =~= one);
    } else {
        assert(without_plus(one) =~= Seq::empty());
    }
}

/// A text with a byte which is no digit, other than a plus in front, is no number.
pub proof fn law_only_digits_make_a_number(s: Seq<u8>, i: int, max: int)
    requires
        0 <= i < s.len(),
        !is_digit(s[i]),
        i > 0 || s[i] != 43,
    ensures
        parsed_decimal(s, max) is None,
{
    let digits = without_plus(s);
    if s[0] == 43 {
        assert(digits[i - 1] == s[i]);
    } else {
        assert(digits[i] == s[i]);
    }
}

/// A number is written without leading zeros.
pub proof fn law_no_leading_zeros(n: nat)
    ensures
        decimal_text(n)[0] == 48 ==> n == 0 && decimal_text(n).len() == 1,
        hex_text(n)[0] == 48 ==> n == 0 && hex_text(n).len() == 1,
        decimal_text(n).len() > 0,
        hex_text(n).len() > 0,
{
    lemma_decimal_starts(n);
    lemma_hex_starts(n);
}

proof fn lemma_decimal_starts(n: nat)
    ensures
        decimal_text(n).len() > 0,
        decimal_text(n)[0] == 48 ==> n == 0 && decimal_text(n).len() == 1,
    decreases n,
{
    if n >= 10 {
        lemma_decimal_starts(n / 10);
    }
}

proof fn lemma_hex_starts(n: nat)
    ensures
        hex_text(n).len() > 0,
        hex_text(n)[0] == 48 ==> n == 0 && hex_text(n).len() == 1,
    decreases n,
{
    if n >= 16 {
        lemma_hex_starts(n / 16);
    }
}

/// Hexadecimal digits are written in lower case.
pub proof fn law_hex_is_lower_case(n: nat, i: int)
    requires
        0 <= i < hex_text(n).len(),
    ensures
        48 <= hex_text(n)[i] <= 57 || 97 <= hex_text(n)[i] <= 102,
    decreases n,
{
    if n >= 16 && i < hex_text(n).len() - 1 {
        law_hex_is_lower_case(n / 16, i);
    }
}

} // verus!
