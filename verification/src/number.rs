//! Numbers as text.

use vstd::prelude::*;
use vstd::string::*;

use crate::text::chars_of;

verus! {

/// The character of a decimal digit.
pub open spec fn digit_char(d: nat) -> char {
    (48 + d) as char
}

/// Whether a character is a decimal digit.
pub open spec fn is_digit(c: char) -> bool {
    '0' <= c <= '9'
}

/// A number in decimal, without leading zeros.
pub open spec fn decimal(n: nat) -> Seq<char>
    decreases n,
{
    if n < 10 {
        seq![digit_char(n)]
    } else {
        decimal(n / 10).push(digit_char(n % 10))
    }
}

/// The number that a row of decimal digits stands for.
pub open spec fn digits_value(s: Seq<char>) -> nat
    decreases s.len(),
{
    if s.len() == 0 {
        0
    } else {
        digits_value(s.drop_last()) * 10 + (s.last() as nat - 48) as nat
    }
}

/// Whether a text is a row of decimal digits and nothing else.
pub open spec fn all_digits(s: Seq<char>) -> bool {
    s.len() > 0 && forall|i: int| 0 <= i < s.len() ==> is_digit(#[trigger] s[i])
}

/// A text without the plus sign at its start.
pub open spec fn without_plus(s: Seq<char>) -> Seq<char> {
    if s.len() > 0 && s[0] == '+' {
        s.drop_first()
    } else {
        s
    }
}

/// The number that a text stands for, if it is at most `max`: decimal digits,
/// with or without a plus sign before them.
pub open spec fn unsigned_value(s: Seq<char>, max: nat) -> Option<nat> {
    let digits = without_plus(s);
    if all_digits(digits) && digits_value(digits) <= max {
        Some(digits_value(digits))
    } else {
        None
    }
}

/// Writes a number in decimal at the end of a string.
pub fn append_decimal(s: &mut String, n: u64)
    ensures
        final(s)@ == old(s)@ + decimal(n as nat),
    decreases n,
{
    if n >= 10 {
        append_decimal(s, n / 10);
    }
    let d: u8 = (n % 10) as u8;
    s.push((48u8 + d) as char);
    assert(s@ == old(s)@ + decimal(n as nat));
}

/// A number in decimal.
pub fn decimal_string(n: u64) -> (s: String)
    ensures
        s@ == decimal(n as nat),
{
    let mut s = String::new();
    append_decimal(&mut s, n);
    s
}

/// Digits stand for at least what those before the last one stand for.
proof fn lemma_prefix_value(s: Seq<char>, i: int)
    requires
        all_digits(s),
        0 <= i <= s.len(),
    ensures
        digits_value(s.take(i)) <= digits_value(s),
    decreases s.len() - i,
{
    if i < s.len() {
        lemma_prefix_value(s, i + 1);
        assert(s.take(i + 1).drop_last() == s.take(i));
        assert(is_digit(s[i]));
    } else {
        assert(s.take(i) == s);
    }
}

/// Reads a row of decimal digits that stands for at most `max`, from place
/// `from` on.
fn read_digits(cs: &[char], from: usize, max: u64) -> (r: Option<u64>)
    requires
        from <= cs@.len(),
    ensures
        ({
            let digits = cs@.skip(from as int);
            match r {
                Some(n) => all_digits(digits) && digits_value(digits) == n && n <= max,
                None => !(all_digits(digits) && digits_value(digits) <= max),
            }
        }),
{
    let ghost digits = cs@.skip(from as int);
    if from == cs.len() {
        return None;
    }
    let mut value: u64 = 0;
    let mut i: usize = from;
    assert(digits.take(0) == Seq::<char>::empty());
    while i < cs.len()
        invariant
            from <= i <= cs@.len(),
            from < cs@.len(),
            digits == cs@.skip(from as int),
            value <= max,
            value == digits_value(digits.take(i - from)),
            forall|j: int| 0 <= j < i - from ==> is_digit(#[trigger] digits[j]),
        decreases cs@.len() - i,
    {
        let c = cs[i];
        assert(digits[i - from] == c);
        if !('0' <= c && c <= '9') {
            return None;
        }
        let d: u64 = (c as u32 as u64) - 48;
        proof {
            let k = i - from;
            assert(digits.take(k + 1).drop_last() == digits.take(k));
            assert(digits_value(digits.take(k + 1)) == value * 10 + d);
            if all_digits(digits) {
                lemma_prefix_value(digits, k + 1);
            }
        }
        if d > max || value > (max - d) / 10 {
            return None;
        }
        value = value * 10 + d;
        i = i + 1;
    }
    assert(digits.take(digits.len() as int) == digits);
    Some(value)
}

/// Reads a number of at most `max`.
pub fn parse_unsigned(s: &str, max: u64) -> (r: Option<u64>)
    ensures
        match r {
            Some(n) => unsigned_value(s@, max as nat) == Some(n as nat),
            None => unsigned_value(s@, max as nat) is None,
        },
{
    let cs = chars_of(s);
    assert(cs@.skip(0) == cs@);
    assert(cs@.len() > 0 ==> cs@.skip(1) == cs@.drop_first());
    let from: usize = if cs.len() > 0 && cs[0] == '+' { 1 } else { 0 };
    read_digits(cs.as_slice(), from, max)
}

/// The process number that a text stands for: decimal digits, with or without a
/// sign before them, in the range of `i32`.
pub open spec fn signed_value(s: Seq<char>) -> Option<int> {
    if s.len() > 0 && s[0] == '-' {
        let digits = s.drop_first();
        if all_digits(digits) && digits_value(digits) <= 0x8000_0000 {
            Some(-(digits_value(digits) as int))
        } else {
            None
        }
    } else {
        match unsigned_value(s, 0x7fff_ffff) {
            Some(n) => Some(n as int),
            None => None,
        }
    }
}

/// Reads a signed number.
pub fn parse_signed(s: &str) -> (r: Option<i32>)
    ensures
        match r {
            Some(n) => signed_value(s@) == Some(n as int),
            None => signed_value(s@) is None,
        },
{
    let cs = chars_of(s);
    if cs.len() > 0 && cs[0] == '-' {
        assert(cs@.skip(1) == cs@.drop_first());
        match read_digits(cs.as_slice(), 1, 0x8000_0000) {
            Some(n) => Some((0 - (n as i64)) as i32),
            None => None,
        }
    } else {
        match parse_unsigned(s, 0x7fff_ffff) {
            Some(n) => Some(n as i32),
            None => None,
        }
    }
}

/// What is written in decimal is read back as the same number.
pub proof fn lemma_decimal_read_back(n: nat)
    ensures
        all_digits(decimal(n)),
        digits_value(decimal(n)) == n,
        decimal(n)[0] != '+',
    decreases n,
{
    if n < 10 {
        let s = decimal(n);
        reveal_with_fuel(digits_value, 2);
        assert(s.drop_last() == Seq::<char>::empty());
        assert(is_digit(s[0]));
    } else {
        lemma_decimal_read_back(n / 10);
        let s = decimal(n);
        assert(s.drop_last() == decimal(n / 10));
        assert forall|i: int| 0 <= i < s.len() implies is_digit(#[trigger] s[i]) by {
            if i < s.len() - 1 {
                assert(is_digit(decimal(n / 10)[i]));
            }
        }
        assert(s[0] == decimal(n / 10)[0]);
    }
}

/// A number of at most `max` that is written in decimal is read back.
pub proof fn law_decimal_round_trip(n: nat, max: nat)
    requires
        n <= max,
    ensures
        unsigned_value(decimal(n), max) == Some(n),
{
    lemma_decimal_read_back(n);
}

/// A number is written with its digits, the highest first, and no zero before them.
pub proof fn law_numbers_are_written(n: nat, d: nat)
    requires
        d < 10,
    ensures
        decimal(d) == seq![(48 + d) as char],
        n > 0 ==> decimal(10 * n + d) == decimal(n).push((48 + d) as char),
        n > 0 ==> decimal(n)[0] != '0',
{
    assert((10 * n + d) / 10 == n && (10 * n + d) % 10 == d);
    if n > 0 {
        lemma_no_zero_before(n);
    }
}

proof fn lemma_no_zero_before(n: nat)
    requires
        n > 0,
    ensures
        decimal(n).len() > 0,
        decimal(n)[0] != '0',
    decreases n,
{
    if n >= 10 {
        lemma_no_zero_before(n / 10);
    }
}

/// Numbers are read digit by digit, with a plus sign before them if there is one; whatever holds
/// anything else, or is too large, is no number.
pub proof fn law_numbers_are_read(s: Seq<char>, c: char, max: nat)
    ensures
        unsigned_value(Seq::empty(), max) is None,
        s.len() > 0 && s[0] != '+' ==> unsigned_value(seq!['+'] + s, max) == unsigned_value(s, max),
        !('0' <= c <= '9') ==> !all_digits(s.push(c)) && unsigned_value(s.push(c), max) is None,
        '0' <= c <= '9' ==> digits_value(s.push(c)) == 10 * digits_value(s) + (c as nat - 48),
        '0' <= c <= '9' && all_digits(s) ==> all_digits(s.push(c)),
        all_digits(s) ==> unsigned_value(s, max) == if digits_value(s) <= max {
            Some(digits_value(s))
        } else {
            None
        },
{
    assert(s.push(c).drop_last() =~= s);
    assert(s.push(c)[s.len() as int] == c);
    if s.len() > 0 && s[0] != '+' {
        assert((seq!['+'] + s).drop_first() =~= s);
    }
    if !('0' <= c <= '9') {
        let t = s.push(c);
        assert(!is_digit(t[t.len() - 1]));
        let d = without_plus(t);
        if d.len() > 0 {
            assert(d[d.len() - 1] == c);
        }
    }
    if all_digits(s) {
        assert(is_digit(s[0]));
        assert(s[0] != '+');
    }
    if '0' <= c <= '9' && all_digits(s) {
        assert forall|i: int| 0 <= i < s.push(c).len() implies is_digit(#[trigger] s.push(c)[i]) by {
            if i < s.len() {
                assert(is_digit(s[i]));
            }
        }
    }
}

/// A number with a minus sign before it is the opposite one; both kinds are read as far as 32 bits
/// hold them.
pub proof fn law_signed_numbers_are_read(s: Seq<char>)
    ensures
        all_digits(s) && digits_value(s) <= 2147483648 ==> signed_value(seq!['-'] + s) == Some(
            -(digits_value(s) as int),
        ),
        all_digits(s) && digits_value(s) > 2147483648 ==> signed_value(seq!['-'] + s) is None,
        !all_digits(s) ==> signed_value(seq!['-'] + s) is None,
        s.len() == 0 || s[0] != '-' ==> signed_value(s) == match unsigned_value(s, 2147483647) {
            Some(n) => Some(n as int),
            None => None,
        },
{
    assert((seq!['-'] + s).drop_first() =~= s);
}

} // verus!
