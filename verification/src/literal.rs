//! The literal forms that the value of a token may take: integers, decimal numbers and
//! booleans.

use vstd::prelude::*;
use vstd::slice::slice_subrange;

verus! {

/// Whether `c` is one of the decimal digits `0` to `9`.
pub open spec fn is_digit(c: char) -> bool {
    '0' <= c && c <= '9'
}

/// The number that the decimal digit `c` stands for.
pub open spec fn digit_value(c: char) -> nat {
    (c as nat - '0' as nat) as nat
}

/// Whether every character of `s` is a decimal digit.
pub open spec fn all_digits(s: Seq<char>) -> bool {
    forall|i: int| 0 <= i < s.len() ==> is_digit(#[trigger] s[i])
}

/// The number that the digits `s` denote in base ten; zero for the empty sequence.
pub open spec fn decimal_value(s: Seq<char>) -> nat
    decreases s.len(),
{
    if s.len() == 0 {
        0
    } else {
        decimal_value(s.drop_last()) * 10 + digit_value(s.last())
    }
}

/// Whether `s` starts with a sign, `+` or `-`.
pub open spec fn has_sign(s: Seq<char>) -> bool {
    s.len() > 0 && (s[0] == '+' || s[0] == '-')
}

/// `s` without its sign, if it has one.
pub open spec fn unsigned(s: Seq<char>) -> Seq<char> {
    if has_sign(s) {
        s.drop_first()
    } else {
        s
    }
}

/// The value of `s` read as an integer literal: an optional sign followed by one or more
/// decimal digits, denoting a number that a 64-bit signed integer holds. `None` for every
/// other sequence.
pub open spec fn int_literal(s: Seq<char>) -> Option<int> {
    let digits = unsigned(s);
    let magnitude = decimal_value(digits) as int;
    let value = if s.len() > 0 && s[0] == '-' {
        -magnitude
    } else {
        magnitude
    };
    if digits.len() > 0 && all_digits(digits) && i64::MIN <= value <= i64::MAX {
        Some(value)
    } else {
        None
    }
}

/// Whether `c` is the letter that is written `lower` in lower case and `upper` in upper case.
pub open spec fn is_letter(c: char, lower: char, upper: char) -> bool {
    c == lower || c == upper
}

/// Whether `s` spells one of the names of the numbers that are not finite, `inf`,
/// `infinity` and `nan`, in any mix of cases.
pub open spec fn is_non_finite(s: Seq<char>) -> bool {
    ||| (s.len() == 3 && is_letter(s[0], 'i', 'I') && is_letter(s[1], 'n', 'N') && is_letter(
        s[2],
        'f',
        'F',
    ))
    ||| (s.len() == 8 && is_letter(s[0], 'i', 'I') && is_letter(s[1], 'n', 'N') && is_letter(
        s[2],
        'f',
        'F',
    ) && is_letter(s[3], 'i', 'I') && is_letter(s[4], 'n', 'N') && is_letter(s[5], 'i', 'I')
        && is_letter(s[6], 't', 'T') && is_letter(s[7], 'y', 'Y'))
    ||| (s.len() == 3 && is_letter(s[0], 'n', 'N') && is_letter(s[1], 'a', 'A') && is_letter(
        s[2],
        'n',
        'N',
    ))
}

/// The number of decimal digits that `s` starts with.
pub open spec fn leading_digits(s: Seq<char>) -> nat
    decreases s.len(),
{
    if s.len() > 0 && is_digit(s[0]) {
        1 + leading_digits(s.drop_first())
    } else {
        0
    }
}

/// Whether `s` is a mantissa: decimal digits with at most one point among them, before
/// them or after them, and at least one digit.
pub open spec fn is_mantissa(s: Seq<char>) -> bool {
    let whole = leading_digits(s) as int;
    if whole == s.len() {
        whole > 0
    } else {
        s[whole] == '.' && s.len() > 1 && all_digits(s.skip(whole + 1))
    }
}

/// Whether `s` is an exponent: the letter `e` in either case, an optional sign, and one or
/// more decimal digits.
pub open spec fn is_exponent(s: Seq<char>) -> bool {
    s.len() > 0 && is_letter(s[0], 'e', 'E') && unsigned(s.drop_first()).len() > 0 && all_digits(
        unsigned(s.drop_first()),
    )
}

/// The number of characters of `s` that stand before its first `e` or `E`; the length of
/// `s` where it holds neither.
pub open spec fn before_exponent(s: Seq<char>) -> nat
    decreases s.len(),
{
    if s.len() > 0 && !is_letter(s[0], 'e', 'E') {
        1 + before_exponent(s.drop_first())
    } else {
        0
    }
}

/// Whether `s` is a decimal number: a mantissa, followed or not by an exponent.
pub open spec fn is_decimal(s: Seq<char>) -> bool {
    let m = before_exponent(s) as int;
    is_mantissa(s.take(m)) && (m == s.len() || is_exponent(s.skip(m)))
}

/// Whether `s` is a literal of a floating-point number: an optional sign followed by a
/// decimal number or by the name of a number that is not finite.
pub open spec fn is_float_literal(s: Seq<char>) -> bool {
    is_non_finite(unsigned(s)) || is_decimal(unsigned(s))
}

/// The value of `s` read as a boolean literal: `true` or `false`, and nothing else.
pub open spec fn bool_literal(s: Seq<char>) -> Option<bool> {
    if s == seq!['t', 'r', 'u', 'e'] {
        Some(true)
    } else if s == seq!['f', 'a', 'l', 's', 'e'] {
        Some(false)
    } else {
        None
    }
}

/// A prefix of a sequence of digits denotes no more than the whole sequence.
pub proof fn lemma_decimal_value_prefix(s: Seq<char>, k: int)
    requires
        0 <= k <= s.len(),
    ensures
        decimal_value(s.take(k)) <= decimal_value(s),
    decreases s.len(),
{
    if k == s.len() {
        assert(s.take(k) == s);
    } else {
        lemma_decimal_value_prefix(s.drop_last(), k);
        assert(s.drop_last().take(k) == s.take(k));
    }
}

/// Decides [`is_digit`].
pub fn is_decimal_digit(c: char) -> (b: bool)
    ensures
        b == is_digit(c),
{
    '0' <= c && c <= '9'
}

/// Decides [`all_digits`].
pub fn are_digits(s: &[char]) -> (b: bool)
    ensures
        b == all_digits(s@),
{
    let mut i: usize = 0;
    while i < s.len()
        invariant
            i <= s@.len(),
            forall|k: int| 0 <= k < i ==> is_digit(#[trigger] s@[k]),
        decreases s@.len() - i,
    {
        if !is_decimal_digit(s[i]) {
            return false;
        }
        i += 1;
    }
    true
}

/// Reads `s` as an integer literal.
pub fn parse_int(s: &[char]) -> (r: Option<i64>)
    ensures
        match r {
            Some(v) => int_literal(s@) == Some(v as int),
            None => int_literal(s@) is None,
        },
{
    let n = s.len();
    if n == 0 {
        return None;
    }
    let negative = s[0] == '-';
    let start: usize = if s[0] == '+' || s[0] == '-' {
        1
    } else {
        0
    };
    if start == n {
        return None;
    }
    let digits = slice_subrange(s, start, n);
    assert(digits@ == unsigned(s@));
    let limit: u64 = if negative {
        0x8000_0000_0000_0000
    } else {
        0x7fff_ffff_ffff_ffff
    };
    let mut magnitude: u64 = 0;
    let mut i: usize = 0;
    while i < digits.len()
        invariant
            i <= digits@.len(),
            all_digits(digits@.take(i as int)),
            magnitude == decimal_value(digits@.take(i as int)),
            magnitude <= limit,
            digits@ == unsigned(s@),
            negative == (s@.len() > 0 && s@[0] == '-'),
            limit == if negative { i64::MAX + 1 } else { i64::MAX as int },
        decreases digits@.len() - i,
    {
        let c = digits[i];
        if !is_decimal_digit(c) {
            return None;
        }
        let digit: u64 = (c as u64) - 48;
        proof {
            assert(digit == digit_value(c));
            assert(digits@.take(i + 1).drop_last() == digits@.take(i as int));
            assert(decimal_value(digits@.take(i + 1)) == magnitude * 10 + digit);
        }
        if magnitude > (limit - digit) / 10 {
            proof {
                if all_digits(digits@) {
                    lemma_decimal_value_prefix(digits@, i + 1);
                }
            }
            return None;
        }
        magnitude = magnitude * 10 + digit;
        i += 1;
    }
    assert(digits@.take(i as int) == digits@);
    if negative {
        if magnitude == 0x8000_0000_0000_0000 {
            Some(i64::MIN)
        } else {
            Some(-(magnitude as i64))
        }
    } else {
        Some(magnitude as i64)
    }
}

/// `s` without its sign, if it has one.
pub fn skip_sign(s: &[char]) -> (rest: &[char])
    ensures
        rest@ == unsigned(s@),
{
    if s.len() > 0 && (s[0] == '+' || s[0] == '-') {
        slice_subrange(s, 1, s.len())
    } else {
        s
    }
}

/// Decides [`is_letter`].
pub fn is_letter_char(c: char, lower: char, upper: char) -> (b: bool)
    ensures
        b == is_letter(c, lower, upper),
{
    c == lower || c == upper
}

/// Decides [`is_non_finite`].
pub fn is_non_finite_name(s: &[char]) -> (b: bool)
    ensures
        b == is_non_finite(s@),
{
    if s.len() == 3 {
        (is_letter_char(s[0], 'i', 'I') && is_letter_char(s[1], 'n', 'N') && is_letter_char(
            s[2],
            'f',
            'F',
        )) || (is_letter_char(s[0], 'n', 'N') && is_letter_char(s[1], 'a', 'A') && is_letter_char(
            s[2],
            'n',
            'N',
        ))
    } else if s.len() == 8 {
        is_letter_char(s[0], 'i', 'I') && is_letter_char(s[1], 'n', 'N') && is_letter_char(
            s[2],
            'f',
            'F',
        ) && is_letter_char(s[3], 'i', 'I') && is_letter_char(s[4], 'n', 'N') && is_letter_char(
            s[5],
            'i',
            'I',
        ) && is_letter_char(s[6], 't', 'T') && is_letter_char(s[7], 'y', 'Y')
    } else {
        false
    }
}

/// Counts the decimal digits that `s` starts with.
pub fn count_leading_digits(s: &[char]) -> (k: usize)
    ensures
        k == leading_digits(s@),
        k <= s@.len(),
{
    let mut k: usize = 0;
    assert(s@.skip(0) == s@);
    while k < s.len() && is_decimal_digit(s[k])
        invariant
            k <= s@.len(),
            leading_digits(s@) == k + leading_digits(s@.skip(k as int)),
        decreases s@.len() - k,
    {
        assert(s@.skip(k as int).drop_first() == s@.skip(k + 1));
        k += 1;
    }
    k
}

/// Counts the characters of `s` that stand before its first `e` or `E`.
pub fn count_before_exponent(s: &[char]) -> (k: usize)
    ensures
        k == before_exponent(s@),
        k <= s@.len(),
{
    let mut k: usize = 0;
    assert(s@.skip(0) == s@);
    while k < s.len() && !is_letter_char(s[k], 'e', 'E')
        invariant
            k <= s@.len(),
            before_exponent(s@) == k + before_exponent(s@.skip(k as int)),
        decreases s@.len() - k,
    {
        assert(s@.skip(k as int).drop_first() == s@.skip(k + 1));
        k += 1;
    }
    k
}

/// Decides [`is_mantissa`].
pub fn is_mantissa_text(s: &[char]) -> (b: bool)
    ensures
        b == is_mantissa(s@),
{
    let whole = count_leading_digits(s);
    if whole == s.len() {
        whole > 0
    } else {
        s[whole] == '.' && s.len() > 1 && are_digits(slice_subrange(s, whole + 1, s.len()))
    }
}

/// Decides [`is_exponent`].
pub fn is_exponent_text(s: &[char]) -> (b: bool)
    ensures
        b == is_exponent(s@),
{
    if s.len() > 0 && is_letter_char(s[0], 'e', 'E') {
        let digits = skip_sign(slice_subrange(s, 1, s.len()));
        digits.len() > 0 && are_digits(digits)
    } else {
        false
    }
}

/// Decides [`is_decimal`].
pub fn is_decimal_text(s: &[char]) -> (b: bool)
    ensures
        b == is_decimal(s@),
{
    let m = count_before_exponent(s);
    is_mantissa_text(slice_subrange(s, 0, m)) && (m == s.len() || is_exponent_text(
        slice_subrange(s, m, s.len()),
    ))
}

/// Decides [`is_float_literal`].
pub fn is_float(s: &[char]) -> (b: bool)
    ensures
        b == is_float_literal(s@),
{
    let body = skip_sign(s);
    is_non_finite_name(body) || is_decimal_text(body)
}

/// Reads `s` as a boolean literal.
pub fn parse_bool(s: &[char]) -> (r: Option<bool>)
    ensures
        r == bool_literal(s@),
{
    if s.len() == 4 && s[0] == 't' && s[1] == 'r' && s[2] == 'u' && s[3] == 'e' {
        assert(s@ == seq!['t', 'r', 'u', 'e']);
        Some(true)
    } else if s.len() == 5 && s[0] == 'f' && s[1] == 'a' && s[2] == 'l' && s[3] == 's' && s[4]
        == 'e' {
        assert(s@ == seq!['f', 'a', 'l', 's', 'e']);
        Some(false)
    } else {
        proof {
            let t = seq!['t', 'r', 'u', 'e'];
            let f = seq!['f', 'a', 'l', 's', 'e'];
            if s@ == t {
                assert(s@[0] == t[0] && s@[1] == t[1] && s@[2] == t[2] && s@[3] == t[3]);
            }
            if s@ == f {
                assert(s@[0] == f[0] && s@[1] == f[1] && s@[2] == f[2] && s@[3] == f[3] && s@[4]
                    == f[4]);
            }
        }
        None
    }
}

} // verus!
