//! The literal forms that a typed property value may take: signed 32-bit
//! integers, floating-point numbers, booleans and quoted text.
//!
//! Each form is a predicate on the characters of the literal. Nothing is
//! converted: a value keeps its text, and these predicates only decide whether
//! that text is acceptable for a type.

use vstd::prelude::*;
use crate::text::{same, starts_with_char, ends_with_char, to_chars};

verus! {

/// One of the ten decimal digits.
pub open spec fn is_digit(c: char) -> bool {
    '0' <= c <= '9'
}

/// A plus or a minus sign.
pub open spec fn is_sign(c: char) -> bool {
    c == '+' || c == '-'
}

/// `s` without one sign character at its start.
pub open spec fn unsigned_part(s: Seq<char>) -> Seq<char> {
    if s.len() > 0 && is_sign(s[0]) {
        s.skip(1)
    } else {
        s
    }
}

/// Every character of `s` is a decimal digit.
pub open spec fn all_digits(s: Seq<char>) -> bool {
    forall|i: int| 0 <= i < s.len() ==> is_digit(#[trigger] s[i])
}

/// The number that the decimal digits of `s` write.
pub open spec fn decimal_value(s: Seq<char>) -> nat
    decreases s.len(),
{
    if s.len() == 0 {
        0
    } else {
        decimal_value(s.drop_last()) * 10 + (s.last() as u32 - '0' as u32) as nat
    }
}

/// An optional sign, then one or more decimal digits that write a number
/// between -2147483648 and 2147483647.
pub open spec fn is_integer_literal(s: Seq<char>) -> bool {
    let digits = unsigned_part(s);
    &&& digits.len() > 0
    &&& all_digits(digits)
    &&& if s[0] == '-' {
        decimal_value(digits) <= 0x8000_0000
    } else {
        decimal_value(digits) <= 0x7fff_ffff
    }
}

/// How many decimal digits stand at the start of `s`.
pub open spec fn digit_run(s: Seq<char>) -> nat
    decreases s.len(),
{
    if s.len() > 0 && is_digit(s[0]) {
        1 + digit_run(s.skip(1))
    } else {
        0
    }
}

/// An exponent: `e` or `E`, an optional sign, one or more digits.
pub open spec fn is_exponent(s: Seq<char>) -> bool {
    &&& s.len() > 0
    &&& (s[0] == 'e' || s[0] == 'E')
    &&& unsigned_part(s.skip(1)).len() > 0
    &&& digit_run(unsigned_part(s.skip(1))) == unsigned_part(s.skip(1)).len()
}

/// What follows the integer digits of a decimal number: an optional point
/// with its fraction digits, then an optional exponent. `int_digits` is the
/// number of digits before the point; there must be a digit on one side of it.
pub open spec fn is_fraction_and_exponent(rest: Seq<char>, int_digits: nat) -> bool {
    let has_point = rest.len() > 0 && rest[0] == '.';
    let after_point = if has_point {
        rest.skip(1)
    } else {
        rest
    };
    let frac_digits = if has_point {
        digit_run(after_point)
    } else {
        0
    };
    let tail = after_point.skip(frac_digits as int);
    &&& int_digits + frac_digits > 0
    &&& (tail.len() == 0 || is_exponent(tail))
}

/// A decimal number without sign: digits, with a point before, between or
/// behind them or none at all, and an optional exponent.
pub open spec fn is_decimal(s: Seq<char>) -> bool {
    is_fraction_and_exponent(s.skip(digit_run(s) as int), digit_run(s))
}

/// `inf`, `infinity` or `nan`, in any mix of upper and lower case.
pub open spec fn is_special_float(s: Seq<char>) -> bool {
    ||| s.len() == 3 && (s[0] == 'i' || s[0] == 'I') && (s[1] == 'n' || s[1] == 'N') && (s[2]
        == 'f' || s[2] == 'F')
    ||| s.len() == 3 && (s[0] == 'n' || s[0] == 'N') && (s[1] == 'a' || s[1] == 'A') && (s[2]
        == 'n' || s[2] == 'N')
    ||| s.len() == 8 && (s[0] == 'i' || s[0] == 'I') && (s[1] == 'n' || s[1] == 'N') && (s[2]
        == 'f' || s[2] == 'F') && (s[3] == 'i' || s[3] == 'I') && (s[4] == 'n' || s[4] == 'N')
        && (s[5] == 'i' || s[5] == 'I') && (s[6] == 't' || s[6] == 'T') && (s[7] == 'y' || s[7]
        == 'Y')
}

/// An optional sign, then a decimal number or one of the special values.
/// Any such text denotes a 32-bit floating-point number: one too large in
/// magnitude denotes an infinity.
pub open spec fn is_float_literal(s: Seq<char>) -> bool {
    is_decimal(unsigned_part(s)) || is_special_float(unsigned_part(s))
}

/// The word `true` or the word `false`.
pub open spec fn is_bool_literal(s: Seq<char>) -> bool {
    s == "true"@ || s == "false"@
}

/// `s` begins and ends with `quote`. A single quote character does both.
pub open spec fn is_quoted(s: Seq<char>, quote: char) -> bool {
    s.len() > 0 && s[0] == quote && s.last() == quote
}

/// Appending digits never makes the number smaller.
pub proof fn lemma_decimal_value_grows(s: Seq<char>, k: int)
    requires
        0 <= k <= s.len(),
    ensures
        decimal_value(s.take(k)) <= decimal_value(s),
    decreases s.len(),
{
    if k == s.len() {
        assert(s.take(k) =~= s);
    } else {
        lemma_decimal_value_grows(s.drop_last(), k);
        assert(s.drop_last().take(k) =~= s.take(k));
    }
}

/// Whether `c` is a decimal digit.
pub fn is_decimal_digit(c: char) -> (r: bool)
    ensures
        r == is_digit(c),
{
    '0' <= c && c <= '9'
}

/// Whether `v` writes a signed 32-bit integer.
pub fn is_integer(v: &Vec<char>) -> (r: bool)
    ensures
        r == is_integer_literal(v@),
{
    let signed = v.len() > 0 && (v[0] == '+' || v[0] == '-');
    let negative = v.len() > 0 && v[0] == '-';
    let start: usize = if signed {
        1
    } else {
        0
    };
    let limit: u64 = if negative {
        0x8000_0000
    } else {
        0x7fff_ffff
    };
    let ghost digits = unsigned_part(v@);
    assert(digits =~= v@.skip(start as int));
    if start == v.len() {
        return false;
    }
    let mut acc: u64 = 0;
    let mut i: usize = start;
    while i < v.len()
        invariant
            start <= i <= v.len(),
            digits == v@.skip(start as int),
            digits == unsigned_part(v@),
            digits.len() > 0,
            limit == if v@[0] == '-' {
                0x8000_0000u64
            } else {
                0x7fff_ffffu64
            },
            all_digits(digits.take(i - start)),
            acc == decimal_value(digits.take(i - start)),
            acc <= limit <= 0x8000_0000,
        decreases v.len() - i,
    {
        let c = v[i];
        assert(digits[i - start] == c);
        if !is_decimal_digit(c) {
            return false;
        }
        let d: u64 = (c as u32 - '0' as u32) as u64;
        let ghost next = digits.take(i - start + 1);
        assert(next.drop_last() =~= digits.take(i - start));
        assert(next.last() == c);
        let value = acc * 10 + d;
        assert(value == decimal_value(next));
        if value > limit {
            proof {
                lemma_decimal_value_grows(digits, i - start + 1);
            }
            return false;
        }
        assert(all_digits(next)) by {
            assert forall|j: int| 0 <= j < next.len() implies is_digit(#[trigger] next[j]) by {
                if j < next.len() - 1 {
                    assert(next[j] == digits.take(i - start)[j]);
                }
            }
        }
        acc = value;
        i += 1;
    }
    assert(digits.take(i - start) =~= digits);
    true
}

/// The index of the first character at or behind `from` that is no digit.
fn skip_digits(v: &Vec<char>, from: usize) -> (i: usize)
    requires
        from <= v.len(),
    ensures
        from <= i <= v.len(),
        i - from == digit_run(v@.skip(from as int)),
{
    let mut i: usize = from;
    while i < v.len() && is_decimal_digit(v[i])
        invariant
            from <= i <= v.len(),
            digit_run(v@.skip(from as int)) == (i - from) + digit_run(v@.skip(i as int)),
        decreases v.len() - i,
    {
        assert(v@.skip(i as int).skip(1) =~= v@.skip(i + 1));
        i += 1;
    }
    i
}

/// Whether the characters of `v` from `from` on are an exponent.
fn is_exponent_at(v: &Vec<char>, from: usize) -> (r: bool)
    requires
        from <= v.len(),
    ensures
        r == is_exponent(v@.skip(from as int)),
{
    let ghost s = v@.skip(from as int);
    if from >= v.len() || !(v[from] == 'e' || v[from] == 'E') {
        return false;
    }
    let mut at: usize = from + 1;
    assert(s.skip(1) =~= v@.skip(at as int));
    if at < v.len() && (v[at] == '+' || v[at] == '-') {
        assert(v@.skip(at as int).skip(1) =~= v@.skip(at + 1));
        at += 1;
    }
    assert(unsigned_part(s.skip(1)) == v@.skip(at as int));
    let end = skip_digits(v, at);
    at < v.len() && end == v.len()
}

fn is_decimal_at(v: &Vec<char>, from: usize) -> (r: bool)
    requires
        from <= v.len(),
    ensures
        r == is_decimal(v@.skip(from as int)),
{
    let ghost s = v@.skip(from as int);
    let after_int = skip_digits(v, from);
    let int_digits = after_int - from;
    let ghost rest = s.skip(int_digits as int);
    assert(rest =~= v@.skip(after_int as int));
    let has_point = after_int < v.len() && v[after_int] == '.';
    let after_point: usize = if has_point {
        after_int + 1
    } else {
        after_int
    };
    assert(has_point ==> rest.skip(1) =~= v@.skip(after_point as int));
    let after_frac: usize = if has_point {
        skip_digits(v, after_point)
    } else {
        after_point
    };
    let frac_digits = after_frac - after_point;
    assert(v@.skip(after_point as int).skip(frac_digits as int) =~= v@.skip(after_frac as int));
    if int_digits == 0 && frac_digits == 0 {
        return false;
    }
    if after_frac == v.len() {
        return true;
    }
    is_exponent_at(v, after_frac)
}

fn is_letter(c: char, lower: char, upper: char) -> (r: bool)
    ensures
        r == (c == lower || c == upper),
{
    c == lower || c == upper
}

fn is_special_float_at(v: &Vec<char>, from: usize) -> (r: bool)
    requires
        from <= v.len(),
    ensures
        r == is_special_float(v@.skip(from as int)),
{
    let n = v.len() - from;
    let ghost s = v@.skip(from as int);
    if n == 3 {
        assert(s[0] == v@[from as int] && s[1] == v@[from + 1] && s[2] == v@[from + 2]);
        (is_letter(v[from], 'i', 'I') && is_letter(v[from + 1], 'n', 'N') && is_letter(
            v[from + 2],
            'f',
            'F',
        )) || (is_letter(v[from], 'n', 'N') && is_letter(v[from + 1], 'a', 'A') && is_letter(
            v[from + 2],
            'n',
            'N',
        ))
    } else if n == 8 {
        assert(s[0] == v@[from as int] && s[1] == v@[from + 1] && s[2] == v@[from + 2] && s[3]
            == v@[from + 3] && s[4] == v@[from + 4] && s[5] == v@[from + 5] && s[6] == v@[from
            + 6] && s[7] == v@[from + 7]);
        is_letter(v[from], 'i', 'I') && is_letter(v[from + 1], 'n', 'N') && is_letter(
            v[from + 2],
            'f',
            'F',
        ) && is_letter(v[from + 3], 'i', 'I') && is_letter(v[from + 4], 'n', 'N') && is_letter(
            v[from + 5],
            'i',
            'I',
        ) && is_letter(v[from + 6], 't', 'T') && is_letter(v[from + 7], 'y', 'Y')
    } else {
        false
    }
}

/// Whether `v` writes a floating-point number.
pub fn is_float(v: &Vec<char>) -> (r: bool)
    ensures
        r == is_float_literal(v@),
{
    let start: usize = if v.len() > 0 && (v[0] == '+' || v[0] == '-') {
        1
    } else {
        0
    };
    assert(unsigned_part(v@) =~= v@.skip(start as int));
    is_decimal_at(v, start) || is_special_float_at(v, start)
}

/// Whether `v` writes a boolean.
pub fn is_bool(v: &Vec<char>) -> (r: bool)
    ensures
        r == is_bool_literal(v@),
{
    let t = to_chars("true");
    let f = to_chars("false");
    same(v, &t) || same(v, &f)
}

/// Whether `v` begins and ends with `quote`.
pub fn is_wrapped(v: &Vec<char>, quote: char) -> (r: bool)
    ensures
        r == is_quoted(v@, quote),
{
    starts_with_char(v, quote) && ends_with_char(v, quote)
}

} // verus!
