//! Numeric literals as text: stripping `_`, reading integers in a base, and
//! recognising a floating-point literal.

use crate::grammar::scalars::{
    beyond_double, digits_before, digits_end, digits_value, exponent, finite_float_literal,
    float_literal, integer_end, integer_literal, least_infinite, magnitude, mantissa,
    mantissa_end, mantissa_start, radix_literal, without_underscores, zeros_end,
};
use crate::text::{char_digit_value, char_is_digit, is_digit, to_chars};
use vstd::prelude::*;

verus! {

proof fn lemma_digits_nonnegative(t: Seq<char>, base: int)
    requires
        base >= 1,
    ensures
        digits_value(t, base) matches Some(v) ==> v >= 0,
    decreases t.len(),
{
    if t.len() > 0 {
        lemma_digits_nonnegative(t.drop_last(), base);
        if digits_value(t, base) is Some {
            let high = digits_value(t.drop_last(), base).unwrap();
            assert(high * base >= 0) by (nonlinear_arith)
                requires
                    high >= 0,
                    base >= 1,
            ;
        }
    }
}

/// What the first `k` digits write is no more than what all of them write.
proof fn lemma_digits_prefix(t: Seq<char>, k: int, base: int)
    requires
        0 <= k <= t.len(),
        base >= 1,
    ensures
        digits_value(t.take(k), base) is None ==> digits_value(t, base) is None,
        digits_value(t, base) matches Some(v) ==> 0 <= digits_value(t.take(k), base).unwrap() <= v,
    decreases t.len() - k,
{
    lemma_digits_nonnegative(t, base);
    lemma_digits_nonnegative(t.take(k), base);
    if k < t.len() {
        assert(t.drop_last().take(k) =~= t.take(k));
        lemma_digits_prefix(t.drop_last(), k, base);
        lemma_digits_nonnegative(t.drop_last(), base);
        if digits_value(t, base) is Some {
            let high = digits_value(t.drop_last(), base).unwrap();
            assert(high * base >= high) by (nonlinear_arith)
                requires
                    high >= 0,
                    base >= 1,
            ;
        }
    } else {
        assert(t.take(k) =~= t);
    }
}

/// The characters `chars[from..to]` without `_`.
pub fn strip_underscores(chars: &[char], from: usize, to: usize) -> (out: Vec<char>)
    requires
        from <= to <= chars@.len(),
    ensures
        out@ == without_underscores(chars@.subrange(from as int, to as int)),
{
    let mut out: Vec<char> = Vec::new();
    let mut i: usize = from;
    assert(chars@.subrange(from as int, from as int) =~= Seq::<char>::empty());
    while i < to
        invariant
            from <= i <= to <= chars@.len(),
            out@ == without_underscores(chars@.subrange(from as int, i as int)),
        decreases to - i,
    {
        let c = chars[i];
        assert(chars@.subrange(from as int, i + 1).drop_last() =~= chars@.subrange(
            from as int,
            i as int,
        ));
        if c != '_' {
            out.push(c);
        }
        i += 1;
    }
    out
}

/// The number that the digits `t[from..]` write in `base`, if they are digits
/// of the base and the number is at most `limit`.
fn read_digits(t: &[char], from: usize, base: u32, limit: u128) -> (r: Option<u128>)
    requires
        from <= t@.len(),
        1 <= base <= 16,
        limit <= 0x0100_0000_0000_0000_0000_0000_0000_0000,
    ensures
        match r {
            Some(v) => digits_value(t@.subrange(from as int, t@.len() as int), base as int)
                == Some(v as int) && v <= limit,
            None => match digits_value(t@.subrange(from as int, t@.len() as int), base as int) {
                Some(v) => v > limit,
                None => true,
            },
        },
{
    let ghost digits = t@.subrange(from as int, t@.len() as int);
    let mut acc: u128 = 0;
    let mut i: usize = from;
    assert(digits.take(0) =~= Seq::<char>::empty());
    while i < t.len()
        invariant
            from <= i <= t@.len(),
            1 <= base <= 16,
            limit <= 0x0100_0000_0000_0000_0000_0000_0000_0000,
            digits == t@.subrange(from as int, t@.len() as int),
            digits_value(digits.take(i - from), base as int) == Some(acc as int),
            acc <= limit,
        decreases t@.len() - i,
    {
        let ghost k = i - from;
        proof {
            assert(digits.take(k + 1).drop_last() =~= digits.take(k));
            assert(digits.take(k + 1).last() == t@[i as int]);
            lemma_digits_prefix(digits, k + 1, base as int);
        }
        match char_digit_value(t[i], base) {
            None => {
                return None;
            },
            Some(d) => {
                assert(0 <= acc * base <= 16 * 0x0100_0000_0000_0000_0000_0000_0000_0000)
                    by (nonlinear_arith)
                    requires
                        0 <= acc <= 0x0100_0000_0000_0000_0000_0000_0000_0000,
                        1 <= base <= 16,
                ;
                let next: u128 = acc * (base as u128) + d as u128;
                if next > limit {
                    return None;
                }
                acc = next;
            },
        }
        i += 1;
    }
    assert(digits.take(i - from) =~= digits);
    Some(acc)
}

/// Reads a decimal integer literal: an optional sign and digits.
pub fn parse_integer_literal(t: &[char]) -> (r: Option<i64>)
    ensures
        match r {
            Some(v) => integer_literal(t@) == Some(v as int),
            None => integer_literal(t@) is None,
        },
{
    let signed = t.len() > 0 && (t[0] == '+' || t[0] == '-');
    let from: usize = if signed {
        1
    } else {
        0
    };
    if t.len() == from {
        return None;
    }
    let negative = t[0] == '-';
    let limit: u128 = if negative {
        0x8000_0000_0000_0000
    } else {
        0x7fff_ffff_ffff_ffff
    };
    proof {
        if !signed {
            assert(t@.subrange(0, t@.len() as int) =~= t@);
        }
    }
    match read_digits(t, from, 10, limit) {
        Some(v) => {
            if negative {
                if v == 0x8000_0000_0000_0000 {
                    Some(i64::MIN)
                } else {
                    Some(-(v as i64))
                }
            } else {
                Some(v as i64)
            }
        },
        None => None,
    }
}

/// Reads a non-negative integer from digits of `base`.
pub fn parse_radix_literal(t: &[char], base: u32) -> (r: Option<i64>)
    requires
        1 <= base <= 16,
    ensures
        match r {
            Some(v) => radix_literal(t@, base as int) == Some(v as int) && v >= 0,
            None => radix_literal(t@, base as int) is None,
        },
{
    if t.len() == 0 {
        return None;
    }
    assert(t@.subrange(0, t@.len() as int) =~= t@);
    match read_digits(t, 0, base, 0x7fff_ffff_ffff_ffff) {
        Some(v) => Some(v as i64),
        None => None,
    }
}

fn skip_digits(t: &[char], from: usize) -> (end: usize)
    requires
        from <= t@.len(),
    ensures
        end == digits_end(t@, from as int),
        from <= end <= t@.len(),
{
    let mut i: usize = from;
    while i < t.len() && char_is_digit(t[i])
        invariant
            from <= i <= t@.len(),
            digits_end(t@, i as int) == digits_end(t@, from as int),
        decreases t@.len() - i,
    {
        i += 1;
    }
    i
}

/// Whether `t` is a decimal floating-point literal.
pub fn is_float_literal(t: &[char]) -> (b: bool)
    ensures
        b == float_literal(t@),
{
    let a: usize = if t.len() > 0 && (t[0] == '+' || t[0] == '-') {
        1
    } else {
        0
    };
    let b = skip_digits(t, a);
    let dot = b < t.len() && t[b] == '.';
    let c = if dot {
        skip_digits(t, b + 1)
    } else {
        b
    };
    let mantissa = if dot {
        c - a - 1
    } else {
        c - a
    };
    if mantissa < 1 {
        return false;
    }
    if c == t.len() {
        return true;
    }
    if !(t[c] == 'e' || t[c] == 'E') {
        return false;
    }
    let d = if c + 1 < t.len() && (t[c + 1] == '+' || t[c + 1] == '-') {
        c + 2
    } else {
        c + 1
    };
    let f = skip_digits(t, d);
    f > d && f == t.len()
}

/// A run of digits holds digits alone.
proof fn lemma_digits_end(t: Seq<char>, pos: int)
    requires
        0 <= pos <= t.len(),
    ensures
        pos <= digits_end(t, pos) <= t.len(),
        forall|i: int| pos <= i < digits_end(t, pos) ==> is_digit(#[trigger] t[i]),
    decreases t.len() - pos,
{
    if pos < t.len() && is_digit(t[pos]) {
        lemma_digits_end(t, pos + 1);
    }
}

/// Digits write a number.
proof fn lemma_digits_write(t: Seq<char>)
    requires
        forall|i: int| 0 <= i < t.len() ==> is_digit(#[trigger] t[i]),
    ensures
        digits_value(t, 10) is Some,
    decreases t.len(),
{
    if t.len() > 0 {
        lemma_digits_write(t.drop_last());
    }
}

/// Appends `t[from..to]` to `out`.
fn append_range(out: &mut Vec<char>, t: &[char], from: usize, to: usize)
    requires
        from <= to <= t@.len(),
    ensures
        final(out)@ == old(out)@ + t@.subrange(from as int, to as int),
{
    let mut i: usize = from;
    assert(out@ =~= old(out)@ + t@.subrange(from as int, i as int));
    while i < to
        invariant
            from <= i <= to <= t@.len(),
            out@ == old(out)@ + t@.subrange(from as int, i as int),
        decreases to - i,
    {
        out.push(t[i]);
        i += 1;
        assert(out@ =~= old(out)@ + t@.subrange(from as int, i as int));
    }
}

/// Whether the digits `x[from..]`, continued by zeros, come before the digits
/// `y`, continued by zeros.
fn digits_come_before(x: &[char], from: usize, y: &[char]) -> (b: bool)
    requires
        from <= x@.len(),
    ensures
        b == digits_before(x@.subrange(from as int, x@.len() as int), y@, 0),
{
    let ghost digits = x@.subrange(from as int, x@.len() as int);
    let len = x.len();
    let n = len - from;
    let mut i: usize = 0;
    while i < n || i < y.len()
        invariant
            len == x@.len(),
            from + n == len,
            digits == x@.subrange(from as int, x@.len() as int),
            digits_before(digits, y@, i as int) == digits_before(digits, y@, 0),
        decreases
                (if n > y@.len() {
                    n as int
                } else {
                    y@.len() as int
                }) - i,
    {
        let a = if i < n {
            x[from + i]
        } else {
            '0'
        };
        let b = if i < y.len() {
            y[i]
        } else {
            '0'
        };
        if a != b {
            return a < b;
        }
        i += 1;
    }
    false
}

/// The digits of the float literal `t`, the number of those before the point,
/// and where the digits end.
fn float_mantissa(t: &[char]) -> (r: (Vec<char>, usize, usize))
    ensures
        r.0@ == mantissa(t@),
        r.1 == integer_end(t@) - mantissa_start(t@),
        r.2 == mantissa_end(t@),
        r.2 <= t@.len(),
{
    let start: usize = if t.len() > 0 && (t[0] == '+' || t[0] == '-') {
        1
    } else {
        0
    };
    let point = skip_digits(t, start);
    let dot = point < t.len() && t[point] == '.';
    let end = if dot {
        skip_digits(t, point + 1)
    } else {
        point
    };
    let mut digits: Vec<char> = Vec::new();
    append_range(&mut digits, t, start, point);
    if dot {
        append_range(&mut digits, t, point + 1, end);
    }
    assert(digits@ =~= mantissa(t@));
    (digits, point - start, end)
}

/// The exponent of the float literal `t`, whose digits end at `end`, if its
/// size is at most 2^100; else whether it is negative.
fn float_exponent(t: &[char], end: usize) -> (r: Result<i128, bool>)
    requires
        float_literal(t@),
        end == mantissa_end(t@),
        end <= t@.len(),
    ensures
        match r {
            Ok(e) => e == exponent(t@) && -0x10_0000_0000_0000_0000_0000_0000 <= e
                <= 0x10_0000_0000_0000_0000_0000_0000,
            Err(negative) => if negative {
                exponent(t@) < -0x10_0000_0000_0000_0000_0000_0000
            } else {
                exponent(t@) > 0x10_0000_0000_0000_0000_0000_0000
            },
        },
{
    if end == t.len() {
        return Ok(0);
    }
    let negative = end + 1 < t.len() && t[end + 1] == '-';
    let from = if end + 1 < t.len() && (t[end + 1] == '+' || t[end + 1] == '-') {
        end + 2
    } else {
        end + 1
    };
    proof {
        lemma_digits_end(t@, from as int);
        lemma_digits_write(t@.subrange(from as int, t@.len() as int));
    }
    match read_digits(t, from, 10, 0x10_0000_0000_0000_0000_0000_0000) {
        Some(size) => Ok(
            if negative {
                -(size as i128)
            } else {
                size as i128
            },
        ),
        None => Err(negative),
    }
}

/// The position of the first of `digits` that is not `0`.
fn skip_zeros(digits: &[char]) -> (first: usize)
    ensures
        first == zeros_end(digits@, 0),
        first <= digits@.len(),
{
    let mut first: usize = 0;
    while first < digits.len() && digits[first] == '0'
        invariant
            first <= digits@.len(),
            zeros_end(digits@, first as int) == zeros_end(digits@, 0),
        decreases digits@.len() - first,
    {
        first += 1;
    }
    first
}

/// Whether the float literal `t` writes a number too large for a finite
/// double.
fn is_beyond_double(t: &[char]) -> (b: bool)
    requires
        float_literal(t@),
    ensures
        b == beyond_double(t@),
{
    let (digits, before_point, end) = float_mantissa(t);
    let first = skip_zeros(digits.as_slice());
    if first == digits.len() {
        return false;
    }
    let bound = to_chars(
        "179769313486231580793728971405303415079934132710037826936173778980444968292764750946649017977587207096330286416692887910946555547851940402630657488671505820681908902000708383676273854845817711531764475730270069855571366959622842914819860834936475292719074168444365510704342711559699508093042880177904174497792",
    );
    let limit = bound.len();
    let lead: i128 = before_point as i128 - first as i128;
    match float_exponent(t, end) {
        Err(negative) => {
            assert(negative ==> magnitude(t@) < 0);
            assert(!negative ==> magnitude(t@) > usize::MAX);
            assert(least_infinite().len() == limit);
            !negative
        },
        Ok(shift) => {
            let size: i128 = lead + shift;
            assert(size == magnitude(t@));
            assert(least_infinite().len() == limit);
            if size > limit as i128 {
                true
            } else if size < limit as i128 {
                false
            } else {
                !digits_come_before(digits.as_slice(), first, bound.as_slice())
            }
        },
    }
}

/// Whether `t` is the literal of a finite double.
pub fn is_finite_float_literal(t: &[char]) -> (b: bool)
    ensures
        b == finite_float_literal(t@),
{
    is_float_literal(t) && !is_beyond_double(t)
}

} // verus!
