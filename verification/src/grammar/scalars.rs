//! Scalars: keys, quoted strings with their escapes, the two forms of
//! multiline string, numbers, and the value that starts with any of them.

use crate::grammar::lexical::{key_end, line_rest};
use crate::grammar::position::{after_spaces, char_at, has_prefix, line_end, Outcome};
use crate::text::{
    decimal, digit_value, is_digit, is_hex_digit, is_sign, lead_byte_char, trimmed, utf8_size,
};
use crate::value::{NumberModel, ValueModel};
use vstd::prelude::*;

verus! {

/// The character that `\` and `c` stand for, for the escapes of one character.
pub open spec fn simple_escape(c: char) -> Option<char> {
    if c == '"' {
        Some('"')
    } else if c == '\\' {
        Some('\\')
    } else if c == '/' {
        Some('/')
    } else if c == 'b' {
        Some('\u{8}')
    } else if c == 'f' {
        Some('\u{c}')
    } else if c == 'n' {
        Some('\n')
    } else if c == 'r' {
        Some('\r')
    } else if c == 't' {
        Some('\t')
    } else if c == 'v' {
        Some('\u{b}')
    } else {
        None
    }
}

/// Whether four hexadecimal digits stand at `pos`.
pub open spec fn four_hex_digits(s: Seq<char>, pos: int) -> bool {
    &&& 0 <= pos
    &&& pos + 4 <= s.len()
    &&& is_hex_digit(s[pos])
    &&& is_hex_digit(s[pos + 1])
    &&& is_hex_digit(s[pos + 2])
    &&& is_hex_digit(s[pos + 3])
}

/// The number that the four hexadecimal digits at `pos` write.
pub open spec fn hex4_value(s: Seq<char>, pos: int) -> int {
    ((digit_value(s[pos], 16).unwrap() * 16 + digit_value(s[pos + 1], 16).unwrap()) * 16
        + digit_value(s[pos + 2], 16).unwrap()) * 16 + digit_value(s[pos + 3], 16).unwrap()
}

/// Whether `v` is a surrogate code point, which is no character.
pub open spec fn is_surrogate(v: int) -> bool {
    0xD800 <= v <= 0xDFFF
}

/// Whether fewer than four bytes of UTF-8 stand from `pos` to the end.
pub open spec fn fewer_than_four_bytes(s: Seq<char>, pos: int) -> bool {
    pos + 4 > s.len() && utf8_size(s.subrange(pos, s.len() as int)) < 4
}

/// The inside of a quoted string from `pos` on, after the characters `acc`:
/// up to the closing `"`, with each escape replaced by what it stands for.
pub open spec fn string_body(s: Seq<char>, pos: int, acc: Seq<char>) -> Outcome<Seq<char>>
    decreases s.len() - pos,
{
    if pos < 0 || pos >= s.len() {
        Outcome::Reject { at: pos, message: "unclosed string"@ }
    } else if s[pos] == '"' {
        Outcome::Accept { value: acc, next: pos + 1 }
    } else if s[pos] == '\n' {
        Outcome::Reject { at: pos, message: "newlines not allowed in single-line strings"@ }
    } else if s[pos] == '\\' {
        if pos + 1 >= s.len() {
            Outcome::Reject { at: pos + 1, message: "incomplete escape sequence"@ }
        } else if simple_escape(s[pos + 1]) is Some {
            string_body(s, pos + 2, acc.push(simple_escape(s[pos + 1]).unwrap()))
        } else if s[pos + 1] == 'u' {
            if fewer_than_four_bytes(s, pos + 2) {
                Outcome::Reject { at: pos + 2, message: "incomplete unicode escape"@ }
            } else if !four_hex_digits(s, pos + 2) {
                Outcome::Reject { at: pos + 2, message: "invalid unicode escape digits"@ }
            } else if is_surrogate(hex4_value(s, pos + 2)) {
                Outcome::Reject { at: pos + 2, message: "invalid unicode scalar value"@ }
            } else {
                string_body(s, pos + 6, acc.push(hex4_value(s, pos + 2) as char))
            }
        } else {
            Outcome::Reject {
                at: pos + 1,
                message: "invalid escape character '\\"@.push(s[pos + 1]) + "'"@,
            }
        }
    } else {
        string_body(s, pos + 1, acc.push(s[pos]))
    }
}

/// A quoted string at `pos`.
pub open spec fn quoted_string(s: Seq<char>, pos: int) -> Outcome<Seq<char>> {
    if char_at(s, pos) != Some('"') {
        Outcome::Reject { at: pos, message: "expected string"@ }
    } else {
        string_body(s, pos + 1, Seq::empty())
    }
}

/// A key after optional spaces: a quoted string, or a run of key characters.
pub open spec fn key(s: Seq<char>, pos: int) -> Outcome<Seq<char>> {
    let q = after_spaces(s, pos);
    if char_at(s, q) == Some('"') {
        quoted_string(s, q)
    } else {
        let e = key_end(s, q);
        if e == q {
            Outcome::Reject { at: q, message: "expected a key"@ }
        } else {
            Outcome::Accept { value: s.subrange(q, e), next: e }
        }
    }
}

/// Whether `line` starts with `n` spaces.
pub open spec fn starts_with_spaces(line: Seq<char>, n: int) -> bool {
    n <= line.len() && forall|i: int| 0 <= i < n ==> line[i] == ' '
}

/// A content line of a multiline string as it enters the string. With
/// `preserve`, the line loses `key_indent + 2` spaces at its start if it has
/// them and is taken as it is if not; without, it loses the white space at
/// both ends.
pub open spec fn dedented(line: Seq<char>, key_indent: int, preserve: bool) -> Seq<char> {
    if preserve {
        if starts_with_spaces(line, key_indent + 2) {
            line.subrange(key_indent + 2, line.len() as int)
        } else {
            line
        }
    } else {
        trimmed(line)
    }
}

/// The message for a closing delimiter at another indentation than its key.
pub open spec fn msg_closing_indent(key_indent: int) -> Seq<char> {
    "multiline closing delimiter must be at same indentation as the key ("@ + decimal(
        key_indent as nat,
    ) + " spaces)"@
}

/// The lines of a multiline string from `pos` on, after the text `acc`: each
/// content line dedented and followed by a line feed, up to the line that holds
/// the closing delimiter after exactly `key_indent` spaces. The last line feed
/// is dropped.
pub open spec fn multiline_body(
    s: Seq<char>,
    pos: int,
    key_indent: int,
    preserve: bool,
    delim: Seq<char>,
    acc: Seq<char>,
) -> Outcome<Seq<char>>
    decreases s.len() - pos,
{
    if pos < 0 || pos >= s.len() {
        Outcome::Reject { at: pos, message: "unclosed multiline string"@ }
    } else {
        let q = after_spaces(s, pos);
        if has_prefix(s, q, delim) {
            if q - pos != key_indent {
                Outcome::Reject { at: q, message: msg_closing_indent(key_indent) }
            } else {
                match line_rest(s, q + 3) {
                    Outcome::Accept { value, next } => Outcome::Accept {
                        value: if acc.len() > 0 {
                            acc.drop_last()
                        } else {
                            acc
                        },
                        next,
                    },
                    Outcome::Reject { at, message } => Outcome::Reject { at, message },
                }
            }
        } else {
            let e = line_end(s, pos);
            let line = s.subrange(pos, e);
            let next = if e < s.len() {
                e + 1
            } else {
                e
            };
            if pos < next <= s.len() {
                multiline_body(
                    s,
                    next,
                    key_indent,
                    preserve,
                    delim,
                    acc + dedented(line, key_indent, preserve) + seq!['\n'],
                )
            } else {
                Outcome::Reject { at: pos, message: "unclosed multiline string"@ }
            }
        }
    }
}

/// A multiline string whose opening delimiter, the three characters at `pos`,
/// ends its line. Where fewer than three characters are left, there is no
/// delimiter.
pub open spec fn multiline_string(
    s: Seq<char>,
    pos: int,
    key_indent: int,
    preserve: bool,
) -> Outcome<Seq<char>> {
    if pos < 0 || pos + 3 > s.len() {
        Outcome::Reject { at: pos, message: "unterminated multiline string delimiter"@ }
    } else {
        match line_rest(s, pos + 3) {
            Outcome::Accept { value, next } => multiline_body(
                s,
                next,
                key_indent,
                preserve,
                s.subrange(pos, pos + 3),
                Seq::empty(),
            ),
            Outcome::Reject { at, message } => Outcome::Reject { at, message },
        }
    }
}

/// `t` without its `_`.
pub open spec fn without_underscores(t: Seq<char>) -> Seq<char>
    decreases t.len(),
{
    if t.len() == 0 {
        t
    } else if t.last() == '_' {
        without_underscores(t.drop_last())
    } else {
        without_underscores(t.drop_last()).push(t.last())
    }
}

/// The number that the digits `t` write in `base`; `None` if one of them is no
/// digit of that base. No digits write 0.
pub open spec fn digits_value(t: Seq<char>, base: int) -> Option<int>
    decreases t.len(),
{
    if t.len() == 0 {
        Some(0)
    } else {
        match (digits_value(t.drop_last(), base), digit_value(t.last(), base)) {
            (Some(high), Some(d)) => Some(high * base + d),
            _ => None,
        }
    }
}

/// The 64-bit signed integer that `t` writes in decimal: an optional sign and
/// at least one digit. `None` if `t` has another form or the number does not
/// fit.
pub open spec fn integer_literal(t: Seq<char>) -> Option<int> {
    let signed = t.len() > 0 && is_sign(t[0]);
    let digits = if signed {
        t.subrange(1, t.len() as int)
    } else {
        t
    };
    if digits.len() == 0 {
        None
    } else {
        match digits_value(digits, 10) {
            Some(v) => {
                let n = if t[0] == '-' {
                    -v
                } else {
                    v
                };
                if i64::MIN <= n <= i64::MAX {
                    Some(n)
                } else {
                    None
                }
            },
            None => None,
        }
    }
}

/// The non-negative 64-bit signed integer that the digits `t` write in `base`:
/// at least one digit, and a number that fits.
pub open spec fn radix_literal(t: Seq<char>, base: int) -> Option<int> {
    if t.len() == 0 {
        None
    } else {
        match digits_value(t, base) {
            Some(v) => if v <= i64::MAX {
                Some(v)
            } else {
                None
            },
            None => None,
        }
    }
}

/// The position after the run of decimal digits that starts at `pos`.
pub open spec fn digits_end(t: Seq<char>, pos: int) -> int
    decreases t.len() - pos,
{
    if 0 <= pos < t.len() && is_digit(t[pos]) {
        digits_end(t, pos + 1)
    } else {
        pos
    }
}

/// Whether `t` is a decimal floating-point literal: an optional sign; digits
/// with an optional `.` among, before or after them, at least one digit in
/// all; and an optional exponent, which is `e` or `E`, an optional sign and at
/// least one digit.
pub open spec fn float_literal(t: Seq<char>) -> bool {
    let a: int = if t.len() > 0 && is_sign(t[0]) {
        1
    } else {
        0
    };
    let b = digits_end(t, a);
    let dot = char_at(t, b) == Some('.');
    let c = if dot {
        digits_end(t, b + 1)
    } else {
        b
    };
    let mantissa = if dot {
        c - a - 1
    } else {
        c - a
    };
    mantissa >= 1 && (c == t.len() || ({
        let d = if char_at(t, c + 1) == Some('+') || char_at(t, c + 1) == Some('-') {
            c + 2
        } else {
            c + 1
        };
        let f = digits_end(t, d);
        (t[c] == 'e' || t[c] == 'E') && f > d && f == t.len()
    }))
}

/// The position after the run of `0` that starts at `pos`.
pub open spec fn zeros_end(t: Seq<char>, pos: int) -> int
    decreases t.len() - pos,
{
    if 0 <= pos < t.len() && t[pos] == '0' {
        zeros_end(t, pos + 1)
    } else {
        pos
    }
}

/// Where the digits of a float literal start: after its sign, if it has one.
pub open spec fn mantissa_start(t: Seq<char>) -> int {
    if t.len() > 0 && is_sign(t[0]) {
        1
    } else {
        0
    }
}

/// Where the digits before the point of a float literal end.
pub open spec fn integer_end(t: Seq<char>) -> int {
    digits_end(t, mantissa_start(t))
}

/// Where the digits of a float literal end: before its exponent, or at its
/// end.
pub open spec fn mantissa_end(t: Seq<char>) -> int {
    if char_at(t, integer_end(t)) == Some('.') {
        digits_end(t, integer_end(t) + 1)
    } else {
        integer_end(t)
    }
}

/// The digits of a float literal, those before the point and those after it.
pub open spec fn mantissa(t: Seq<char>) -> Seq<char> {
    if char_at(t, integer_end(t)) == Some('.') {
        t.subrange(mantissa_start(t), integer_end(t)) + t.subrange(
            integer_end(t) + 1,
            mantissa_end(t),
        )
    } else {
        t.subrange(mantissa_start(t), integer_end(t))
    }
}

/// The exponent of a float literal; 0 if it has none.
pub open spec fn exponent(t: Seq<char>) -> int {
    let c = mantissa_end(t);
    if c < 0 || c >= t.len() {
        0
    } else {
        let from = if char_at(t, c + 1) == Some('+') || char_at(t, c + 1) == Some('-') {
            c + 2
        } else {
            c + 1
        };
        let size = match digits_value(t.subrange(from, t.len() as int), 10) {
            Some(v) => v,
            None => 0,
        };
        if char_at(t, c + 1) == Some('-') {
            -size
        } else {
            size
        }
    }
}

/// The magnitude of a float literal whose digits are not all 0: the `k` for
/// which the literal writes the number `0.d × 10^k`, where `d` are its digits
/// from the first that is not 0 on. So the number is less than `10^k` and at
/// least `10^(k-1)`.
pub open spec fn magnitude(t: Seq<char>) -> int {
    integer_end(t) - mantissa_start(t) - zeros_end(mantissa(t), 0) + exponent(t)
}

/// Whether the digits `x`, continued by zeros, come before the digits `y`,
/// continued by zeros, from the position `i` on: at the first position at
/// which they differ, `x` has the lesser digit. For digits after a decimal
/// point, that is the order of the numbers they write.
pub open spec fn digits_before(x: Seq<char>, y: Seq<char>, i: int) -> bool
    decreases
            (if x.len() > y.len() {
                x.len()
            } else {
                y.len()
            }) - i,
{
    let a = if 0 <= i < x.len() {
        x[i]
    } else {
        '0'
    };
    let b = if 0 <= i < y.len() {
        y[i]
    } else {
        '0'
    };
    if i < 0 || (i >= x.len() && i >= y.len()) {
        false
    } else if a != b {
        a < b
    } else {
        digits_before(x, y, i + 1)
    }
}

/// The least whole number that no finite 64-bit floating-point number can
/// stand for, in decimal: `2^1024 - 2^970`, halfway between the largest finite
/// double and `2^1024`. A decimal number rounds to a finite double exactly if
/// it is less than this one.
pub open spec fn least_infinite() -> Seq<char> {
    "179769313486231580793728971405303415079934132710037826936173778980444968292764750946649017977587207096330286416692887910946555547851940402630657488671505820681908902000708383676273854845817711531764475730270069855571366959622842914819860834936475292719074168444365510704342711559699508093042880177904174497792"@
}

/// Whether a float literal writes a number too large for a finite double: its
/// digits are not all 0, and its magnitude is larger than that of
/// `least_infinite`, or the same with digits that do not come before those of
/// `least_infinite`.
pub open spec fn beyond_double(t: Seq<char>) -> bool {
    let digits = mantissa(t);
    let first = zeros_end(digits, 0);
    let bound = least_infinite();
    first < digits.len() && (magnitude(t) > bound.len() || (magnitude(t) == bound.len()
        && !digits_before(digits.subrange(first, digits.len() as int), bound, 0)))
}

/// Whether `t` is the literal of a finite double: a float literal that is not
/// too large.
pub open spec fn finite_float_literal(t: Seq<char>) -> bool {
    float_literal(t) && !beyond_double(t)
}

/// The position after the characters of a decimal literal that start at `pos`:
/// digits, `_`, `.`, and `e` or `E` with an optional sign after it.
pub open spec fn number_end(s: Seq<char>, pos: int) -> int
    decreases s.len() - pos,
{
    if 0 <= pos < s.len() {
        let c = s[pos];
        if is_digit(c) || c == '_' || c == '.' {
            number_end(s, pos + 1)
        } else if c == 'e' || c == 'E' {
            if pos + 1 < s.len() && is_sign(s[pos + 1]) {
                number_end(s, pos + 2)
            } else {
                number_end(s, pos + 1)
            }
        } else {
            pos
        }
    } else {
        pos
    }
}

/// Whether `.`, `e` or `E` stands in `s` from `from` up to `to`.
pub open spec fn float_marked(s: Seq<char>, from: int, to: int) -> bool
    decreases to - from,
{
    if from >= to || to > s.len() || from < 0 {
        false
    } else {
        s[to - 1] == '.' || s[to - 1] == 'e' || s[to - 1] == 'E' || float_marked(s, from, to - 1)
    }
}

/// Whether `c` may stand in the digits of a literal in `base`: a digit of the
/// base, or `_`.
pub open spec fn is_radix_char(c: char, base: int) -> bool {
    c == '_' || digit_value(c, base) is Some
}

/// The position after the run of digits of `base` and `_` that starts at `pos`.
pub open spec fn radix_end(s: Seq<char>, pos: int, base: int) -> int
    decreases s.len() - pos,
{
    if 0 <= pos < s.len() && is_radix_char(s[pos], base) {
        radix_end(s, pos + 1, base)
    } else {
        pos
    }
}

/// A literal with a base prefix. The prefix, of two characters, stands at
/// `pos`; `negative` says whether `-` stood before it.
pub open spec fn radix_number(s: Seq<char>, pos: int, base: int, negative: bool) -> Outcome<
    NumberModel,
> {
    let e = radix_end(s, pos + 2, base);
    if e == pos + 2 {
        Outcome::Reject { at: e, message: "invalid number literal, requires digits after prefix"@ }
    } else {
        match radix_literal(without_underscores(s.subrange(pos + 2, e)), base) {
            Some(v) => Outcome::Accept {
                value: NumberModel::Integer(
                    if negative {
                        -v
                    } else {
                        v
                    },
                ),
                next: e,
            },
            None => Outcome::Reject { at: e, message: "invalid digits for number literal"@ },
        }
    }
}

/// A numeric literal at `pos`: an optional sign, then `0x`, `0o` or `0b` and
/// digits of that base, or a decimal literal, which is a float if it holds `.`
/// or an exponent and an integer if not. `_` may stand among the digits. A
/// float is the literal of a finite double, an integer fits in 64 bits.
pub open spec fn number(s: Seq<char>, pos: int) -> Outcome<NumberModel> {
    let p = if char_at(s, pos) == Some('+') || char_at(s, pos) == Some('-') {
        pos + 1
    } else {
        pos
    };
    let negative = char_at(s, pos) == Some('-');
    if has_prefix(s, p, "0x"@) {
        radix_number(s, p, 16, negative)
    } else if has_prefix(s, p, "0o"@) {
        radix_number(s, p, 8, negative)
    } else if has_prefix(s, p, "0b"@) {
        radix_number(s, p, 2, negative)
    } else {
        let e = number_end(s, p);
        if e == pos || (e == pos + 1 && p == pos + 1) {
            Outcome::Reject { at: e, message: "invalid number literal, missing digits"@ }
        } else {
            let literal = without_underscores(s.subrange(pos, e));
            if float_marked(s, p, e) {
                if finite_float_literal(literal) {
                    Outcome::Accept { value: NumberModel::Float(literal), next: e }
                } else {
                    Outcome::Reject { at: e, message: "invalid float literal"@ }
                }
            } else {
                match integer_literal(literal) {
                    Some(v) => Outcome::Accept { value: NumberModel::Integer(v), next: e },
                    None => Outcome::Reject { at: e, message: "invalid integer literal"@ },
                }
            }
        }
    }
}

/// A number as a value.
pub open spec fn accept_number(o: Outcome<NumberModel>) -> Outcome<ValueModel> {
    match o {
        Outcome::Accept { value, next } => Outcome::Accept {
            value: ValueModel::Number(value),
            next,
        },
        Outcome::Reject { at, message } => Outcome::Reject { at, message },
    }
}

/// A string as a value.
pub open spec fn accept_string(o: Outcome<Seq<char>>) -> Outcome<ValueModel> {
    match o {
        Outcome::Accept { value, next } => Outcome::Accept {
            value: ValueModel::String(value),
            next,
        },
        Outcome::Reject { at, message } => Outcome::Reject { at, message },
    }
}

/// What follows a sign at `pos`: `inf` gives an infinity, a digit a number that
/// starts at the sign.
pub open spec fn signed_value(s: Seq<char>, pos: int, positive: bool) -> Outcome<ValueModel> {
    if has_prefix(s, pos + 1, "inf"@) {
        Outcome::Accept {
            value: ValueModel::Number(NumberModel::Infinity(positive)),
            next: pos + 4,
        }
    } else if pos + 1 < s.len() && is_digit(s[pos + 1]) {
        accept_number(number(s, pos))
    } else {
        Outcome::Reject {
            at: pos + 1,
            message: if positive {
                "invalid character after '+'"@
            } else {
                "invalid character after '-'"@
            },
        }
    }
}

/// A scalar at `pos`: `[]`, `{}`, a string, a multiline string (closed at the
/// indentation `key_indent`), `true`, `false`, `null`, `nan`, `inf` with an
/// optional sign, or a number.
pub open spec fn scalar(s: Seq<char>, pos: int, key_indent: int) -> Outcome<ValueModel> {
    if pos < 0 || pos >= s.len() {
        Outcome::Reject { at: pos, message: "unexpected end of input, expected a value"@ }
    } else if has_prefix(s, pos, "[]"@) {
        Outcome::Accept { value: ValueModel::List(Seq::empty()), next: pos + 2 }
    } else if has_prefix(s, pos, "{}"@) {
        Outcome::Accept { value: ValueModel::Dict(Map::empty()), next: pos + 2 }
    } else if s[pos] == '"' {
        if has_prefix(s, pos, "\"\"\""@) {
            accept_string(multiline_string(s, pos, key_indent, false))
        } else {
            accept_string(quoted_string(s, pos))
        }
    } else if has_prefix(s, pos, "```"@) {
        accept_string(multiline_string(s, pos, key_indent, true))
    } else if has_prefix(s, pos, "true"@) {
        Outcome::Accept { value: ValueModel::Boolean(true), next: pos + 4 }
    } else if has_prefix(s, pos, "false"@) {
        Outcome::Accept { value: ValueModel::Boolean(false), next: pos + 5 }
    } else if has_prefix(s, pos, "null"@) {
        Outcome::Accept { value: ValueModel::Null, next: pos + 4 }
    } else if has_prefix(s, pos, "nan"@) {
        Outcome::Accept { value: ValueModel::Number(NumberModel::Nan), next: pos + 3 }
    } else if has_prefix(s, pos, "inf"@) {
        Outcome::Accept { value: ValueModel::Number(NumberModel::Infinity(true)), next: pos + 3 }
    } else if s[pos] == '+' {
        signed_value(s, pos, true)
    } else if s[pos] == '-' {
        signed_value(s, pos, false)
    } else if is_digit(s[pos]) {
        accept_number(number(s, pos))
    } else {
        Outcome::Reject {
            at: pos,
            message: "unexpected character '"@.push(lead_byte_char(s[pos]))
                + "' when parsing value"@,
        }
    }
}

} // verus!
