//! Scanners for scalars: keys, strings, multiline strings, numbers.

use crate::grammar::lexical::{key_end, line_rest};
use crate::grammar::position::{char_at, line_end, Outcome};
use crate::grammar::scalars::{
    dedented, fewer_than_four_bytes, four_hex_digits, hex4_value, key, multiline_body,
    multiline_string, number, quoted_string, scalar, simple_escape, string_body,
};
use crate::parser::cursor::{agrees, ParseError, Parser};
use crate::text::{
    char_digit_value, char_is_key_char, char_utf8_len, push_decimal, string_of, trim_bounds,
    utf8_size,
};
use vstd::prelude::*;
use vstd::string::*;

verus! {

/// `core::char::from_u32` gives the character with the code `i`, and `None`
/// where `i` is a surrogate or beyond the last code point.
pub assume_specification[ core::char::from_u32 ](i: u32) -> (r: Option<char>)
    ensures
        r is Some <==> (i <= 0xD7FF || 0xE000 <= i <= 0x10FFFF),
        r matches Some(c) ==> c as u32 == i,
;

fn decode_simple_escape(c: char) -> (r: Option<char>)
    ensures
        r == simple_escape(c),
{
    if c == '"' {
        Some('"')
    } else if c == '\\' {
        Some('\\')
    } else if c == '/' {
        Some('/')
    } else if c == 'b' {
        Some('\u{8}')
    } else if c == 'f' {
        Some('\u{c}')
    } else if c == 'n' {
        Some('\n')
    } else if c == 'r' {
        Some('\r')
    } else if c == 't' {
        Some('\t')
    } else if c == 'v' {
        Some('\u{b}')
    } else {
        None
    }
}

/// Appends `chars[from..to]` to `out`.
fn append_chars(out: &mut Vec<char>, chars: &[char], from: usize, to: usize)
    requires
        from <= to <= chars@.len(),
    ensures
        final(out)@ == old(out)@ + chars@.subrange(from as int, to as int),
{
    let mut i: usize = from;
    assert(chars@.subrange(from as int, from as int) =~= Seq::<char>::empty());
    assert(out@ =~= old(out)@ + chars@.subrange(from as int, i as int));
    while i < to
        invariant
            from <= i <= to <= chars@.len(),
            out@ == old(out)@ + chars@.subrange(from as int, i as int),
        decreases to - i,
    {
        out.push(chars[i]);
        i += 1;
        assert(out@ =~= old(out)@ + chars@.subrange(from as int, i as int));
    }
}

/// Appends the line `chars[from..to]` to `out` as it enters a multiline string.
fn append_dedented(
    out: &mut Vec<char>,
    chars: &[char],
    from: usize,
    to: usize,
    key_indent: usize,
    preserve: bool,
)
    requires
        from <= to <= chars@.len(),
    ensures
        final(out)@ == old(out)@ + dedented(
            chars@.subrange(from as int, to as int),
            key_indent as int,
            preserve,
        ),
{
    let ghost line = chars@.subrange(from as int, to as int);
    let n = to - from;
    if preserve {
        let mut spaces = false;
        if n >= 2 && n - 2 >= key_indent {
            let required = key_indent + 2;
            let mut j: usize = 0;
            while j < required && chars[from + j] == ' '
                invariant
                    j <= required <= n,
                    n == to - from,
                    to <= chars@.len(),
                    line == chars@.subrange(from as int, to as int),
                    forall|i: int| 0 <= i < j ==> line[i] == ' ',
                decreases required - j,
            {
                j += 1;
            }
            spaces = j == required;
            proof {
                if !spaces {
                    assert(line[j as int] != ' ');
                }
            }
        }
        if spaces {
            append_chars(out, chars, from + (key_indent + 2), to);
            assert(chars@.subrange(from + key_indent + 2, to as int) =~= line.subrange(
                key_indent + 2,
                line.len() as int,
            ));
        } else {
            append_chars(out, chars, from, to);
        }
    } else {
        let (a, b) = trim_bounds(chars, from, to);
        append_chars(out, chars, a, b);
    }
}

impl<'a> Parser<'a> {
    /// Whether fewer than four bytes are left from the cursor on.
    fn short_of_four_bytes(&self) -> (b: bool)
        requires
            self.wf(),
        ensures
            b == fewer_than_four_bytes(self.chars@, self.pos as int),
    {
        if self.chars.len() - self.pos >= 4 {
            return false;
        }
        let mut total: usize = 0;
        let mut i: usize = self.pos;
        assert(self.chars@.subrange(self.pos as int, i as int) =~= Seq::<char>::empty());
        while i < self.chars.len()
            invariant
                self.pos <= i <= self.chars@.len(),
                self.chars@.len() - self.pos < 4,
                total == utf8_size(self.chars@.subrange(self.pos as int, i as int)),
                total <= 4 * (i - self.pos),
            decreases self.chars@.len() - i,
        {
            assert(self.chars@.subrange(self.pos as int, i + 1).drop_last()
                =~= self.chars@.subrange(self.pos as int, i as int));
            total = total + char_utf8_len(self.chars[i]);
            i += 1;
        }
        total < 4
    }

    /// The number that the four hexadecimal digits at the cursor write, if four
    /// stand there.
    fn read_hex4(&self) -> (r: Option<u32>)
        requires
            self.wf(),
        ensures
            match r {
                Some(v) => four_hex_digits(self.chars@, self.pos as int) && v == hex4_value(
                    self.chars@,
                    self.pos as int,
                ) && v <= 0xFFFF,
                None => !four_hex_digits(self.chars@, self.pos as int),
            },
    {
        if self.chars.len() - self.pos < 4 {
            return None;
        }
        let d0 = char_digit_value(self.chars[self.pos], 16);
        let d1 = char_digit_value(self.chars[self.pos + 1], 16);
        let d2 = char_digit_value(self.chars[self.pos + 2], 16);
        let d3 = char_digit_value(self.chars[self.pos + 3], 16);
        match (d0, d1, d2, d3) {
            (Some(a), Some(b), Some(c), Some(d)) => Some(((a * 16 + b) * 16 + c) * 16 + d),
            _ => None,
        }
    }

    /// A quoted string at the cursor.
    pub fn parse_string(&mut self) -> (r: Result<String, ParseError>)
        requires
            old(self).wf(),
        ensures
            agrees(
                r,
                *final(self),
                old(self).chars@,
                quoted_string(old(self).chars@, old(self).pos as int),
            ),
            r is Ok ==> final(self).pos > old(self).pos,
    {
        if !self.at('"') {
            return self.err("expected string");
        }
        let ghost s = self.chars@;
        let ghost start = self.pos as int;
        self.advance(1);
        let mut out = String::new();
        loop
            invariant
                self.wf(),
                self.chars@ == s,
                s == old(self).chars@,
                start == old(self).pos,
                char_at(s, start) == Some('"'),
                self.pos > start,
                string_body(s, self.pos as int, out@) == string_body(
                    s,
                    start + 1,
                    Seq::<char>::empty(),
                ),
            decreases s.len() - self.pos,
        {
            if self.done() {
                return self.err("unclosed string");
            }
            let ch = self.chars[self.pos];
            if ch == '"' {
                self.advance(1);
                return Ok(out);
            } else if ch == '\n' {
                return self.err("newlines not allowed in single-line strings");
            } else if ch == '\\' {
                self.advance(1);
                let esc = match self.current_char() {
                    Some(e) => e,
                    None => {
                        return self.err("incomplete escape sequence");
                    },
                };
                match decode_simple_escape(esc) {
                    Some(decoded) => {
                        out.push(decoded);
                        self.advance(1);
                    },
                    None => {
                        if esc == 'u' {
                            self.advance(1);
                            if self.short_of_four_bytes() {
                                return self.err("incomplete unicode escape");
                            }
                            let code_point = match self.read_hex4() {
                                Some(v) => v,
                                None => {
                                    return self.err("invalid unicode escape digits");
                                },
                            };
                            let decoded = match core::char::from_u32(code_point) {
                                Some(c) => c,
                                None => {
                                    return self.err("invalid unicode scalar value");
                                },
                            };
                            proof {
                                vstd::utf8::char_u32_cast(decoded, code_point);
                            }
                            out.push(decoded);
                            self.advance(4);
                        } else {
                            let mut msg = String::from_str("invalid escape character '\\");
                            msg.push(esc);
                            msg.append("'");
                            return Err(self.error_with(msg));
                        }
                    },
                }
            } else {
                out.push(ch);
                self.advance(1);
            }
        }
    }

    /// A key at the cursor, after optional spaces.
    pub fn parse_key(&mut self) -> (r: Result<String, ParseError>)
        requires
            old(self).wf(),
        ensures
            agrees(r, *final(self), old(self).chars@, key(old(self).chars@, old(self).pos as int)),
            r is Ok ==> final(self).pos > old(self).pos,
    {
        let ghost s = self.chars@;
        self.skip_spaces();
        if self.at('"') {
            return self.parse_string();
        }
        let start = self.pos;
        while self.pos < self.chars.len() && char_is_key_char(self.chars[self.pos])
            invariant
                self.wf(),
                self.chars@ == s,
                start <= self.pos,
                key_end(s, self.pos as int) == key_end(s, start as int),
            decreases s.len() - self.pos,
        {
            self.advance(1);
        }
        if self.pos == start {
            self.err("expected a key")
        } else {
            Ok(string_of(self.chars, start, self.pos))
        }
    }

    /// Moves the cursor over the rest of the line and its line feed, and gives
    /// the bounds of what stood before the line feed.
    pub fn consume_line_content(&mut self) -> (content: (usize, usize))
        requires
            old(self).wf(),
        ensures
            final(self).wf(),
            final(self).chars == old(self).chars,
            content.0 == old(self).pos,
            content.1 == line_end(old(self).chars@, old(self).pos as int),
            content.0 <= content.1 <= final(self).pos <= old(self).chars@.len(),
            final(self).pos == if content.1 < old(self).chars@.len() {
                content.1 + 1
            } else {
                content.1 as int
            },
    {
        let ghost s = self.chars@;
        let start = self.pos;
        while self.pos < self.chars.len() && self.chars[self.pos] != '\n'
            invariant
                self.wf(),
                self.chars == old(self).chars,
                self.chars@ == s,
                start <= self.pos,
                line_end(s, self.pos as int) == line_end(s, start as int),
            decreases s.len() - self.pos,
        {
            self.advance(1);
        }
        let end = self.pos;
        if self.at('\n') {
            self.advance(1);
        }
        (start, end)
    }

    /// A multiline string whose opening delimiter stands at the cursor.
    pub fn parse_multiline_string(&mut self, key_indent: usize, preserve_spaces: bool) -> (r:
        Result<String, ParseError>)
        requires
            old(self).wf(),
        ensures
            agrees(
                r,
                *final(self),
                old(self).chars@,
                multiline_string(
                    old(self).chars@,
                    old(self).pos as int,
                    key_indent as int,
                    preserve_spaces,
                ),
            ),
            r is Ok ==> final(self).pos > old(self).pos,
    {
        let ghost s = self.chars@;
        if self.chars.len() - self.pos < 3 {
            return self.err("unterminated multiline string delimiter");
        }
        let ghost delim = s.subrange(self.pos as int, self.pos + 3);
        let d0 = self.chars[self.pos];
        let d1 = self.chars[self.pos + 1];
        let d2 = self.chars[self.pos + 2];
        assert(delim =~= seq![d0, d1, d2]);
        self.advance(3);
        self.consume_line()?;
        let ghost body_start = self.pos as int;
        let mut out: Vec<char> = Vec::new();
        loop
            invariant
                self.wf(),
                self.chars@ == s,
                s == old(self).chars@,
                self.pos > old(self).pos,
                delim == seq![d0, d1, d2],
                delim == s.subrange(old(self).pos as int, old(self).pos + 3),
                line_rest(s, old(self).pos + 3) matches Outcome::Accept { value, next }
                    && next == body_start,
                multiline_body(
                    s,
                    self.pos as int,
                    key_indent as int,
                    preserve_spaces,
                    delim,
                    out@,
                ) == multiline_body(
                    s,
                    body_start,
                    key_indent as int,
                    preserve_spaces,
                    delim,
                    Seq::<char>::empty(),
                ),
            decreases s.len() - self.pos,
        {
            if self.done() {
                return self.err("unclosed multiline string");
            }
            let saved = *self;
            self.skip_spaces();
            let line_indent = self.pos - saved.pos;
            let closes = self.chars.len() - self.pos >= 3 && self.chars[self.pos] == d0
                && self.chars[self.pos + 1] == d1 && self.chars[self.pos + 2] == d2;
            proof {
                let q = self.pos as int;
                if closes {
                    assert(s.subrange(q, q + 3) =~= delim);
                } else if q + 3 <= s.len() {
                    let w = s.subrange(q, q + 3);
                    assert(w[0] == s[q] && w[1] == s[q + 1] && w[2] == s[q + 2]);
                }
            }
            if closes {
                if line_indent != key_indent {
                    let mut msg = String::from_str(
                        "multiline closing delimiter must be at same indentation as the key (",
                    );
                    push_decimal(&mut msg, key_indent as u64);
                    msg.append(" spaces)");
                    return Err(self.error_with(msg));
                }
                self.advance(3);
                self.consume_line()?;
                let keep = if out.len() > 0 {
                    out.len() - 1
                } else {
                    0
                };
                let text = string_of(out.as_slice(), 0, keep);
                assert(out@.subrange(0, keep as int) =~= if out@.len() > 0 {
                    out@.drop_last()
                } else {
                    out@
                });
                return Ok(text);
            }
            *self = saved;
            let ghost before = out@;
            let (start, end) = self.consume_line_content();
            append_dedented(&mut out, self.chars, start, end, key_indent, preserve_spaces);
            out.push('\n');
            proof {
                let line = s.subrange(start as int, line_end(s, start as int));
                assert(out@ =~= before + dedented(line, key_indent as int, preserve_spaces)
                    + seq!['\n']);
            }
        }
    }
}

} // verus!
