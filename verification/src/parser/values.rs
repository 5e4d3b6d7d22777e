//! Scanners for numbers and for the value that a scalar position holds.

use crate::grammar::scalars::{
    float_marked, number, number_end, radix_end, radix_number, scalar, signed_value,
};
use crate::parser::cursor::{agrees, ParseError, Parser};
use crate::parser::numbers::{
    is_finite_float_literal, parse_integer_literal, parse_radix_literal, strip_underscores,
};
use crate::text::{char_digit_value, char_is_digit, char_lead_byte, string_of};
use crate::value::{lemma_value_model, HumlDict, HumlNumber, HumlValue, ValueModel};
use vstd::prelude::*;
use vstd::string::*;

verus! {

impl<'a> Parser<'a> {
    /// The digits of a literal with a base prefix; the prefix stands at the
    /// cursor. The base is 2, 8 or 16.
    pub fn parse_base_number(&mut self, negative: bool, base: u32) -> (r: Result<
        HumlNumber,
        ParseError,
    >)
        requires
            old(self).wf(),
            old(self).pos + 2 <= old(self).chars@.len(),
            base == 2 || base == 8 || base == 16,
        ensures
            agrees(
                r,
                *final(self),
                old(self).chars@,
                radix_number(old(self).chars@, old(self).pos as int, base as int, negative),
            ),
            r is Ok ==> final(self).pos > old(self).pos,
    {
        let ghost s = self.chars@;
        self.advance(2);
        let num_start = self.pos;
        while self.pos < self.chars.len() && (self.chars[self.pos] == '_' || char_digit_value(
            self.chars[self.pos],
            base,
        ).is_some())
            invariant
                self.wf(),
                self.chars@ == s,
                num_start <= self.pos,
                1 <= base <= 16,
                radix_end(s, self.pos as int, base as int) == radix_end(
                    s,
                    num_start as int,
                    base as int,
                ),
            decreases s.len() - self.pos,
        {
            self.advance(1);
        }
        if self.pos == num_start {
            return self.err("invalid number literal, requires digits after prefix");
        }
        let digits = strip_underscores(self.chars, num_start, self.pos);
        match parse_radix_literal(digits.as_slice(), base) {
            Some(v) => Ok(
                HumlNumber::Integer(
                    if negative {
                        -v
                    } else {
                        v
                    },
                ),
            ),
            None => self.err("invalid digits for number literal"),
        }
    }

    /// A numeric literal at the cursor.
    pub fn parse_number(&mut self) -> (r: Result<HumlNumber, ParseError>)
        requires
            old(self).wf(),
        ensures
            agrees(
                r,
                *final(self),
                old(self).chars@,
                number(old(self).chars@, old(self).pos as int),
            ),
            r is Ok ==> final(self).pos > old(self).pos,
    {
        let ghost s = self.chars@;
        let start = self.pos;
        let negative = self.at('-');
        if self.at('+') || self.at('-') {
            self.advance(1);
        }
        proof {
            reveal_strlit("0x");
            reveal_strlit("0o");
            reveal_strlit("0b");
        }
        if self.starts_with("0x") {
            return self.parse_base_number(negative, 16);
        }
        if self.starts_with("0o") {
            return self.parse_base_number(negative, 8);
        }
        if self.starts_with("0b") {
            return self.parse_base_number(negative, 2);
        }
        let digits_start = self.pos;
        let mut is_float = false;
        loop
            invariant
                self.wf(),
                self.chars@ == s,
                digits_start <= self.pos,
                number_end(s, self.pos as int) == number_end(s, digits_start as int),
                is_float == float_marked(s, digits_start as int, self.pos as int),
            ensures
                self.wf(),
                self.chars@ == s,
                digits_start <= self.pos,
                self.pos == number_end(s, digits_start as int),
                is_float == float_marked(s, digits_start as int, self.pos as int),
            decreases s.len() - self.pos,
        {
            if self.done() {
                break ;
            }
            let c = self.chars[self.pos];
            if char_is_digit(c) || c == '_' {
                self.advance(1);
            } else if c == '.' {
                is_float = true;
                self.advance(1);
            } else if c == 'e' || c == 'E' {
                is_float = true;
                self.advance(1);
                if self.at('+') || self.at('-') {
                    self.advance(1);
                    assert(float_marked(s, digits_start as int, self.pos - 1));
                }
            } else {
                break ;
            }
        }
        if self.pos == start || (self.pos == start + 1 && digits_start == start + 1) {
            return self.err("invalid number literal, missing digits");
        }
        let literal = strip_underscores(self.chars, start, self.pos);
        if is_float {
            if is_finite_float_literal(literal.as_slice()) {
                let text = string_of(literal.as_slice(), 0, literal.len());
                assert(literal@.subrange(0, literal@.len() as int) =~= literal@);
                Ok(HumlNumber::Float(text))
            } else {
                self.err("invalid float literal")
            }
        } else {
            match parse_integer_literal(literal.as_slice()) {
                Some(v) => Ok(HumlNumber::Integer(v)),
                None => self.err("invalid integer literal"),
            }
        }
    }

    /// What follows a sign at the cursor: an infinity or a number.
    fn parse_signed_value(&mut self, positive: bool) -> (r: Result<HumlValue, ParseError>)
        requires
            old(self).wf(),
            old(self).pos < old(self).chars@.len(),
        ensures
            agrees(
                r,
                *final(self),
                old(self).chars@,
                signed_value(old(self).chars@, old(self).pos as int, positive),
            ),
            r is Ok ==> final(self).pos > old(self).pos,
    {
        broadcast use lemma_value_model;

        let saved = *self;
        self.advance(1);
        proof {
            reveal_strlit("inf");
        }
        if self.starts_with("inf") {
            self.advance(3);
            Ok(HumlValue::Number(HumlNumber::Infinity(positive)))
        } else if self.pos < self.chars.len() && char_is_digit(self.chars[self.pos]) {
            *self = saved;
            let n = self.parse_number()?;
            Ok(HumlValue::Number(n))
        } else if positive {
            self.err("invalid character after '+'")
        } else {
            self.err("invalid character after '-'")
        }
    }

    /// A scalar at the cursor. A multiline string closes at the indentation
    /// `key_indent`.
    pub fn parse_scalar_value(&mut self, key_indent: usize) -> (r: Result<HumlValue, ParseError>)
        requires
            old(self).wf(),
        ensures
            agrees(
                r,
                *final(self),
                old(self).chars@,
                scalar(old(self).chars@, old(self).pos as int, key_indent as int),
            ),
            r is Ok ==> final(self).pos > old(self).pos,
    {
        broadcast use lemma_value_model;

        if self.done() {
            return self.err("unexpected end of input, expected a value");
        }
        proof {
            reveal_strlit("[]");
            reveal_strlit("{}");
            reveal_strlit("\"\"\"");
            reveal_strlit("```");
            reveal_strlit("true");
            reveal_strlit("false");
            reveal_strlit("null");
            reveal_strlit("nan");
            reveal_strlit("inf");
        }
        if self.starts_with("[]") {
            self.advance(2);
            let v = HumlValue::List(Vec::new());
            assert(v@ =~= ValueModel::List(Seq::empty())) by {
                assert(v@->List_0 =~= Seq::empty());
            }
            return Ok(v);
        }
        if self.starts_with("{}") {
            self.advance(2);
            return Ok(HumlValue::Dict(HumlDict::new()));
        }
        let c = self.chars[self.pos];
        if c == '"' {
            if self.starts_with("\"\"\"") {
                let text = self.parse_multiline_string(key_indent, false)?;
                Ok(HumlValue::String(text))
            } else {
                let text = self.parse_string()?;
                Ok(HumlValue::String(text))
            }
        } else if self.starts_with("```") {
            let text = self.parse_multiline_string(key_indent, true)?;
            Ok(HumlValue::String(text))
        } else if self.starts_with("true") {
            self.advance(4);
            Ok(HumlValue::Boolean(true))
        } else if self.starts_with("false") {
            self.advance(5);
            Ok(HumlValue::Boolean(false))
        } else if self.starts_with("null") {
            self.advance(4);
            Ok(HumlValue::Null)
        } else if self.starts_with("nan") {
            self.advance(3);
            Ok(HumlValue::Number(HumlNumber::Nan))
        } else if self.starts_with("inf") {
            self.advance(3);
            Ok(HumlValue::Number(HumlNumber::Infinity(true)))
        } else if c == '+' {
            self.parse_signed_value(true)
        } else if c == '-' {
            self.parse_signed_value(false)
        } else if char_is_digit(c) {
            let n = self.parse_number()?;
            Ok(HumlValue::Number(n))
        } else {
            let mut msg = String::from_str("unexpected character '");
            msg.push(char_lead_byte(c));
            msg.append("' when parsing value");
            Err(self.error_with(msg))
        }
    }
}

} // verus!
