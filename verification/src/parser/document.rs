//! Parsers for the document: the version header, the form of the root, and the
//! root value.

use crate::grammar::document::{
    comma_before_colon, document, end_of_document, has_key_value, inline_dict_at_root,
    line_has, marks_end, only_blank, root_type, root_value, token_end, version_header, Mark,
};
use crate::grammar::position::{after_spaces, lemma_after_spaces, lemma_line_end, line_end, Outcome};
use crate::grammar::scalars::key;
use crate::grammar::structure::DataType;
use crate::parser::cursor::{agrees, ParseError, Parser};
use crate::text::string_of;
use crate::value::{lemma_list_model, lemma_value_model, models, HumlDict, HumlDocument, HumlValue};
use vstd::prelude::*;
use vstd::string::*;

verus! {

/// Whether a result and the cursor after it are what the grammar gives, for
/// an optional text.
pub open spec fn agrees_optional(
    r: Result<Option<String>, ParseError>,
    end: Parser,
    s: Seq<char>,
    o: Outcome<Option<Seq<char>>>,
) -> bool {
    match o {
        Outcome::Accept { value, next } => {
            &&& r matches Ok(v)
            &&& match value {
                Some(t) => v matches Some(text) && text@ == t,
                None => v is None,
            }
            &&& end.pos == next
            &&& end.wf()
            &&& end.chars@ == s
        },
        Outcome::Reject { at, message } => r matches Err(e) && e.is_at(s, at, message),
    }
}

impl<'a> Parser<'a> {
    /// Whether a key and then `:` stand at the cursor.
    pub fn has_key_value_pair(&self) -> (b: bool)
        requires
            self.wf(),
        ensures
            b == has_key_value(self.chars@, self.pos as int),
    {
        let mut clone = *self;
        match clone.parse_key() {
            Ok(_) => clone.at(':'),
            Err(_) => false,
        }
    }

    /// Whether a `,` comes before any `:` on the line of the cursor.
    pub fn has_inline_list_at_root(&self) -> (b: bool)
        requires
            self.wf(),
        ensures
            b == comma_before_colon(self.chars@, self.pos as int),
    {
        let mut pos: usize = self.pos;
        while pos < self.chars.len() && self.chars[pos] != '\n' && self.chars[pos] != '#'
            invariant
                self.pos <= pos <= self.chars@.len(),
                comma_before_colon(self.chars@, pos as int) == comma_before_colon(
                    self.chars@,
                    self.pos as int,
                ),
            decreases self.chars@.len() - pos,
        {
            if self.chars[pos] == ',' {
                return true;
            } else if self.chars[pos] == ':' {
                return false;
            }
            pos += 1;
        }
        false
    }

    /// Whether the line of the cursor is an inline dict and nothing but blank
    /// lines and comments follows it.
    pub fn has_inline_dict_at_root(&self) -> (b: bool)
        requires
            self.wf(),
        ensures
            b == inline_dict_at_root(self.chars@, self.pos as int),
    {
        let ghost s = self.chars@;
        let len = self.chars.len();
        let mut pos: usize = self.pos;
        let mut has_colon = false;
        let mut has_comma = false;
        let mut has_double_colon = false;
        while pos < len && self.chars[pos] != '\n' && self.chars[pos] != '#'
            invariant
                self.pos <= pos <= len,
                len == s.len(),
                s == self.chars@,
                marks_end(s, pos as int) == marks_end(s, self.pos as int),
                line_has(s, self.pos as int, Mark::Colon) == (has_colon || line_has(
                    s,
                    pos as int,
                    Mark::Colon,
                )),
                line_has(s, self.pos as int, Mark::Comma) == (has_comma || line_has(
                    s,
                    pos as int,
                    Mark::Comma,
                )),
                line_has(s, self.pos as int, Mark::DoubleColon) == (has_double_colon || line_has(
                    s,
                    pos as int,
                    Mark::DoubleColon,
                )),
            decreases len - pos,
        {
            if self.chars[pos] == ':' {
                if pos + 1 < len && self.chars[pos + 1] == ':' {
                    has_double_colon = true;
                } else {
                    has_colon = true;
                }
            } else if self.chars[pos] == ',' {
                has_comma = true;
            }
            pos += 1;
        }
        if !(has_colon && has_comma && !has_double_colon) {
            return false;
        }
        let ghost rest = pos as int;
        assert(inline_dict_at_root(s, self.pos as int) == only_blank(s, rest));
        while pos < len
            invariant
                pos <= len,
                len == s.len(),
                s == self.chars@,
                only_blank(s, pos as int) == only_blank(s, rest),
                inline_dict_at_root(s, self.pos as int) == only_blank(s, rest),
            ensures
                pos >= len,
            decreases len - pos,
        {
            let ghost line = pos as int;
            proof {
                lemma_after_spaces(s, line);
            }
            while pos < len && self.chars[pos] == ' '
                invariant
                    line <= pos <= len,
                    len == s.len(),
                    s == self.chars@,
                    after_spaces(s, pos as int) == after_spaces(s, line),
                decreases len - pos,
            {
                pos += 1;
            }
            if pos >= len {
                break ;
            }
            if self.chars[pos] == '\n' {
                pos += 1;
            } else if self.chars[pos] == '#' {
                let ghost hash = pos as int;
                proof {
                    lemma_line_end(s, hash);
                }
                while pos < len && self.chars[pos] != '\n'
                    invariant
                        hash <= pos <= len,
                        len == s.len(),
                        s == self.chars@,
                        line_end(s, pos as int) == line_end(s, hash),
                    decreases len - pos,
                {
                    pos += 1;
                }
                if pos < len {
                    pos += 1;
                }
            } else {
                return false;
            }
        }
        true
    }

    /// The form of the root value at the cursor.
    pub fn get_root_type(&self) -> (t: DataType)
        requires
            self.wf(),
        ensures
            t == root_type(self.chars@, self.pos as int),
    {
        if self.has_key_value_pair() {
            if self.has_inline_dict_at_root() {
                return DataType::InlineDict;
            }
            return DataType::MultilineDict;
        }
        if self.starts_with("[]") {
            return DataType::EmptyList;
        }
        if self.starts_with("{}") {
            return DataType::EmptyDict;
        }
        if self.at('-') {
            return DataType::MultilineList;
        }
        if self.has_inline_list_at_root() {
            return DataType::InlineList;
        }
        DataType::Scalar
    }

    /// The version header at the cursor, if one is there.
    pub fn parse_version_header(&mut self) -> (r: Result<Option<String>, ParseError>)
        requires
            old(self).wf(),
        ensures
            agrees_optional(
                r,
                *final(self),
                old(self).chars@,
                version_header(old(self).chars@, old(self).pos as int),
            ),
            r is Ok ==> final(self).pos >= old(self).pos,
    {
        let ghost s = self.chars@;
        proof {
            reveal_strlit("%HUML");
        }
        if !self.starts_with("%HUML") {
            return Ok(None);
        }
        self.advance(5);
        let mut version: Option<String> = None;
        if self.at(' ') {
            self.advance(1);
            let start = self.pos;
            while self.pos < self.chars.len() && self.chars[self.pos] != ' '
                && self.chars[self.pos] != '\n' && self.chars[self.pos] != '#'
                invariant
                    self.wf(),
                    self.chars@ == s,
                    start <= self.pos,
                    token_end(s, self.pos as int) == token_end(s, start as int),
                decreases s.len() - self.pos,
            {
                self.advance(1);
            }
            if self.pos > start {
                if self.chars[start] == 'v' {
                    let trimmed = string_of(self.chars, start + 1, self.pos);
                    let supported = String::from_str("0.1.0");
                    if trimmed != supported {
                        let mut msg = String::from_str("unsupported version 'v");
                        msg.append(trimmed.as_str());
                        msg.append("'. expected 'v0.1.0'");
                        return Err(self.error_with(msg));
                    }
                    version = Some(trimmed);
                } else {
                    return self.err("invalid version token");
                }
            } else if self.done() || self.at('\n') {
                return self.err("trailing spaces are not allowed");
            }
        }
        self.consume_line()?;
        Ok(version)
    }

    /// The root value at the cursor.
    pub fn parse_root_value(&mut self, allow_version_line: bool) -> (r: Result<
        HumlValue,
        ParseError,
    >)
        requires
            old(self).wf(),
        ensures
            agrees(
                r,
                *final(self),
                old(self).chars@,
                root_value(old(self).chars@, old(self).pos as int, allow_version_line),
            ),
            r is Ok ==> final(self).pos >= old(self).pos,
    {
        proof {
            reveal_strlit("[]");
            reveal_strlit("{}");
        }
        if !allow_version_line && self.starts_with("%HUML") {
            return self.err("version directive not allowed in this context");
        }
        if self.get_cur_indent() != 0 {
            return self.err("root element must not be indented");
        }
        if self.starts_with("::") {
            return self.err("'::' indicator not allowed at document root");
        }
        if self.starts_with(":") && !self.has_key_value_pair() {
            return self.err("':' indicator not allowed at document root");
        }
        match self.get_root_type() {
            DataType::InlineDict => self.parse_inline_vector_contents(DataType::InlineDict),
            DataType::MultilineDict => self.parse_multiline_dict(0),
            DataType::EmptyList => {
                self.advance(2);
                self.consume_line()?;
                let v = HumlValue::List(Vec::new());
                proof {
                    lemma_list_model(&v);
                    assert(models(v->List_0@) =~= Seq::empty());
                }
                Ok(v)
            },
            DataType::EmptyDict => {
                self.advance(2);
                self.consume_line()?;
                let v = HumlValue::Dict(HumlDict::new());
                proof {
                    lemma_value_model(&v);
                }
                Ok(v)
            },
            DataType::MultilineList => self.parse_multiline_list(0),
            DataType::InlineList => self.parse_inline_vector_contents(DataType::InlineList),
            DataType::Scalar => {
                let value = self.parse_scalar_value(0)?;
                self.consume_line()?;
                Ok(value)
            },
        }
    }

    /// A document, from the start of the input to its end.
    pub fn parse_document(&mut self) -> (r: Result<HumlDocument, ParseError>)
        requires
            old(self).wf(),
            old(self).pos == 0,
        ensures
            agrees(r, *final(self), old(self).chars@, document(old(self).chars@)),
    {
        if self.done() {
            return self.err("empty document is undefined");
        }
        let version = self.parse_version_header()?;
        self.skip_blank_lines()?;
        if self.done() {
            return self.err("empty document is undefined");
        }
        let root = self.parse_root_value(true)?;
        self.expect_end()?;
        Ok(HumlDocument { version, root })
    }

    /// What must follow the root value: blank lines and comments to the end.
    pub fn expect_end(&mut self) -> (r: Result<(), ParseError>)
        requires
            old(self).wf(),
        ensures
            agrees(
                r,
                *final(self),
                old(self).chars@,
                end_of_document(old(self).chars@, old(self).pos as int, ()),
            ),
    {
        self.skip_blank_lines()?;
        if !self.done() {
            return self.err("unexpected content after document root");
        }
        Ok(())
    }
}

} // verus!
