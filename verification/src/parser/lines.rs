//! Scanners for what stands between values: the end of a line, blank lines and
//! comments, separators, indicators.

use crate::grammar::lexical::{blank_lines, comma, indicator, key_starts, line_rest, single_space};
use crate::grammar::position::{lemma_after_spaces, lemma_line_start, line_end, line_start};
use crate::parser::cursor::{agrees, ParseError, Parser};
use crate::text::char_is_alpha;
use vstd::prelude::*;
use vstd::string::*;

verus! {

impl<'a> Parser<'a> {
    /// Consumes the rest of the line: spaces and a comment, and the line feed.
    pub fn consume_line(&mut self) -> (r: Result<(), ParseError>)
        requires
            old(self).wf(),
        ensures
            agrees(
                r,
                *final(self),
                old(self).chars@,
                line_rest(old(self).chars@, old(self).pos as int),
            ),
            r is Ok ==> final(self).pos >= old(self).pos,
            r is Ok ==> (final(self).pos > old(self).pos || final(self).pos
                == final(self).chars@.len()),
    {
        let content_start = self.pos;
        let ghost s = self.chars@;
        self.skip_spaces();
        proof {
            lemma_after_spaces(s, content_start as int);
        }
        if self.done() || self.at('\n') {
            if self.pos > content_start {
                return self.err("trailing spaces are not allowed");
            }
        } else if self.at('#') {
            proof {
                lemma_line_start(s, self.pos as int);
            }
            if self.pos == content_start && self.get_cur_indent() != self.pos - self.line_start {
                return self.err("a value must be separated from an inline comment by a space");
            }
            self.advance(1);
            match self.current_char() {
                Some(' ') | Some('\n') | None => {},
                _ => {
                    return self.err("comment hash '#' must be followed by a space");
                },
            }
            let comment_end = self.pos;
            while self.pos < self.chars.len() && self.chars[self.pos] != '\n'
                invariant
                    self.wf(),
                    self.chars@ == s,
                    comment_end <= self.pos,
                    line_end(s, self.pos as int) == line_end(s, comment_end as int),
                decreases self.chars@.len() - self.pos,
            {
                self.advance(1);
            }
            if self.chars[self.pos - 1] == ' ' && self.pos - 1 >= comment_end {
                return self.err("trailing spaces are not allowed");
            }
        } else {
            return self.err("unexpected content at end of line");
        }
        if self.at('\n') {
            self.advance(1);
        }
        Ok(())
    }

    /// Skips blank lines and comment lines.
    pub fn skip_blank_lines(&mut self) -> (r: Result<(), ParseError>)
        requires
            old(self).wf(),
        ensures
            agrees(
                r,
                *final(self),
                old(self).chars@,
                blank_lines(old(self).chars@, old(self).pos as int),
            ),
            r is Ok ==> final(self).pos >= old(self).pos,
    {
        let ghost s = self.chars@;
        loop
            invariant
                self.wf(),
                self.chars@ == s,
                s == old(self).chars@,
                self.pos >= old(self).pos,
                blank_lines(s, self.pos as int) == blank_lines(s, old(self).pos as int),
            decreases s.len() - self.pos,
        {
            if self.done() {
                return Ok(());
            }
            let saved = *self;
            self.skip_spaces();
            proof {
                lemma_after_spaces(s, saved.pos as int);
            }
            if self.done() {
                return self.err("trailing spaces are not allowed");
            }
            match self.current_char() {
                Some('\n') => {
                    if self.pos > saved.pos {
                        return self.err("trailing spaces are not allowed");
                    }
                    self.advance(1);
                },
                Some('#') => {
                    *self = saved;
                    self.consume_line()?;
                },
                _ => {
                    return Ok(());
                },
            }
        }
    }

    /// Consumes exactly one space.
    pub fn assert_space(&mut self, context: &str) -> (r: Result<(), ParseError>)
        requires
            old(self).wf(),
        ensures
            agrees(
                r,
                *final(self),
                old(self).chars@,
                single_space(old(self).chars@, old(self).pos as int, context@),
            ),
            r is Ok ==> final(self).pos == old(self).pos + 1,
    {
        if !self.at(' ') {
            let mut msg = String::from_str("expected single space ");
            msg.append(context);
            return Err(self.error_with(msg));
        }
        self.advance(1);
        if self.at(' ') {
            let mut msg = String::from_str("expected single space ");
            msg.append(context);
            msg.append(", found multiple");
            return Err(self.error_with(msg));
        }
        Ok(())
    }

    /// Consumes a comma and the space after it.
    pub fn expect_comma(&mut self) -> (r: Result<(), ParseError>)
        requires
            old(self).wf(),
        ensures
            agrees(
                r,
                *final(self),
                old(self).chars@,
                comma(old(self).chars@, old(self).pos as int),
            ),
            r is Ok ==> final(self).pos > old(self).pos,
    {
        proof {
            lemma_after_spaces(self.chars@, self.pos as int);
        }
        self.skip_spaces();
        if !self.at(',') {
            return self.err("expected a comma in inline collection");
        }
        if self.pos > 0 && self.chars[self.pos - 1] == ' ' {
            return self.err("no spaces allowed before comma");
        }
        self.advance(1);
        self.assert_space("after comma")
    }

    /// Consumes the indicator after a key; `true` for `::`.
    pub fn parse_indicator(&mut self) -> (r: Result<bool, ParseError>)
        requires
            old(self).wf(),
        ensures
            agrees(
                r,
                *final(self),
                old(self).chars@,
                indicator(old(self).chars@, old(self).pos as int),
            ),
            r is Ok ==> final(self).pos > old(self).pos,
    {
        if !self.at(':') {
            return self.err("expected ':' or '::' after key");
        }
        self.advance(1);
        if self.at(':') {
            self.advance(1);
            Ok(true)
        } else {
            Ok(false)
        }
    }

    /// Whether a key can start at the cursor.
    pub fn is_key_start(&self) -> (b: bool)
        requires
            self.wf(),
        ensures
            b == key_starts(self.chars@, self.pos as int),
    {
        match self.current_char() {
            Some(c) => c == '"' || char_is_alpha(c),
            None => false,
        }
    }
}

} // verus!
