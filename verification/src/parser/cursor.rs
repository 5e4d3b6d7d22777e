//! The cursor: a position in the input with its line and column, cheap to copy
//! for a lookahead that is thrown away.

use crate::grammar::position::{
    after_spaces, char_at, clip, column_of, has_prefix, indent_of, lemma_line_start, line_of,
    line_start, Outcome,
};
use crate::text::{char_utf8_len, decimal, push_decimal};
use vstd::string::*;
use vstd::prelude::*;

verus! {

/// A failed parse: where it failed, from 1, and why.
#[derive(Debug, PartialEq, Eq)]
pub struct ParseError {
    pub line: usize,
    pub column: usize,
    pub message: String,
}

impl ParseError {
    /// The failure at `line` and `column` with the message `message`.
    pub fn new(line: usize, column: usize, message: String) -> (e: ParseError)
        ensures
            e.line == line,
            e.column == column,
            e.message@ == message@,
    {
        ParseError { line, column, message }
    }

    /// The failure as a reader sees it: `line L:C message`.
    pub open spec fn text(&self) -> Seq<char> {
        "line "@ + decimal(self.line as nat) + ":"@ + decimal(self.column as nat) + " "@
            + self.message@
    }

    /// The failure as a reader sees it.
    pub fn to_string(&self) -> (text: String)
        ensures
            text@ == self.text(),
    {
        let mut text = String::from_str("line ");
        push_decimal(&mut text, self.line as u64);
        text.append(":");
        push_decimal(&mut text, self.column as u64);
        text.append(" ");
        text.append(self.message.as_str());
        text
    }

    /// Whether this is the failure at position `at` of the text `s` with the
    /// message `message`.
    pub open spec fn is_at(&self, s: Seq<char>, at: int, message: Seq<char>) -> bool {
        &&& self.line == clip(line_of(s, at))
        &&& self.column == clip(column_of(s, at))
        &&& self.message@ == message
    }
}

impl Clone for ParseError {
    fn clone(&self) -> (e: Self)
        ensures
            e.line == self.line,
            e.column == self.column,
            e.message@ == self.message@,
    {
        ParseError { line: self.line, column: self.column, message: self.message.clone() }
    }
}

/// A position in the input. `pos` counts characters; `line` and `column` are
/// those of `pos`, `line_start` is where its line starts.
#[derive(Clone, Copy)]
pub struct Parser<'a> {
    pub chars: &'a [char],
    pub pos: usize,
    pub line: usize,
    pub line_start: usize,
    pub column: usize,
}

/// Whether a result and the cursor after it are what the grammar gives: the
/// value and the position on success, the place and the message on failure.
pub open spec fn agrees<T: View>(
    r: Result<T, ParseError>,
    end: Parser,
    s: Seq<char>,
    o: Outcome<T::V>,
) -> bool {
    match o {
        Outcome::Accept { value, next } => {
            &&& r matches Ok(v)
            &&& v@ == value
            &&& end.pos == next
            &&& end.wf()
            &&& end.chars@ == s
        },
        Outcome::Reject { at, message } => r matches Err(e) && e.is_at(s, at, message),
    }
}

impl<'a> Parser<'a> {
    /// The text that the cursor is over.
    pub open spec fn text(&self) -> Seq<char> {
        self.chars@
    }

    /// The line and column are those of the position.
    pub open spec fn wf(&self) -> bool {
        &&& self.pos <= self.chars@.len()
        &&& self.line_start == line_start(self.chars@, self.pos as int)
        &&& self.line == clip(line_of(self.chars@, self.pos as int))
        &&& self.column == clip(column_of(self.chars@, self.pos as int))
    }

    /// A cursor at the start of `chars`.
    pub fn new(chars: &'a [char]) -> (p: Parser<'a>)
        ensures
            p.wf(),
            p.pos == 0,
            p.chars@ == chars@,
    {
        Parser { chars, pos: 0, line: 1, line_start: 0, column: 1 }
    }

    /// Whether the cursor is at the end of the input.
    pub fn done(&self) -> (b: bool)
        requires
            self.wf(),
        ensures
            b == (self.pos >= self.chars@.len()),
    {
        self.pos >= self.chars.len()
    }

    /// The character at the cursor.
    pub fn current_char(&self) -> (c: Option<char>)
        requires
            self.wf(),
        ensures
            c == char_at(self.chars@, self.pos as int),
    {
        if self.pos < self.chars.len() {
            Some(self.chars[self.pos])
        } else {
            None
        }
    }

    /// Whether the cursor is at the character `c`.
    pub fn at(&self, c: char) -> (b: bool)
        requires
            self.wf(),
        ensures
            b == (char_at(self.chars@, self.pos as int) == Some(c)),
    {
        self.pos < self.chars.len() && self.chars[self.pos] == c
    }

    /// Whether the input holds `pat` at the cursor.
    pub fn starts_with(&self, pat: &str) -> (b: bool)
        requires
            self.wf(),
        ensures
            b == has_prefix(self.chars@, self.pos as int, pat@),
    {
        let mut i: usize = self.pos;
        for c in it: pat.chars()
            invariant
                it.seq() == pat@,
                self.pos <= i <= self.chars@.len(),
                i == self.pos + it.index(),
                self.chars@.subrange(self.pos as int, i as int) == pat@.take(it.index() as int),
        {
            if i < self.chars.len() && self.chars[i] == c {
                i += 1;
                assert(self.chars@.subrange(self.pos as int, i as int) =~= pat@.take(
                    it.index() + 1,
                )) by {
                    assert(self.chars@.subrange(self.pos as int, i as int) =~= self.chars@.subrange(
                        self.pos as int,
                        i - 1,
                    ).push(c));
                    assert(pat@.take(it.index() + 1) =~= pat@.take(it.index() as int).push(c));
                }
            } else {
                proof {
                    if self.pos + pat@.len() <= self.chars@.len() {
                        let k = it.index() as int;
                        let sub = self.chars@.subrange(
                            self.pos as int,
                            self.pos + pat@.len() as int,
                        );
                        assert(sub[k] == self.chars@[self.pos + k]);
                        assert(sub[k] != pat@[k]);
                    }
                }
                return false;
            }
        }
        assert(pat@.take(pat@.len() as int) =~= pat@);
        true
    }

    /// Moves the cursor over `n` characters, or to the end of the input where
    /// fewer are left, counting lines and columns.
    pub fn advance(&mut self, n: usize)
        requires
            old(self).wf(),
        ensures
            final(self).wf(),
            final(self).pos == if old(self).pos + n <= old(self).chars@.len() {
                old(self).pos + n
            } else {
                old(self).chars@.len() as int
            },
            final(self).chars == old(self).chars,
    {
        let mut i: usize = 0;
        while i < n && self.pos < self.chars.len()
            invariant
                self.wf(),
                i <= n,
                self.pos == old(self).pos + i,
                self.chars == old(self).chars,
            decreases n - i,
        {
            let c = self.chars[self.pos];
            self.pos = self.pos + 1;
            if c == '\n' {
                self.line = self.line.saturating_add(1);
                self.line_start = self.pos;
                self.column = 1;
            } else {
                self.column = self.column.saturating_add(char_utf8_len(c));
            }
            i += 1;
        }
    }

    /// Moves the cursor over one character, if there is one.
    pub fn advance_char(&mut self)
        requires
            old(self).wf(),
        ensures
            final(self).wf(),
            final(self).chars == old(self).chars,
            final(self).pos == if old(self).pos < old(self).chars@.len() {
                old(self).pos + 1
            } else {
                old(self).pos as int
            },
    {
        self.advance(1);
    }

    /// The column of the cursor, from 1.
    pub fn column(&self) -> (c: usize)
        requires
            self.wf(),
        ensures
            c == clip(column_of(self.chars@, self.pos as int)),
    {
        self.column
    }

    /// The failure at the cursor with the message `msg`.
    pub fn error(&self, msg: &str) -> (e: ParseError)
        requires
            self.wf(),
        ensures
            e.is_at(self.chars@, self.pos as int, msg@),
    {
        ParseError::new(self.line, self.column, msg.to_owned())
    }

    /// The failure at the cursor with the message `msg`.
    pub fn error_with(&self, msg: String) -> (e: ParseError)
        requires
            self.wf(),
        ensures
            e.is_at(self.chars@, self.pos as int, msg@),
    {
        ParseError::new(self.line, self.column, msg)
    }

    /// The failure at the cursor with the message `msg`, as a result.
    pub fn err<T>(&self, msg: &str) -> (r: Result<T, ParseError>)
        requires
            self.wf(),
        ensures
            r matches Err(e) && e.is_at(self.chars@, self.pos as int, msg@),
    {
        Err(self.error(msg))
    }

    /// Moves the cursor over the spaces at it.
    pub fn skip_spaces(&mut self)
        requires
            old(self).wf(),
        ensures
            final(self).wf(),
            final(self).chars == old(self).chars,
            final(self).pos == after_spaces(old(self).chars@, old(self).pos as int),
            old(self).pos <= final(self).pos,
    {
        while self.pos < self.chars.len() && self.chars[self.pos] == ' '
            invariant
                self.wf(),
                self.chars == old(self).chars,
                old(self).pos <= self.pos,
                after_spaces(self.chars@, self.pos as int) == after_spaces(
                    old(self).chars@,
                    old(self).pos as int,
                ),
            decreases self.chars@.len() - self.pos,
        {
            self.advance(1);
        }
    }

    /// The number of spaces at the start of the line of the cursor.
    pub fn get_cur_indent(&self) -> (n: usize)
        requires
            self.wf(),
        ensures
            n == indent_of(self.chars@, self.pos as int),
    {
        proof {
            lemma_line_start(self.chars@, self.pos as int);
        }
        let mut idx: usize = self.line_start;
        while idx < self.chars.len() && self.chars[idx] == ' '
            invariant
                self.line_start <= idx <= self.chars@.len(),
                after_spaces(self.chars@, idx as int) == after_spaces(
                    self.chars@,
                    self.line_start as int,
                ),
            decreases self.chars@.len() - idx,
        {
            idx += 1;
        }
        idx - self.line_start
    }
}

} // verus!
