//! Positions in a text: lines, columns, indentation, and the outcome of a step
//! of the grammar.

use crate::text::utf8_len;
use vstd::prelude::*;

verus! {

/// What the grammar makes of a text from a position on: a value and the
/// position after it, or a failure at a position with a message.
pub enum Outcome<T> {
    Accept { value: T, next: int },
    Reject { at: int, message: Seq<char> },
}

/// The character at `pos`, if `pos` is inside the text.
pub open spec fn char_at(s: Seq<char>, pos: int) -> Option<char> {
    if 0 <= pos < s.len() {
        Some(s[pos])
    } else {
        None
    }
}

/// Whether the text holds `pat` at `pos`.
pub open spec fn has_prefix(s: Seq<char>, pos: int, pat: Seq<char>) -> bool {
    0 <= pos && pos + pat.len() <= s.len() && s.subrange(pos, pos + pat.len()) == pat
}

/// The position of the first character at or after `pos` that is no space;
/// the end of the text if there is none.
pub open spec fn after_spaces(s: Seq<char>, pos: int) -> int
    decreases s.len() - pos,
{
    if 0 <= pos < s.len() && s[pos] == ' ' {
        after_spaces(s, pos + 1)
    } else {
        pos
    }
}

/// The position of the first line feed at or after `pos`; the end of the text
/// if there is none.
pub open spec fn line_end(s: Seq<char>, pos: int) -> int
    decreases s.len() - pos,
{
    if 0 <= pos < s.len() && s[pos] != '\n' {
        line_end(s, pos + 1)
    } else {
        pos
    }
}

/// The position at which the line of `pos` starts.
pub open spec fn line_start(s: Seq<char>, pos: int) -> int
    decreases pos,
{
    if pos <= 0 {
        0
    } else if pos <= s.len() && s[pos - 1] == '\n' {
        pos
    } else {
        line_start(s, pos - 1)
    }
}

/// The number of the line of `pos`, from 1: one more than the line feeds
/// before `pos`.
pub open spec fn line_of(s: Seq<char>, pos: int) -> nat
    decreases pos,
{
    if pos <= 0 {
        1
    } else if pos <= s.len() && s[pos - 1] == '\n' {
        line_of(s, pos - 1) + 1
    } else {
        line_of(s, pos - 1)
    }
}

/// The column of `pos`, from 1: one more than the bytes that the characters
/// between the start of the line and `pos` take in UTF-8.
pub open spec fn column_of(s: Seq<char>, pos: int) -> nat
    decreases pos,
{
    if pos <= 0 {
        1
    } else if pos <= s.len() && s[pos - 1] == '\n' {
        1
    } else if pos <= s.len() {
        column_of(s, pos - 1) + utf8_len(s[pos - 1])
    } else {
        column_of(s, pos - 1)
    }
}

/// The number of spaces at the start of the line of `pos`.
pub open spec fn indent_of(s: Seq<char>, pos: int) -> int {
    after_spaces(s, line_start(s, pos)) - line_start(s, pos)
}

/// `n`, or the largest `usize` if `n` is larger.
pub open spec fn clip(n: nat) -> usize {
    if n > usize::MAX {
        usize::MAX
    } else {
        n as usize
    }
}

/// The run of spaces from `pos` ends inside the text, holds spaces alone, and
/// ends before a character that is none.
pub proof fn lemma_after_spaces(s: Seq<char>, pos: int)
    requires
        0 <= pos <= s.len(),
    ensures
        pos <= after_spaces(s, pos) <= s.len(),
        forall|i: int| pos <= i < after_spaces(s, pos) ==> s[i] == ' ',
        after_spaces(s, pos) < s.len() ==> s[after_spaces(s, pos)] != ' ',
    decreases s.len() - pos,
{
    if pos < s.len() && s[pos] == ' ' {
        lemma_after_spaces(s, pos + 1);
    }
}

/// The line from `pos` ends inside the text, holds no line feed, and ends at
/// one or at the end of the text.
pub proof fn lemma_line_end(s: Seq<char>, pos: int)
    requires
        0 <= pos <= s.len(),
    ensures
        pos <= line_end(s, pos) <= s.len(),
        forall|i: int| pos <= i < line_end(s, pos) ==> s[i] != '\n',
        line_end(s, pos) < s.len() ==> s[line_end(s, pos)] == '\n',
    decreases s.len() - pos,
{
    if pos < s.len() && s[pos] != '\n' {
        lemma_line_end(s, pos + 1);
    }
}

/// The line of `pos` starts at or before `pos`, and no line feed stands
/// between.
pub proof fn lemma_line_start(s: Seq<char>, pos: int)
    requires
        0 <= pos <= s.len(),
    ensures
        0 <= line_start(s, pos) <= pos,
        forall|i: int| line_start(s, pos) <= i < pos ==> s[i] != '\n',
    decreases pos,
{
    if pos > 0 && s[pos - 1] != '\n' {
        lemma_line_start(s, pos - 1);
    }
}

} // verus!
