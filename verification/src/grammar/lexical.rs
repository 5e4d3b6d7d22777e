//! The lexical layer: the end of a line, blank lines and comments, the single
//! space after a separator, keys and indicators.

use crate::grammar::position::{after_spaces, char_at, indent_of, line_end, line_start, Outcome};
use crate::text::{is_alpha, is_key_char};
use vstd::prelude::*;

verus! {

/// The message for spaces before the end of a line.
pub open spec fn msg_trailing_spaces() -> Seq<char> {
    "trailing spaces are not allowed"@
}

/// The rest of a line after its content: nothing, or a comment. A comment is
/// `#` alone, or `#`, a space, and text up to the end of the line; where it
/// follows content on the line, spaces stand before it. A space just before
/// the end of the line is refused, the one after `#` too. The outcome is the
/// position after the line feed.
pub open spec fn line_rest(s: Seq<char>, pos: int) -> Outcome<()> {
    let q = after_spaces(s, pos);
    if q >= s.len() || s[q] == '\n' {
        if q > pos {
            Outcome::Reject { at: q, message: msg_trailing_spaces() }
        } else if q < s.len() {
            Outcome::Accept { value: (), next: q + 1 }
        } else {
            Outcome::Accept { value: (), next: q }
        }
    } else if s[q] == '#' {
        if q == pos && indent_of(s, q) != q - line_start(s, q) {
            Outcome::Reject {
                at: q,
                message: "a value must be separated from an inline comment by a space"@,
            }
        } else if q + 1 < s.len() && s[q + 1] != ' ' && s[q + 1] != '\n' {
            Outcome::Reject { at: q + 1, message: "comment hash '#' must be followed by a space"@ }
        } else {
            let e = line_end(s, q + 1);
            if s[e - 1] == ' ' && e - 1 > q {
                Outcome::Reject { at: e, message: msg_trailing_spaces() }
            } else if e < s.len() {
                Outcome::Accept { value: (), next: e + 1 }
            } else {
                Outcome::Accept { value: (), next: e }
            }
        }
    } else {
        Outcome::Reject { at: q, message: "unexpected content at end of line"@ }
    }
}

/// Blank lines and comment lines, skipped. The outcome is the position of the
/// first character of content (after the spaces before it on its line), or the
/// end of the text.
pub open spec fn blank_lines(s: Seq<char>, pos: int) -> Outcome<()>
    decreases s.len() - pos,
{
    if pos >= s.len() || pos < 0 {
        Outcome::Accept { value: (), next: pos }
    } else {
        let q = after_spaces(s, pos);
        if q >= s.len() {
            Outcome::Reject { at: q, message: msg_trailing_spaces() }
        } else if s[q] == '\n' {
            if q != pos {
                Outcome::Reject { at: q, message: msg_trailing_spaces() }
            } else {
                blank_lines(s, pos + 1)
            }
        } else if s[q] == '#' {
            match line_rest(s, pos) {
                Outcome::Accept { value, next } => if pos < next <= s.len() {
                    blank_lines(s, next)
                } else {
                    Outcome::Accept { value: (), next }
                },
                Outcome::Reject { at, message } => Outcome::Reject { at, message },
            }
        } else {
            Outcome::Accept { value: (), next: q }
        }
    }
}

/// Exactly one space. `context` says where, for the message.
pub open spec fn single_space(s: Seq<char>, pos: int, context: Seq<char>) -> Outcome<()> {
    if char_at(s, pos) != Some(' ') {
        Outcome::Reject { at: pos, message: "expected single space "@ + context }
    } else if char_at(s, pos + 1) == Some(' ') {
        Outcome::Reject {
            at: pos + 1,
            message: "expected single space "@ + context + ", found multiple"@,
        }
    } else {
        Outcome::Accept { value: (), next: pos + 1 }
    }
}

/// A comma with no space before it and exactly one after it.
pub open spec fn comma(s: Seq<char>, pos: int) -> Outcome<()> {
    let q = after_spaces(s, pos);
    if char_at(s, q) != Some(',') {
        Outcome::Reject { at: q, message: "expected a comma in inline collection"@ }
    } else if q > 0 && s[q - 1] == ' ' {
        Outcome::Reject { at: q, message: "no spaces allowed before comma"@ }
    } else {
        single_space(s, q + 1, "after comma"@)
    }
}

/// The position after the run of key characters that starts at `pos`.
pub open spec fn key_end(s: Seq<char>, pos: int) -> int
    decreases s.len() - pos,
{
    if 0 <= pos < s.len() && is_key_char(s[pos]) {
        key_end(s, pos + 1)
    } else {
        pos
    }
}

/// The run of key characters from `pos` ends inside the text, holds key
/// characters alone, and ends before a character that is none.
pub proof fn lemma_key_end(s: Seq<char>, pos: int)
    requires
        0 <= pos <= s.len(),
    ensures
        pos <= key_end(s, pos) <= s.len(),
        forall|i: int| pos <= i < key_end(s, pos) ==> is_key_char(s[i]),
        key_end(s, pos) < s.len() ==> !is_key_char(s[key_end(s, pos)]),
    decreases s.len() - pos,
{
    if pos < s.len() && is_key_char(s[pos]) {
        lemma_key_end(s, pos + 1);
    }
}

/// The indicator after a key: `:` gives `false`, `::` gives `true`.
pub open spec fn indicator(s: Seq<char>, pos: int) -> Outcome<bool> {
    if char_at(s, pos) != Some(':') {
        Outcome::Reject { at: pos, message: "expected ':' or '::' after key"@ }
    } else if char_at(s, pos + 1) == Some(':') {
        Outcome::Accept { value: true, next: pos + 2 }
    } else {
        Outcome::Accept { value: false, next: pos + 1 }
    }
}

/// Whether a key can start at `pos`: with `"` or an ASCII letter.
pub open spec fn key_starts(s: Seq<char>, pos: int) -> bool {
    0 <= pos < s.len() && (s[pos] == '"' || is_alpha(s[pos]))
}

} // verus!
