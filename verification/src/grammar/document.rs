//! The document layer: the version header, the root value, and the entry
//! points of the grammar.

use crate::grammar::lexical::{blank_lines, msg_trailing_spaces};
use crate::grammar::position::{
    after_spaces, char_at, has_prefix, indent_of, lemma_after_spaces, lemma_line_end, line_end,
    Outcome,
};
use crate::grammar::scalars::{key, scalar};
use crate::grammar::structure::{
    as_dict, as_list, close_line, dict_entries, inline_dict, inline_ends, inline_list, list_items,
    DataType,
};
use crate::text::trim_start_index;
use crate::value::{DocumentModel, ValueModel};
use vstd::prelude::*;

verus! {

/// The version that a header may name.
pub open spec fn supported_version() -> Seq<char> {
    "0.1.0"@
}

/// The position after the version token that starts at `pos`: it ends before a
/// space, a line feed or `#`.
pub open spec fn token_end(s: Seq<char>, pos: int) -> int
    decreases s.len() - pos,
{
    if 0 <= pos < s.len() && s[pos] != ' ' && s[pos] != '\n' && s[pos] != '#' {
        token_end(s, pos + 1)
    } else {
        pos
    }
}

/// The message for a version that is not the supported one.
pub open spec fn msg_unsupported_version(version: Seq<char>) -> Seq<char> {
    "unsupported version 'v"@ + version + "'. expected 'v0.1.0'"@
}

/// The version header at `pos`, if one is there: `%HUML`, and optionally one
/// space and a token that is `v` and the supported version. The value is the
/// version, which is the token without its `v`. A space with the end of the
/// line after it is a trailing space.
pub open spec fn version_header(s: Seq<char>, pos: int) -> Outcome<Option<Seq<char>>> {
    if !has_prefix(s, pos, "%HUML"@) {
        Outcome::Accept { value: None, next: pos }
    } else if char_at(s, pos + 5) != Some(' ') {
        close_line(s, pos + 5, None)
    } else {
        let start = pos + 6;
        let e = token_end(s, start);
        if e <= start {
            if char_at(s, e) is None || char_at(s, e) == Some('\n') {
                Outcome::Reject { at: e, message: msg_trailing_spaces() }
            } else {
                close_line(s, e, None)
            }
        } else if s[start] != 'v' {
            Outcome::Reject { at: e, message: "invalid version token"@ }
        } else {
            let version = s.subrange(start + 1, e);
            if version != supported_version() {
                Outcome::Reject { at: e, message: msg_unsupported_version(version) }
            } else {
                close_line(s, e, Some(version))
            }
        }
    }
}

/// Whether a key and then `:` stand at `pos`.
pub open spec fn has_key_value(s: Seq<char>, pos: int) -> bool {
    key(s, pos) matches Outcome::Accept { value, next } && char_at(s, next) == Some(':')
}

/// Whether, on the line from `pos` on and before any comment, a `,` comes
/// before any `:`.
pub open spec fn comma_before_colon(s: Seq<char>, pos: int) -> bool
    decreases s.len() - pos,
{
    if inline_ends(s, pos) || s[pos] == ':' {
        false
    } else if s[pos] == ',' {
        true
    } else {
        comma_before_colon(s, pos + 1)
    }
}

/// A mark on a line that tells an inline dict from a multiline one.
pub enum Mark {
    /// `:` with no `:` after it.
    Colon,
    /// `:` with `:` after it.
    DoubleColon,
    /// `,`.
    Comma,
}

/// Whether the mark stands at `pos`.
pub open spec fn mark_at(s: Seq<char>, pos: int, mark: Mark) -> bool {
    match mark {
        Mark::Colon => s[pos] == ':' && char_at(s, pos + 1) != Some(':'),
        Mark::DoubleColon => s[pos] == ':' && char_at(s, pos + 1) == Some(':'),
        Mark::Comma => s[pos] == ',',
    }
}

/// Whether the mark stands on the line from `pos` on, before any comment.
pub open spec fn line_has(s: Seq<char>, pos: int, mark: Mark) -> bool
    decreases s.len() - pos,
{
    if inline_ends(s, pos) {
        false
    } else {
        mark_at(s, pos, mark) || line_has(s, pos + 1, mark)
    }
}

/// The position of the first line feed or `#` at or after `pos`.
pub open spec fn marks_end(s: Seq<char>, pos: int) -> int
    decreases s.len() - pos,
{
    if inline_ends(s, pos) {
        pos
    } else {
        marks_end(s, pos + 1)
    }
}

/// Whether only blank lines and comments stand from `pos` to the end.
pub open spec fn only_blank(s: Seq<char>, pos: int) -> bool
    decreases s.len() - pos,
{
    if pos < 0 || pos >= s.len() {
        true
    } else {
        let q = after_spaces(s, pos);
        proof {
            lemma_after_spaces(s, pos);
        }
        if q >= s.len() {
            true
        } else if s[q] == '\n' {
            only_blank(s, q + 1)
        } else if s[q] == '#' {
            let e = line_end(s, q);
            proof {
                lemma_line_end(s, q);
            }
            if e >= s.len() {
                true
            } else {
                only_blank(s, e + 1)
            }
        } else {
            false
        }
    }
}

/// Whether the root that starts with a key at `pos` is an inline dict: its
/// line holds a single `:` and a `,` and no `::`, and nothing but blank lines
/// and comments follows it.
pub open spec fn inline_dict_at_root(s: Seq<char>, pos: int) -> bool {
    &&& line_has(s, pos, Mark::Colon)
    &&& line_has(s, pos, Mark::Comma)
    &&& !line_has(s, pos, Mark::DoubleColon)
    &&& only_blank(s, marks_end(s, pos))
}

/// The form of the root value at `pos`.
pub open spec fn root_type(s: Seq<char>, pos: int) -> DataType {
    if has_key_value(s, pos) {
        if inline_dict_at_root(s, pos) {
            DataType::InlineDict
        } else {
            DataType::MultilineDict
        }
    } else if has_prefix(s, pos, "[]"@) {
        DataType::EmptyList
    } else if has_prefix(s, pos, "{}"@) {
        DataType::EmptyDict
    } else if char_at(s, pos) == Some('-') {
        DataType::MultilineList
    } else if comma_before_colon(s, pos) {
        DataType::InlineList
    } else {
        DataType::Scalar
    }
}

/// The root value at `pos`: a dict, a list, or a scalar or inline collection on
/// one line. It is not indented, and no bare `:` or `::` stands at its start.
/// `allow_version` says whether a version header was allowed before it.
pub open spec fn root_value(s: Seq<char>, pos: int, allow_version: bool) -> Outcome<ValueModel> {
    if !allow_version && has_prefix(s, pos, "%HUML"@) {
        Outcome::Reject { at: pos, message: "version directive not allowed in this context"@ }
    } else if indent_of(s, pos) != 0 {
        Outcome::Reject { at: pos, message: "root element must not be indented"@ }
    } else if has_prefix(s, pos, "::"@) {
        Outcome::Reject { at: pos, message: "'::' indicator not allowed at document root"@ }
    } else if has_prefix(s, pos, ":"@) && !has_key_value(s, pos) {
        Outcome::Reject { at: pos, message: "':' indicator not allowed at document root"@ }
    } else {
        match root_type(s, pos) {
            DataType::InlineDict => inline_dict(s, pos),
            DataType::MultilineDict => as_dict(dict_entries(s, pos, 0, Map::empty())),
            DataType::EmptyList => close_line(s, pos + 2, ValueModel::List(Seq::empty())),
            DataType::EmptyDict => close_line(s, pos + 2, ValueModel::Dict(Map::empty())),
            DataType::MultilineList => as_list(list_items(s, pos, 0, Seq::empty())),
            DataType::InlineList => inline_list(s, pos),
            DataType::Scalar => match scalar(s, pos, 0) {
                Outcome::Accept { value, next } => close_line(s, next, value),
                Outcome::Reject { at, message } => Outcome::Reject { at, message },
            },
        }
    }
}

/// What must follow a root value that ends at `pos`: blank lines and comments
/// to the end of the text.
pub open spec fn end_of_document<T>(s: Seq<char>, pos: int, value: T) -> Outcome<T> {
    match blank_lines(s, pos) {
        Outcome::Reject { at, message } => Outcome::Reject { at, message },
        Outcome::Accept { value: _, next } => if next < s.len() {
            Outcome::Reject { at: next, message: "unexpected content after document root"@ }
        } else {
            Outcome::Accept { value, next }
        },
    }
}

/// A root value with blank lines and comments around it, and nothing else.
pub open spec fn document_root(s: Seq<char>) -> Outcome<ValueModel> {
    match blank_lines(s, 0) {
        Outcome::Reject { at, message } => Outcome::Reject { at, message },
        Outcome::Accept { value: _, next: p } => match root_value(s, p, false) {
            Outcome::Reject { at, message } => Outcome::Reject { at, message },
            Outcome::Accept { value, next } => end_of_document(s, next, value),
        },
    }
}

/// A document: an optional version header, the root value, and nothing after
/// it but blank lines and comments. A text without a root value is refused.
pub open spec fn document(s: Seq<char>) -> Outcome<DocumentModel> {
    if s.len() == 0 {
        Outcome::Reject { at: 0, message: "empty document is undefined"@ }
    } else {
        match version_header(s, 0) {
            Outcome::Reject { at, message } => Outcome::Reject { at, message },
            Outcome::Accept { value: version, next: end1 } => match blank_lines(s, end1) {
                Outcome::Reject { at, message } => Outcome::Reject { at, message },
                Outcome::Accept { value: _, next: end2 } => if end2 >= s.len() {
                    Outcome::Reject { at: end2, message: "empty document is undefined"@ }
                } else {
                    match root_value(s, end2, true) {
                        Outcome::Reject { at, message } => Outcome::Reject { at, message },
                        Outcome::Accept { value: root, next } => end_of_document(
                            s,
                            next,
                            DocumentModel { version, root },
                        ),
                    }
                },
            },
        }
    }
}

/// The shorthand `pat` for an empty collection, after optional white space.
pub open spec fn shorthand<T>(s: Seq<char>, pat: Seq<char>, value: T, message: Seq<char>)
    -> Outcome<T> {
    let p = trim_start_index(s, 0);
    if has_prefix(s, p, pat) {
        Outcome::Accept { value, next: p + pat.len() }
    } else {
        Outcome::Reject { at: 0, message }
    }
}

/// The shorthand `[]`.
pub open spec fn empty_list(s: Seq<char>) -> Outcome<ValueModel> {
    shorthand(s, "[]"@, ValueModel::List(Seq::empty()), "expected []"@)
}

/// The shorthand `{}`.
pub open spec fn empty_dict(s: Seq<char>) -> Outcome<ValueModel> {
    shorthand(s, "{}"@, ValueModel::Dict(Map::empty()), "expected {}"@)
}

} // verus!
