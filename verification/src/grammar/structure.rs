//! The structural layer: inline lists and dicts on one line, multiline lists
//! and dicts delimited by indentation, and the vector after `::`.

use crate::grammar::lexical::{blank_lines, comma, indicator, key_starts, line_rest, single_space};
use crate::grammar::position::{after_spaces, char_at, has_prefix, indent_of, Outcome};
use crate::grammar::scalars::{key, scalar};
use crate::text::decimal;
use crate::value::ValueModel;
use vstd::prelude::*;

verus! {

/// The form of a value: a scalar, or a list or a dict in one of its three
/// spellings.
#[derive(Clone, Copy, Debug, PartialEq, Eq)]
pub enum DataType {
    Scalar,
    EmptyDict,
    InlineDict,
    MultilineDict,
    EmptyList,
    InlineList,
    MultilineList,
}

impl View for DataType {
    type V = DataType;

    open spec fn view(&self) -> DataType {
        *self
    }
}

/// The outcome of a repetition one of whose steps has consumed no character.
/// It keeps the repetitions below well-founded. No step does so: a step that
/// succeeds ends after the position at which it started, which the lemmas of
/// `progress` prove.
pub open spec fn stuck<T>(at: int) -> Outcome<T> {
    Outcome::Reject { at, message: "no progress"@ }
}

/// The message for a key that the dict holds already.
pub open spec fn msg_duplicate_key(k: Seq<char>) -> Seq<char> {
    "duplicate key '"@ + k + "' in dict"@
}

/// The message for an entry or an item at another indentation than expected.
pub open spec fn msg_bad_indent(found: int, expected: int) -> Seq<char> {
    "bad indent "@ + decimal(found as nat) + ", expected "@ + decimal(expected as nat)
}

/// The message for a block at another indentation than expected.
pub open spec fn msg_bad_vector_indent(found: int, expected: int) -> Seq<char> {
    "bad indent "@ + decimal(found as nat) + " for vector, expected "@ + decimal(expected as nat)
}

/// The message for `::` with nothing under it.
pub open spec fn msg_ambiguous_vector() -> Seq<char> {
    "ambiguous empty vector after '::'. Use [] or {}."@
}

/// The list of the items that were accepted.
pub open spec fn as_list(o: Outcome<Seq<ValueModel>>) -> Outcome<ValueModel> {
    match o {
        Outcome::Accept { value, next } => Outcome::Accept { value: ValueModel::List(value), next },
        Outcome::Reject { at, message } => Outcome::Reject { at, message },
    }
}

/// The dict of the entries that were accepted.
pub open spec fn as_dict(o: Outcome<Map<Seq<char>, ValueModel>>) -> Outcome<ValueModel> {
    match o {
        Outcome::Accept { value, next } => Outcome::Accept { value: ValueModel::Dict(value), next },
        Outcome::Reject { at, message } => Outcome::Reject { at, message },
    }
}

/// Whether an inline collection ends at `pos`: at the end of the text, at a
/// line feed or at a comment.
pub open spec fn inline_ends(s: Seq<char>, pos: int) -> bool {
    pos < 0 || pos >= s.len() || s[pos] == '\n' || s[pos] == '#'
}

/// The rest of the line after an inline collection with the value `value`.
pub open spec fn close_line<T>(s: Seq<char>, pos: int, value: T) -> Outcome<T> {
    match line_rest(s, pos) {
        Outcome::Accept { value: _, next } => Outcome::Accept { value, next },
        Outcome::Reject { at, message } => Outcome::Reject { at, message },
    }
}

/// The separator before an item of an inline collection: nothing before the
/// first, a comma and a space before each other.
pub open spec fn separator(s: Seq<char>, pos: int, first: bool) -> Outcome<()> {
    if first {
        Outcome::Accept { value: (), next: pos }
    } else {
        comma(s, pos)
    }
}

/// Whether, after an item that ends at `pos`, spaces and then a comma follow.
/// (The comma is then refused, for the spaces before it.)
pub open spec fn spaces_then_comma(s: Seq<char>, pos: int) -> bool {
    char_at(s, pos) == Some(' ') && char_at(s, after_spaces(s, pos)) == Some(',')
}

/// One entry of an inline dict at `pos`, where the keys `taken` are in use: a
/// key that is not in use, `:`, one space and a scalar.
pub open spec fn inline_entry(s: Seq<char>, pos: int, taken: Set<Seq<char>>) -> Outcome<
    (Seq<char>, ValueModel),
> {
    match key(s, pos) {
        Outcome::Reject { at, message } => Outcome::Reject { at, message },
        Outcome::Accept { value: k, next: end1 } => {
            if taken.contains(k) {
                Outcome::Reject { at: end1, message: msg_duplicate_key(k) }
            } else if char_at(s, end1) != Some(':') {
                Outcome::Reject { at: end1, message: "expected ':' in inline dict"@ }
            } else {
                match single_space(s, end1 + 1, "in inline dict"@) {
                    Outcome::Reject { at, message } => Outcome::Reject { at, message },
                    Outcome::Accept { value: _, next: end2 } => match scalar(s, end2, 0) {
                        Outcome::Reject { at, message } => Outcome::Reject { at, message },
                        Outcome::Accept { value, next } => Outcome::Accept {
                            value: (k, value),
                            next,
                        },
                    },
                }
            }
        },
    }
}

/// The collection that an inline vector fills: the items of a list, or the
/// entries of a dict.
pub enum InlineModel {
    List(Seq<ValueModel>),
    Dict(Map<Seq<char>, ValueModel>),
}

impl InlineModel {
    /// The collection as a value.
    pub open spec fn value(self) -> ValueModel {
        match self {
            InlineModel::List(items) => ValueModel::List(items),
            InlineModel::Dict(entries) => ValueModel::Dict(entries),
        }
    }
}

/// One item of an inline collection at `pos`, added to what the collection
/// holds: a scalar for a list, an entry with a new key for a dict.
pub open spec fn inline_item(s: Seq<char>, pos: int, acc: InlineModel) -> Outcome<InlineModel> {
    match acc {
        InlineModel::List(items) => match scalar(s, pos, 0) {
            Outcome::Reject { at, message } => Outcome::Reject { at, message },
            Outcome::Accept { value, next } => Outcome::Accept {
                value: InlineModel::List(items.push(value)),
                next,
            },
        },
        InlineModel::Dict(entries) => match inline_entry(s, pos, entries.dom()) {
            Outcome::Reject { at, message } => Outcome::Reject { at, message },
            Outcome::Accept { value, next } => Outcome::Accept {
                value: InlineModel::Dict(entries.insert(value.0, value.1)),
                next,
            },
        },
    }
}

/// The items of an inline collection from `pos` on, added to `acc`: items
/// separated by a comma and one space, up to the end of the line.
pub open spec fn inline_items(s: Seq<char>, pos: int, first: bool, acc: InlineModel) -> Outcome<
    InlineModel,
>
    decreases s.len() - pos,
{
    if inline_ends(s, pos) {
        close_line(s, pos, acc)
    } else {
        match separator(s, pos, first) {
            Outcome::Reject { at, message } => Outcome::Reject { at, message },
            Outcome::Accept { value: _, next: end1 } => match inline_item(s, end1, acc) {
                Outcome::Reject { at, message } => Outcome::Reject { at, message },
                Outcome::Accept { value: filled, next: end2 } => {
                    if !(pos < end2 <= s.len()) {
                        stuck(end2)
                    } else if char_at(s, end2) == Some(' ') {
                        if spaces_then_comma(s, end2) && end2 <= after_spaces(s, end2) < s.len() {
                            inline_items(s, after_spaces(s, end2), false, filled)
                        } else {
                            close_line(s, end2, filled)
                        }
                    } else {
                        inline_items(s, end2, false, filled)
                    }
                },
            },
        }
    }
}

/// An inline collection at `pos`, which starts out as `acc`.
pub open spec fn inline_vector(s: Seq<char>, pos: int, acc: InlineModel) -> Outcome<ValueModel> {
    match inline_items(s, pos, true, acc) {
        Outcome::Accept { value, next } => Outcome::Accept { value: value.value(), next },
        Outcome::Reject { at, message } => Outcome::Reject { at, message },
    }
}

/// An inline list at `pos`.
pub open spec fn inline_list(s: Seq<char>, pos: int) -> Outcome<ValueModel> {
    inline_vector(s, pos, InlineModel::List(Seq::empty()))
}

/// An inline dict at `pos`.
pub open spec fn inline_dict(s: Seq<char>, pos: int) -> Outcome<ValueModel> {
    inline_vector(s, pos, InlineModel::Dict(Map::empty()))
}

/// Whether a `:` that no `:` follows, and that is not the last character of the
/// text, stands on the line from `pos` on, before any comment.
pub open spec fn has_single_colon(s: Seq<char>, pos: int) -> bool
    decreases s.len() - pos,
{
    if inline_ends(s, pos) {
        false
    } else if s[pos] == ':' && pos + 1 < s.len() && s[pos + 1] != ':' {
        true
    } else {
        has_single_colon(s, pos + 1)
    }
}

/// The value of a dict entry after its key and indicator: after `:`, one space
/// and a scalar, with the rest of the line unless the scalar is a multiline
/// string; after `::`, a vector one level deeper.
pub open spec fn entry_value(s: Seq<char>, pos: int, indent: int, double: bool) -> Outcome<
    ValueModel,
>
    decreases s.len() - pos, 5nat,
{
    if !double {
        match single_space(s, pos, "after ':'"@) {
            Outcome::Reject { at, message } => Outcome::Reject { at, message },
            Outcome::Accept { value: _, next: end1 } => {
                let multiline = has_prefix(s, end1, "```"@) || has_prefix(s, end1, "\"\"\""@);
                match scalar(s, end1, indent) {
                    Outcome::Reject { at, message } => Outcome::Reject { at, message },
                    Outcome::Accept { value, next: end2 } => if multiline {
                        Outcome::Accept { value, next: end2 }
                    } else {
                        close_line(s, end2, value)
                    },
                }
            },
        }
    } else {
        vector(s, pos, indent + 2)
    }
}

/// The entries of a multiline dict at the indentation `indent` from `pos` on,
/// after the entries `acc`. Each entry stands on a line of its own at exactly
/// `indent` spaces; the dict ends at the end of the text or before the first
/// line with less indentation; a line with more is refused.
pub open spec fn dict_entries(
    s: Seq<char>,
    pos: int,
    indent: int,
    acc: Map<Seq<char>, ValueModel>,
) -> Outcome<Map<Seq<char>, ValueModel>>
    decreases s.len() - pos, 2nat,
{
    match blank_lines(s, pos) {
        Outcome::Reject { at, message } => Outcome::Reject { at, message },
        Outcome::Accept { value: _, next: p } => {
            if p >= s.len() || indent_of(s, p) < indent {
                Outcome::Accept { value: acc, next: p }
            } else if indent_of(s, p) != indent {
                Outcome::Reject { at: p, message: msg_bad_indent(indent_of(s, p), indent) }
            } else if !key_starts(s, p) {
                Outcome::Reject { at: p, message: "expected key"@ }
            } else {
                match key(s, p) {
                    Outcome::Reject { at, message } => Outcome::Reject { at, message },
                    Outcome::Accept { value: k, next: end1 } => {
                        if acc.contains_key(k) {
                            Outcome::Reject { at: end1, message: msg_duplicate_key(k) }
                        } else {
                            match indicator(s, end1) {
                                Outcome::Reject { at, message } => Outcome::Reject { at, message },
                                Outcome::Accept { value: double, next: end2 } => {
                                    if !(pos < end2 <= s.len()) {
                                        stuck(end2)
                                    } else {
                                        match entry_value(s, end2, indent, double) {
                                            Outcome::Reject { at, message } => Outcome::Reject {
                                                at,
                                                message,
                                            },
                                            Outcome::Accept { value, next: end3 } => {
                                                if !(pos < end3 <= s.len()) {
                                                    stuck(end3)
                                                } else {
                                                    dict_entries(
                                                        s,
                                                        end3,
                                                        indent,
                                                        acc.insert(k, value),
                                                    )
                                                }
                                            },
                                        }
                                    }
                                },
                            }
                        }
                    },
                }
            }
        },
    }
}

/// The value of a list item after `-` and its space: a vector one level deeper
/// after `::`, else a scalar and the rest of the line.
pub open spec fn item_value(s: Seq<char>, pos: int, indent: int) -> Outcome<ValueModel>
    decreases s.len() - pos, 5nat,
{
    if has_prefix(s, pos, "::"@) {
        proof {
            reveal_strlit("::");
        }
        vector(s, pos + 2, indent + 2)
    } else {
        match scalar(s, pos, indent) {
            Outcome::Reject { at, message } => Outcome::Reject { at, message },
            Outcome::Accept { value, next } => close_line(s, next, value),
        }
    }
}

/// The items of a multiline list at the indentation `indent` from `pos` on,
/// after the items `acc`. Each item is `-`, one space and its value, at exactly
/// `indent` spaces; the list ends at the end of the text, before the first line
/// with less indentation, or before a line that does not start with `-`.
pub open spec fn list_items(s: Seq<char>, pos: int, indent: int, acc: Seq<ValueModel>) -> Outcome<
    Seq<ValueModel>,
>
    decreases s.len() - pos, 2nat,
{
    match blank_lines(s, pos) {
        Outcome::Reject { at, message } => Outcome::Reject { at, message },
        Outcome::Accept { value: _, next: p } => {
            if p >= s.len() || indent_of(s, p) < indent {
                Outcome::Accept { value: acc, next: p }
            } else if indent_of(s, p) != indent {
                Outcome::Reject { at: p, message: msg_bad_indent(indent_of(s, p), indent) }
            } else if s[p] != '-' {
                Outcome::Accept { value: acc, next: p }
            } else {
                match single_space(s, p + 1, "after '-'"@) {
                    Outcome::Reject { at, message } => Outcome::Reject { at, message },
                    Outcome::Accept { value: _, next: end1 } => {
                        if !(pos < end1 <= s.len()) {
                            stuck(end1)
                        } else {
                            match item_value(s, end1, indent) {
                                Outcome::Reject { at, message } => Outcome::Reject { at, message },
                                Outcome::Accept { value, next: end2 } => {
                                    if !(pos < end2 <= s.len()) {
                                        stuck(end2)
                                    } else {
                                        list_items(s, end2, indent, acc.push(value))
                                    }
                                },
                            }
                        }
                    },
                }
            }
        },
    }
}

/// Whether the vector after `::` at `pos` is a block on the following lines:
/// the rest of the line is blank or a comment.
pub open spec fn block_follows(s: Seq<char>, pos: int) -> bool {
    inline_ends(s, after_spaces(s, pos))
}

/// The kind of the block of a vector that starts after `pos`, at the
/// indentation `indent` or deeper: a list if its first line starts with `-`,
/// else a dict. A block must follow; `::` with nothing under it is refused.
pub open spec fn block_type(s: Seq<char>, pos: int, indent: int) -> Outcome<DataType> {
    match blank_lines(s, pos) {
        Outcome::Reject { at, message } => Outcome::Reject { at, message },
        Outcome::Accept { value: _, next: p } => {
            if p >= s.len() || indent_of(s, p) < indent {
                Outcome::Reject { at: p, message: msg_ambiguous_vector() }
            } else if s[p] == '-' {
                Outcome::Accept { value: DataType::MultilineList, next: p }
            } else {
                Outcome::Accept { value: DataType::MultilineDict, next: p }
            }
        },
    }
}

/// The block of a vector after the line of its `::`, at exactly the
/// indentation `indent`.
pub open spec fn block(s: Seq<char>, pos: int, indent: int) -> Outcome<ValueModel>
    decreases s.len() - pos, 3nat,
{
    match block_type(s, pos, indent) {
        Outcome::Reject { at, message } => Outcome::Reject { at, message },
        Outcome::Accept { value: kind, next: p } => {
            if indent_of(s, p) != indent {
                Outcome::Reject { at: p, message: msg_bad_vector_indent(indent_of(s, p), indent) }
            } else if !(pos <= p <= s.len()) {
                stuck(p)
            } else if kind == DataType::MultilineList {
                as_list(list_items(s, p, indent, Seq::empty()))
            } else {
                as_dict(dict_entries(s, p, indent, Map::empty()))
            }
        },
    }
}

/// The number of levels below the root at which a block may stand. A block
/// nested deeper is refused, so that the depth of the recursion over blocks is
/// bounded whatever the text.
pub const MAX_NESTING: usize = 128;

/// The message for a block that is nested too deep.
pub open spec fn msg_too_deep() -> Seq<char> {
    "nesting deeper than "@ + decimal(MAX_NESTING as nat) + " levels"@
}

/// The vector after `::` at `pos`, whose block stands at the indentation
/// `indent`. Where content follows on the line, after exactly one space, the
/// vector is inline: `[]`, `{}`, a dict if a single `:` stands on the line,
/// else a list. Where none follows, it is the block on the lines below, which
/// stands at most `MAX_NESTING` levels deep.
pub open spec fn vector(s: Seq<char>, pos: int, indent: int) -> Outcome<ValueModel>
    decreases s.len() - pos, 4nat,
{
    if block_follows(s, pos) && indent > 2 * MAX_NESTING {
        Outcome::Reject { at: pos, message: msg_too_deep() }
    } else if block_follows(s, pos) {
        match line_rest(s, pos) {
            Outcome::Reject { at, message } => Outcome::Reject { at, message },
            Outcome::Accept { value: _, next: end1 } => {
                if !(pos <= end1 <= s.len()) {
                    stuck(end1)
                } else {
                    block(s, end1, indent)
                }
            },
        }
    } else {
        match single_space(s, pos, "after '::'"@) {
            Outcome::Reject { at, message } => Outcome::Reject { at, message },
            Outcome::Accept { value: _, next: end1 } => {
                if has_prefix(s, end1, "[]"@) {
                    close_line(s, end1 + 2, ValueModel::List(Seq::empty()))
                } else if has_prefix(s, end1, "{}"@) {
                    close_line(s, end1 + 2, ValueModel::Dict(Map::empty()))
                } else if has_single_colon(s, end1) {
                    inline_dict(s, end1)
                } else {
                    inline_list(s, end1)
                }
            },
        }
    }
}

} // verus!
