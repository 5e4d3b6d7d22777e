//! Progress: every step of the grammar that succeeds ends inside the text and
//! not before the position at which it started, and a step that reads a value
//! ends after it. The repetitions of the grammar rest on this.

use crate::grammar::lexical::{
    blank_lines, comma, indicator, lemma_key_end, line_rest, single_space,
};
use crate::grammar::position::{
    after_spaces, char_at, has_prefix, lemma_after_spaces, lemma_line_end, line_end, Outcome,
};
use crate::grammar::scalars::{
    dedented, four_hex_digits, hex4_value, is_radix_char, key, multiline_body, multiline_string,
    number, number_end, radix_end, scalar, simple_escape, string_body,
};
use crate::grammar::structure::{
    block, block_follows, block_type, close_line, dict_entries, entry_value, inline_ends,
    inline_entry, inline_item, inline_items, item_value, list_items, separator,
    spaces_then_comma, vector, InlineModel,
};
use crate::text::{is_digit, is_sign};
use crate::value::ValueModel;
use vstd::prelude::*;

verus! {

/// Whether an outcome that accepts ends inside the text, at or after `pos`.
pub open spec fn stays<T>(o: Outcome<T>, pos: int, len: nat) -> bool {
    o matches Outcome::Accept { value, next } ==> pos <= next <= len
}

/// Whether an outcome that accepts ends inside the text, after `pos`.
pub open spec fn advances<T>(o: Outcome<T>, pos: int, len: nat) -> bool {
    o matches Outcome::Accept { value, next } ==> pos < next <= len
}

/// The rest of a line ends at or after its start, and after it unless the
/// text ends there.
pub proof fn lemma_line_rest_stays(s: Seq<char>, pos: int)
    requires
        0 <= pos <= s.len(),
    ensures
        stays(line_rest(s, pos), pos, s.len()),
        pos < s.len() ==> advances(line_rest(s, pos), pos, s.len()),
{
    lemma_after_spaces(s, pos);
    let q = after_spaces(s, pos);
    if q + 1 <= s.len() {
        lemma_line_end(s, q + 1);
    }
}

/// The rest of a line after a value ends at or after it.
pub proof fn lemma_close_line_stays<T>(s: Seq<char>, pos: int, value: T)
    requires
        0 <= pos <= s.len(),
    ensures
        stays(close_line(s, pos, value), pos, s.len()),
{
    lemma_line_rest_stays(s, pos);
}

/// Blank lines end at or after their start.
pub proof fn lemma_blank_lines_stays(s: Seq<char>, pos: int)
    requires
        0 <= pos <= s.len(),
    ensures
        stays(blank_lines(s, pos), pos, s.len()),
    decreases s.len() - pos,
{
    if pos < s.len() {
        lemma_after_spaces(s, pos);
        let q = after_spaces(s, pos);
        if q < s.len() {
            if s[q] == '\n' {
                if q == pos {
                    lemma_blank_lines_stays(s, pos + 1);
                }
            } else if s[q] == '#' {
                lemma_line_rest_stays(s, pos);
                if line_rest(s, pos) is Accept {
                    let next = line_rest(s, pos)->next;
                    if pos < next <= s.len() {
                        lemma_blank_lines_stays(s, next);
                    }
                }
            }
        }
    }
}

/// A comma and its space end after their start.
pub proof fn lemma_comma_advances(s: Seq<char>, pos: int)
    requires
        0 <= pos <= s.len(),
    ensures
        advances(comma(s, pos), pos, s.len()),
{
    lemma_after_spaces(s, pos);
}

/// The inside of a quoted string ends after its start.
pub proof fn lemma_string_body_advances(s: Seq<char>, pos: int, acc: Seq<char>)
    requires
        0 <= pos <= s.len(),
    ensures
        advances(string_body(s, pos, acc), pos, s.len()),
    decreases s.len() - pos,
{
    if pos < s.len() && s[pos] != '"' && s[pos] != '\n' {
        if s[pos] == '\\' {
            if pos + 1 < s.len() {
                match simple_escape(s[pos + 1]) {
                    Some(c) => {
                        lemma_string_body_advances(s, pos + 2, acc.push(c));
                    },
                    None => {
                        if s[pos + 1] == 'u' && four_hex_digits(
                            s,
                            pos + 2,
                        ) {
                            lemma_string_body_advances(
                                s,
                                pos + 6,
                                acc.push(hex4_value(s, pos + 2) as char),
                            );
                        }
                    },
                }
            }
        } else {
            lemma_string_body_advances(s, pos + 1, acc.push(s[pos]));
        }
    }
}

/// A key ends after its start.
pub proof fn lemma_key_advances(s: Seq<char>, pos: int)
    requires
        0 <= pos <= s.len(),
    ensures
        advances(key(s, pos), pos, s.len()),
{
    lemma_after_spaces(s, pos);
    let q = after_spaces(s, pos);
    if char_at(s, q) == Some('"') {
        lemma_string_body_advances(s, q + 1, Seq::empty());
    } else {
        lemma_key_end(s, q);
    }
}

/// The lines of a multiline string end after their start.
pub proof fn lemma_multiline_body_advances(
    s: Seq<char>,
    pos: int,
    key_indent: int,
    preserve: bool,
    delim: Seq<char>,
    acc: Seq<char>,
)
    requires
        0 <= pos <= s.len(),
        delim.len() == 3,
    ensures
        advances(multiline_body(s, pos, key_indent, preserve, delim, acc), pos, s.len()),
    decreases s.len() - pos,
{
    if pos < s.len() {
        lemma_after_spaces(s, pos);
        let q = after_spaces(s, pos);
        if has_prefix(s, q, delim) {
            lemma_line_rest_stays(s, q + 3);
        } else {
            lemma_line_end(s, pos);
            let e = line_end(s, pos);
            let next = if e < s.len() {
                e + 1
            } else {
                e
            };
            if pos < next <= s.len() {
                lemma_multiline_body_advances(
                    s,
                    next,
                    key_indent,
                    preserve,
                    delim,
                    acc + dedented(s.subrange(pos, e), key_indent, preserve) + seq!['\n'],
                );
            }
        }
    }
}

/// A multiline string ends after its start.
pub proof fn lemma_multiline_string_advances(
    s: Seq<char>,
    pos: int,
    key_indent: int,
    preserve: bool,
)
    requires
        0 <= pos <= s.len(),
    ensures
        advances(multiline_string(s, pos, key_indent, preserve), pos, s.len()),
{
    if pos + 3 <= s.len() {
        lemma_line_rest_stays(s, pos + 3);
    }
    if pos + 3 <= s.len() && line_rest(s, pos + 3) is Accept {
        let next = line_rest(s, pos + 3)->next;
        lemma_multiline_body_advances(
            s,
            next,
            key_indent,
            preserve,
            s.subrange(pos, pos + 3),
            Seq::empty(),
        );
    }
}

proof fn lemma_radix_end(s: Seq<char>, pos: int, base: int)
    requires
        0 <= pos <= s.len(),
    ensures
        pos <= radix_end(s, pos, base) <= s.len(),
    decreases s.len() - pos,
{
    if pos < s.len() && is_radix_char(s[pos], base) {
        lemma_radix_end(s, pos + 1, base);
    }
}

proof fn lemma_number_end(s: Seq<char>, pos: int)
    requires
        0 <= pos <= s.len(),
    ensures
        pos <= number_end(s, pos) <= s.len(),
    decreases s.len() - pos,
{
    if pos < s.len() {
        let c = s[pos];
        if is_digit(c) || c == '_' || c == '.' {
            lemma_number_end(s, pos + 1);
        } else if c == 'e' || c == 'E' {
            if pos + 1 < s.len() && is_sign(s[pos + 1]) {
                lemma_number_end(s, pos + 2);
            } else {
                lemma_number_end(s, pos + 1);
            }
        }
    }
}

/// A number ends after its start.
pub proof fn lemma_number_advances(s: Seq<char>, pos: int)
    requires
        0 <= pos <= s.len(),
    ensures
        advances(number(s, pos), pos, s.len()),
{
    reveal_strlit("0x");
    reveal_strlit("0o");
    reveal_strlit("0b");
    let p = if char_at(s, pos) == Some('+') || char_at(s, pos) == Some('-') {
        pos + 1
    } else {
        pos
    };
    if has_prefix(s, p, "0x"@) {
        lemma_radix_end(s, p + 2, 16);
    } else if has_prefix(s, p, "0o"@) {
        lemma_radix_end(s, p + 2, 8);
    } else if has_prefix(s, p, "0b"@) {
        lemma_radix_end(s, p + 2, 2);
    } else {
        lemma_number_end(s, p);
    }
}

/// A scalar ends after its start.
pub proof fn lemma_scalar_advances(s: Seq<char>, pos: int, key_indent: int)
    requires
        0 <= pos <= s.len(),
    ensures
        advances(scalar(s, pos, key_indent), pos, s.len()),
{
    reveal_strlit("[]");
    reveal_strlit("{}");
    reveal_strlit("\"\"\"");
    reveal_strlit("```");
    reveal_strlit("true");
    reveal_strlit("false");
    reveal_strlit("null");
    reveal_strlit("nan");
    reveal_strlit("inf");
    if pos < s.len() {
        if has_prefix(s, pos, "\"\"\""@) || has_prefix(s, pos, "```"@) {
            lemma_multiline_string_advances(s, pos, key_indent, true);
            lemma_multiline_string_advances(s, pos, key_indent, false);
        }
        lemma_string_body_advances(s, pos + 1, Seq::empty());
        lemma_number_advances(s, pos);
    }
}

/// An entry of an inline dict ends after its start.
pub proof fn lemma_inline_entry_advances(s: Seq<char>, pos: int, taken: Set<Seq<char>>)
    requires
        0 <= pos <= s.len(),
    ensures
        advances(inline_entry(s, pos, taken), pos, s.len()),
{
    lemma_key_advances(s, pos);
    if key(s, pos) is Accept {
        let end1 = key(s, pos)->next;
        if single_space(s, end1 + 1, "in inline dict"@) is Accept {
            let end2 = single_space(s, end1 + 1, "in inline dict"@)->next;
            lemma_scalar_advances(s, end2, 0);
        }
    }
}

/// The items of an inline collection end at or after their start.
pub proof fn lemma_inline_items_stays(s: Seq<char>, pos: int, first: bool, acc: InlineModel)
    requires
        0 <= pos <= s.len(),
    ensures
        stays(inline_items(s, pos, first, acc), pos, s.len()),
    decreases s.len() - pos,
{
    lemma_close_line_stays(s, pos, acc);
    if !inline_ends(s, pos) {
        lemma_comma_advances(s, pos);
        if separator(s, pos, first) is Accept {
            let end1 = separator(s, pos, first)->next;
            lemma_scalar_advances(s, end1, 0);
            match acc {
                InlineModel::Dict(entries) => {
                    lemma_inline_entry_advances(s, end1, entries.dom());
                },
                _ => {},
            }
            if inline_item(s, end1, acc) is Accept {
                let filled = inline_item(s, end1, acc)->value;
                let end2 = inline_item(s, end1, acc)->next;
                if pos < end2 <= s.len() {
                    lemma_close_line_stays(s, end2, filled);
                    lemma_after_spaces(s, end2);
                    if char_at(s, end2) == Some(' ') {
                        if spaces_then_comma(s, end2) && end2 <= after_spaces(s, end2) < s.len() {
                            lemma_inline_items_stays(s, after_spaces(s, end2), false, filled);
                        }
                    } else {
                        lemma_inline_items_stays(s, end2, false, filled);
                    }
                }
            }
        }
    }
}

/// The value of a dict entry ends after its start.
pub proof fn lemma_entry_value_advances(s: Seq<char>, pos: int, indent: int, double: bool)
    requires
        0 <= pos <= s.len(),
    ensures
        advances(entry_value(s, pos, indent, double), pos, s.len()),
    decreases s.len() - pos, 5nat,
{
    if !double {
        if single_space(s, pos, "after ':'"@) is Accept {
            let end1 = single_space(s, pos, "after ':'"@)->next;
            lemma_scalar_advances(s, end1, indent);
            if scalar(s, end1, indent) is Accept {
                let value = scalar(s, end1, indent)->value;
                let end2 = scalar(s, end1, indent)->next;
                lemma_close_line_stays(s, end2, value);
            }
        }
    } else {
        lemma_vector_advances(s, pos, indent + 2);
    }
}

/// The value of a list item ends after its start.
pub proof fn lemma_item_value_advances(s: Seq<char>, pos: int, indent: int)
    requires
        0 <= pos <= s.len(),
    ensures
        advances(item_value(s, pos, indent), pos, s.len()),
    decreases s.len() - pos, 5nat,
{
    reveal_strlit("::");
    if has_prefix(s, pos, "::"@) {
        lemma_vector_advances(s, pos + 2, indent + 2);
    } else {
        lemma_scalar_advances(s, pos, indent);
        if scalar(s, pos, indent) is Accept {
            let value = scalar(s, pos, indent)->value;
            let next = scalar(s, pos, indent)->next;
            lemma_close_line_stays(s, next, value);
        }
    }
}

/// The entries of a multiline dict end at or after their start.
pub proof fn lemma_dict_entries_stays(
    s: Seq<char>,
    pos: int,
    indent: int,
    acc: Map<Seq<char>, ValueModel>,
)
    requires
        0 <= pos <= s.len(),
    ensures
        stays(dict_entries(s, pos, indent, acc), pos, s.len()),
    decreases s.len() - pos, 2nat,
{
    lemma_blank_lines_stays(s, pos);
    if blank_lines(s, pos) is Accept {
        let p = blank_lines(s, pos)->next;
        lemma_key_advances(s, p);
        if key(s, p) is Accept {
            let k = key(s, p)->value;
            let end1 = key(s, p)->next;
            if indicator(s, end1) is Accept {
                let double = indicator(s, end1)->value;
                let end2 = indicator(s, end1)->next;
                if pos < end2 <= s.len() {
                    lemma_entry_value_advances(s, end2, indent, double);
                    if entry_value(s, end2, indent, double) is Accept {
                        let value = entry_value(s, end2, indent, double)->value;
                        let end3 = entry_value(s, end2, indent, double)->next;
                        if pos < end3 <= s.len() {
                            lemma_dict_entries_stays(s, end3, indent, acc.insert(k, value));
                        }
                    }
                }
            }
        }
    }
}

/// The items of a multiline list end at or after their start.
pub proof fn lemma_list_items_stays(s: Seq<char>, pos: int, indent: int, acc: Seq<ValueModel>)
    requires
        0 <= pos <= s.len(),
    ensures
        stays(list_items(s, pos, indent, acc), pos, s.len()),
    decreases s.len() - pos, 2nat,
{
    lemma_blank_lines_stays(s, pos);
    if blank_lines(s, pos) is Accept {
        let p = blank_lines(s, pos)->next;
        if p < s.len() {
            if single_space(s, p + 1, "after '-'"@) is Accept {
                let end1 = single_space(s, p + 1, "after '-'"@)->next;
                if pos < end1 <= s.len() {
                    lemma_item_value_advances(s, end1, indent);
                    if item_value(s, end1, indent) is Accept {
                        let value = item_value(s, end1, indent)->value;
                        let end2 = item_value(s, end1, indent)->next;
                        if pos < end2 <= s.len() {
                            lemma_list_items_stays(s, end2, indent, acc.push(value));
                        }
                    }
                }
            }
        }
    }
}

/// The block of a vector ends at or after its start.
pub proof fn lemma_block_stays(s: Seq<char>, pos: int, indent: int)
    requires
        0 <= pos <= s.len(),
    ensures
        stays(block(s, pos, indent), pos, s.len()),
        pos >= s.len() ==> block(s, pos, indent) is Reject,
    decreases s.len() - pos, 3nat,
{
    lemma_blank_lines_stays(s, pos);
    if block_type(s, pos, indent) is Accept {
        let p = block_type(s, pos, indent)->next;
        if pos <= p <= s.len() {
            lemma_list_items_stays(s, p, indent, Seq::empty());
            lemma_dict_entries_stays(s, p, indent, Map::empty());
        }
    }
}

/// The vector after `::` ends after its start.
pub proof fn lemma_vector_advances(s: Seq<char>, pos: int, indent: int)
    requires
        0 <= pos <= s.len(),
    ensures
        advances(vector(s, pos, indent), pos, s.len()),
    decreases s.len() - pos, 4nat,
{
    reveal_strlit("[]");
    reveal_strlit("{}");
    if block_follows(s, pos) {
        lemma_line_rest_stays(s, pos);
        if line_rest(s, pos) is Accept {
            let end1 = line_rest(s, pos)->next;
            if pos <= end1 <= s.len() {
                lemma_block_stays(s, end1, indent);
            }
        }
    } else {
        if single_space(s, pos, "after '::'"@) is Accept {
            let end1 = single_space(s, pos, "after '::'"@)->next;
            if has_prefix(s, end1, "[]"@) || has_prefix(s, end1, "{}"@) {
                lemma_close_line_stays(s, end1 + 2, ValueModel::List(Seq::empty()));
                lemma_close_line_stays(s, end1 + 2, ValueModel::Dict(Map::empty()));
            }
            lemma_inline_items_stays(s, end1, true, InlineModel::Dict(Map::empty()));
            lemma_inline_items_stays(s, end1, true, InlineModel::List(Seq::empty()));
        }
    }
}

} // verus!
