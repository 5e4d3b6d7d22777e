//! Laws of the grammar, proved of the functions that define it.

use crate::grammar::document::{document, document_root, end_of_document};
use crate::grammar::lexical::{blank_lines, key_starts, line_rest, single_space};
use crate::grammar::position::{has_prefix, indent_of, Outcome};
use crate::grammar::progress::lemma_line_rest_stays;
use crate::grammar::scalars::{
    dedented, finite_float_literal, key, number, starts_with_spaces,
};
use crate::grammar::structure::{
    block, block_follows, dict_entries, has_single_colon, inline_dict, inline_entry, inline_list,
    list_items, msg_ambiguous_vector, msg_bad_indent, msg_bad_vector_indent, msg_duplicate_key,
    msg_too_deep, vector, MAX_NESTING,
};
use crate::parser::cursor::ParseError;
use crate::parser::yields;
use crate::text::trimmed;
use crate::value::{NumberModel, ValueModel};
use vstd::prelude::*;

verus! {

/// Parsing is a function of the text. Every entry point returns what the
/// grammar gives for its text; two results that do so for one text agree: both
/// hold values with one model and the same rest, or both fail at the same
/// place with the same message.
pub proof fn law_parsing_is_deterministic<T: View>(
    input: Seq<char>,
    outcome: Outcome<T::V>,
    first: Result<(&str, T), ParseError>,
    second: Result<(&str, T), ParseError>,
)
    requires
        yields(first, input, outcome),
        yields(second, input, outcome),
    ensures
        first is Ok <==> second is Ok,
        first matches Ok(a) ==> second matches Ok(b) && a.1@ == b.1@ && a.0@ == b.0@,
        first matches Err(e) ==> second matches Err(f) && e.line == f.line && e.column == f.column
            && e.message@ == f.message@,
{
}

/// The indentation law for a multiline dict at the indentation `indent`. Let
/// `p` be where content starts after blank lines and comments. A line with
/// less indentation ends the dict with what it holds, and is not consumed; a
/// line with more indentation is refused at `p`. So an entry is read only from
/// a line with exactly `indent` spaces.
pub proof fn law_dict_indentation(
    s: Seq<char>,
    pos: int,
    indent: int,
    acc: Map<Seq<char>, ValueModel>,
)
    requires
        blank_lines(s, pos) is Accept,
        blank_lines(s, pos)->next < s.len(),
    ensures
        indent_of(s, blank_lines(s, pos)->next) < indent ==> dict_entries(s, pos, indent, acc) == (
        Outcome::Accept { value: acc, next: blank_lines(s, pos)->next }),
        indent_of(s, blank_lines(s, pos)->next) > indent ==> dict_entries(s, pos, indent, acc) == (
        Outcome::<Map<Seq<char>, ValueModel>>::Reject {
            at: blank_lines(s, pos)->next,
            message: msg_bad_indent(indent_of(s, blank_lines(s, pos)->next), indent),
        }),
{
}

/// The indentation law for a multiline list at the indentation `indent`: a
/// line with less indentation ends the list and is not consumed, a line with
/// more is refused.
pub proof fn law_list_indentation(s: Seq<char>, pos: int, indent: int, acc: Seq<ValueModel>)
    requires
        blank_lines(s, pos) is Accept,
        blank_lines(s, pos)->next < s.len(),
    ensures
        indent_of(s, blank_lines(s, pos)->next) < indent ==> list_items(s, pos, indent, acc) == (
        Outcome::Accept { value: acc, next: blank_lines(s, pos)->next }),
        indent_of(s, blank_lines(s, pos)->next) > indent ==> list_items(s, pos, indent, acc) == (
        Outcome::<Seq<ValueModel>>::Reject {
            at: blank_lines(s, pos)->next,
            message: msg_bad_indent(indent_of(s, blank_lines(s, pos)->next), indent),
        }),
{
}

/// The indentation law for the block under `::`: its first line stands at
/// exactly the indentation `indent`. Less, or no line at all, is refused as an
/// empty vector; more is refused as a bad indentation.
pub proof fn law_block_indentation(s: Seq<char>, pos: int, indent: int)
    requires
        blank_lines(s, pos) is Accept,
    ensures
        ({
            let p = blank_lines(s, pos)->next;
            &&& p >= s.len() || indent_of(s, p) < indent ==> block(s, pos, indent) == (
            Outcome::<ValueModel>::Reject { at: p, message: msg_ambiguous_vector() })
            &&& p < s.len() && indent_of(s, p) > indent ==> block(s, pos, indent) == (
            Outcome::<ValueModel>::Reject {
                at: p,
                message: msg_bad_vector_indent(indent_of(s, p), indent),
            })
        }),
{
}

/// After the root value only blank lines and comments may follow. Where the
/// root value ends at `pos` and content is left after the blank lines and
/// comments that follow it, at `p`, the text is refused at `p`; where none is
/// left, the value is accepted and the whole text is consumed.
pub proof fn law_trailing_content<T>(s: Seq<char>, pos: int, value: T)
    requires
        blank_lines(s, pos) is Accept,
    ensures
        ({
            let p = blank_lines(s, pos)->next;
            &&& p < s.len() ==> end_of_document(s, pos, value) == (Outcome::<T>::Reject {
                at: p,
                message: "unexpected content after document root"@,
            })
            &&& p >= s.len() ==> end_of_document(s, pos, value) == (Outcome::Accept {
                value,
                next: p,
            })
        }),
{
}

/// A document that is accepted is consumed to its end, and so is a root value.
pub proof fn law_accepted_text_is_consumed(s: Seq<char>)
    ensures
        document(s) matches Outcome::Accept { value, next } ==> next >= s.len(),
        document_root(s) matches Outcome::Accept { value, next } ==> next >= s.len(),
{
}

/// The empty text is no document.
pub proof fn law_empty_document(s: Seq<char>)
    requires
        s.len() == 0,
    ensures
        document(s) == (Outcome::<crate::value::DocumentModel>::Reject {
            at: 0,
            message: "empty document is undefined"@,
        }),
{
}

/// A duplicate key wins over whatever follows it. Where the line at which
/// content starts stands at the indentation of a multiline dict and starts
/// with a key that the dict holds already, the dict is refused right after
/// that key as a duplicate, whether or not a well-formed indicator and value
/// follow.
pub proof fn law_duplicate_key_first(
    s: Seq<char>,
    pos: int,
    indent: int,
    acc: Map<Seq<char>, ValueModel>,
)
    requires
        blank_lines(s, pos) is Accept,
        blank_lines(s, pos)->next < s.len(),
        indent_of(s, blank_lines(s, pos)->next) == indent,
        key_starts(s, blank_lines(s, pos)->next),
        key(s, blank_lines(s, pos)->next) is Accept,
        acc.contains_key(key(s, blank_lines(s, pos)->next)->value),
    ensures
        dict_entries(s, pos, indent, acc) == (Outcome::<Map<Seq<char>, ValueModel>>::Reject {
            at: key(s, blank_lines(s, pos)->next)->next,
            message: msg_duplicate_key(key(s, blank_lines(s, pos)->next)->value),
        }),
{
}

/// A duplicate key wins in an inline dict too: an entry whose key is in use
/// is refused right after the key, whatever follows it.
pub proof fn law_duplicate_key_first_inline(s: Seq<char>, pos: int, taken: Set<Seq<char>>)
    requires
        key(s, pos) is Accept,
        taken.contains(key(s, pos)->value),
    ensures
        inline_entry(s, pos, taken) == (Outcome::<(Seq<char>, ValueModel)>::Reject {
            at: key(s, pos)->next,
            message: msg_duplicate_key(key(s, pos)->value),
        }),
{
}

/// A block under `::` stands at most `MAX_NESTING` levels deep: a deeper one
/// is refused where its `::` ends.
pub proof fn law_nesting_is_bounded(s: Seq<char>, pos: int, indent: int)
    requires
        block_follows(s, pos),
        indent > 2 * MAX_NESTING,
    ensures
        vector(s, pos, indent) == (Outcome::<ValueModel>::Reject {
            at: pos,
            message: msg_too_deep(),
        }),
{
}

/// The dedent of a content line of a multiline string under a key at the
/// indentation `key_indent`. Between backticks, a line that starts with
/// `key_indent + 2` spaces loses exactly those, so that what stands after them
/// stays, spaces too; any other line stays as it is. Between triple quotes, a
/// line loses the white space at both ends.
pub proof fn law_dedent(line: Seq<char>, key_indent: int, rest: Seq<char>)
    requires
        0 <= key_indent,
    ensures
        line == Seq::new((key_indent + 2) as nat, |i: int| ' ') + rest ==> dedented(
            line,
            key_indent,
            true,
        ) == rest,
        !starts_with_spaces(line, key_indent + 2) ==> dedented(line, key_indent, true) == line,
        dedented(line, key_indent, false) == trimmed(line),
{
    if line == Seq::new((key_indent + 2) as nat, |i: int| ' ') + rest {
        assert(starts_with_spaces(line, key_indent + 2));
        assert(line.subrange(key_indent + 2, line.len() as int) =~= rest);
    }
}

/// Where a vector stands after `::`. With content on the line of the `::`,
/// after one space, the vector is inline, a dict if a single `:` stands on the
/// line and a list if not; with nothing on the line but a comment, it is the
/// block on the lines below, read after the rest of the line.
pub proof fn law_vector_placement(s: Seq<char>, pos: int, indent: int)
    requires
        0 <= pos <= s.len(),
        indent <= 2 * MAX_NESTING,
    ensures
        !block_follows(s, pos) && single_space(s, pos, "after '::'"@) is Accept && !has_prefix(
            s,
            pos + 1,
            "[]"@,
        ) && !has_prefix(s, pos + 1, "{}"@) ==> vector(s, pos, indent) == if has_single_colon(
            s,
            pos + 1,
        ) {
            inline_dict(s, pos + 1)
        } else {
            inline_list(s, pos + 1)
        },
        block_follows(s, pos) && line_rest(s, pos) is Accept ==> vector(s, pos, indent) == block(
            s,
            line_rest(s, pos)->next,
            indent,
        ),
{
    lemma_line_rest_stays(s, pos);
}

/// The Float tag holds finite numbers alone: a float that the grammar accepts
/// is the literal of a finite double, so a literal as large as
/// `least_infinite` or larger, which a double holds as infinity, is refused.
pub proof fn law_floats_are_finite(s: Seq<char>, pos: int)
    ensures
        number(s, pos) matches Outcome::Accept { value: NumberModel::Float(literal), next }
            ==> finite_float_literal(literal),
{
}

} // verus!
