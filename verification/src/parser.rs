//! The parser: a cursor over the characters of the input, the scanners built
//! on it, and the entry points of the library.

pub mod cursor;
pub mod document;
pub mod lines;
pub mod numbers;
pub mod scalars;
pub mod structure;
pub mod values;

use crate::grammar::document::{document, document_root, empty_dict, empty_list};
use crate::grammar::position::Outcome;
use crate::grammar::scalars::scalar;
use crate::grammar::structure::{inline_dict, inline_list, DataType};
use crate::parser::cursor::{ParseError, Parser};
use crate::text::{char_is_whitespace, to_chars, trim_start_index};
use crate::value::{lemma_list_model, lemma_value_model, models, HumlDict, HumlDocument, HumlValue};
use vstd::prelude::*;
use vstd::string::*;

verus! {

/// The result of an entry point: the text that was not consumed and the value,
/// or the failure.
pub type IResult<'a, T> = Result<(&'a str, T), ParseError>;

/// Whether the result of an entry point is what the grammar gives for the text
/// `input`: on success the value and the text from the position after it, on
/// failure the place and the message.
pub open spec fn yields<T: View>(
    r: Result<(&str, T), ParseError>,
    input: Seq<char>,
    o: Outcome<T::V>,
) -> bool {
    match o {
        Outcome::Accept { value, next } => {
            &&& r matches Ok(pair)
            &&& pair.1@ == value
            &&& 0 <= next <= input.len()
            &&& pair.0@ == input.subrange(next, input.len() as int)
        },
        Outcome::Reject { at, message } => r matches Err(e) && e.is_at(input, at, message),
    }
}

/// The text of `input` from the character `from` on.
fn rest_of<'a>(input: &'a str, from: usize) -> (rest: &'a str)
    requires
        from <= input@.len(),
    ensures
        rest@ == input@.subrange(from as int, input@.len() as int),
{
    let len = input.unicode_len();
    input.substring_char(from, len)
}

/// Parses a complete document, with its optional version header.
pub fn parse_huml(input: &str) -> (r: IResult<'_, HumlDocument>)
    ensures
        yields(r, input@, document(input@)),
{
    let chars = to_chars(input);
    let mut parser = Parser::new(chars.as_slice());
    let doc = parser.parse_document()?;
    Ok((rest_of(input, parser.pos), doc))
}

/// Parses a root value: a document without a version header.
pub fn parse_document_root(input: &str) -> (r: IResult<'_, HumlValue>)
    ensures
        yields(r, input@, document_root(input@)),
{
    let chars = to_chars(input);
    let mut parser = Parser::new(chars.as_slice());
    parser.skip_blank_lines()?;
    let root = parser.parse_root_value(false)?;
    parser.expect_end()?;
    Ok((rest_of(input, parser.pos), root))
}

/// Parses one scalar at the start of `input`.
pub fn parse_scalar(input: &str) -> (r: IResult<'_, HumlValue>)
    ensures
        yields(r, input@, scalar(input@, 0, 0)),
{
    let chars = to_chars(input);
    let mut parser = Parser::new(chars.as_slice());
    let value = parser.parse_scalar_value(0)?;
    Ok((rest_of(input, parser.pos), value))
}

/// The position of the first character of `chars` that is no white space.
fn skip_whitespace(chars: &[char]) -> (p: usize)
    ensures
        p == trim_start_index(chars@, 0),
        p <= chars@.len(),
{
    let mut p: usize = 0;
    while p < chars.len() && char_is_whitespace(chars[p])
        invariant
            p <= chars@.len(),
            trim_start_index(chars@, p as int) == trim_start_index(chars@, 0),
        decreases chars@.len() - p,
    {
        p += 1;
    }
    p
}

/// Parses the shorthand `[]`, after optional white space.
pub fn parse_empty_list(input: &str) -> (r: IResult<'_, HumlValue>)
    ensures
        yields(r, input@, empty_list(input@)),
{
    let chars = to_chars(input);
    let p = skip_whitespace(chars.as_slice());
    let mut parser = Parser::new(chars.as_slice());
    proof {
        reveal_strlit("[]");
    }
    if chars.len() - p >= 2 && chars[p] == '[' && chars[p + 1] == ']' {
        assert(chars@.subrange(p as int, p + 2) =~= "[]"@);
        let v = HumlValue::List(Vec::new());
        proof {
            lemma_list_model(&v);
            assert(models(v->List_0@) =~= Seq::empty());
        }
        Ok((rest_of(input, p + 2), v))
    } else {
        proof {
            if p + 2 <= chars@.len() {
                let w = chars@.subrange(p as int, p + 2);
                assert(w[0] == chars@[p as int] && w[1] == chars@[p + 1]);
            }
        }
        parser.err("expected []")
    }
}

/// Parses the shorthand `{}`, after optional white space.
pub fn parse_empty_dict(input: &str) -> (r: IResult<'_, HumlValue>)
    ensures
        yields(r, input@, empty_dict(input@)),
{
    let chars = to_chars(input);
    let p = skip_whitespace(chars.as_slice());
    let mut parser = Parser::new(chars.as_slice());
    proof {
        reveal_strlit("{}");
    }
    if chars.len() - p >= 2 && chars[p] == '{' && chars[p + 1] == '}' {
        assert(chars@.subrange(p as int, p + 2) =~= "{}"@);
        let v = HumlValue::Dict(HumlDict::new());
        proof {
            lemma_value_model(&v);
        }
        Ok((rest_of(input, p + 2), v))
    } else {
        proof {
            if p + 2 <= chars@.len() {
                let w = chars@.subrange(p as int, p + 2);
                assert(w[0] == chars@[p as int] && w[1] == chars@[p + 1]);
            }
        }
        parser.err("expected {}")
    }
}

/// Parses an inline list at the start of `input`, to the end of its line.
pub fn parse_inline_list(input: &str) -> (r: IResult<'_, HumlValue>)
    ensures
        yields(r, input@, inline_list(input@, 0)),
{
    let chars = to_chars(input);
    let mut parser = Parser::new(chars.as_slice());
    let value = parser.parse_inline_vector_contents(DataType::InlineList)?;
    Ok((rest_of(input, parser.pos), value))
}

/// Parses an inline dict at the start of `input`, to the end of its line.
pub fn parse_inline_dict(input: &str) -> (r: IResult<'_, HumlValue>)
    ensures
        yields(r, input@, inline_dict(input@, 0)),
{
    let chars = to_chars(input);
    let mut parser = Parser::new(chars.as_slice());
    let value = parser.parse_inline_vector_contents(DataType::InlineDict)?;
    Ok((rest_of(input, parser.pos), value))
}

} // verus!
