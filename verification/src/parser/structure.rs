//! Parsers for collections: inline lists and dicts, multiline lists and dicts,
//! and the vector after `::`.

use crate::grammar::position::{
    after_spaces, char_at, indent_of, lemma_after_spaces, lemma_line_start, line_start, Outcome,
};
use crate::grammar::structure::{
    as_dict, as_list, block, block_type, close_line, dict_entries, entry_value, has_single_colon,
    inline_dict, inline_ends, inline_item, inline_items, inline_list, item_value, list_items,
    separator, InlineModel,
    msg_bad_indent, msg_bad_vector_indent, msg_duplicate_key, spaces_then_comma, vector, DataType,
    MAX_NESTING,
};
use crate::parser::cursor::{agrees, ParseError, Parser};
use crate::text::push_decimal;
use crate::value::{
    lemma_list_model, lemma_value_model, models, HumlDict, HumlValue, ValueModel,
};
use vstd::prelude::*;
use vstd::string::*;

verus! {

/// Where a character that is no space stands, the indentation of its line is
/// at most its distance from the start of the line.
proof fn lemma_indent_before(s: Seq<char>, pos: int)
    requires
        0 <= pos < s.len(),
        s[pos] != ' ',
    ensures
        0 <= indent_of(s, pos) <= pos - line_start(s, pos),
{
    lemma_line_start(s, pos);
    lemma_after_spaces(s, line_start(s, pos));
}

/// What the items of an inline collection are after one item was read.
proof fn lemma_inline_items_step(
    s: Seq<char>,
    pos: int,
    first: bool,
    acc: InlineModel,
    item_pos: int,
    filled: InlineModel,
    item_end: int,
)
    requires
        !inline_ends(s, pos),
        separator(s, pos, first) == (Outcome::Accept { value: (), next: item_pos }),
        inline_item(s, item_pos, acc) == (Outcome::Accept { value: filled, next: item_end }),
        pos < item_end <= s.len(),
    ensures
        inline_items(s, pos, first, acc) == if char_at(s, item_end) != Some(' ') {
            inline_items(s, item_end, false, filled)
        } else if spaces_then_comma(s, item_end) {
            inline_items(s, after_spaces(s, item_end), false, filled)
        } else {
            close_line(s, item_end, filled)
        },
{
    lemma_after_spaces(s, item_end);
}

fn duplicate_key_message(key: &String) -> (msg: String)
    ensures
        msg@ == msg_duplicate_key(key@),
{
    let mut msg = String::from_str("duplicate key '");
    msg.append(key.as_str());
    msg.append("' in dict");
    msg
}

fn bad_indent_message(found: usize, expected: usize) -> (msg: String)
    ensures
        msg@ == msg_bad_indent(found as int, expected as int),
{
    let mut msg = String::from_str("bad indent ");
    push_decimal(&mut msg, found as u64);
    msg.append(", expected ");
    push_decimal(&mut msg, expected as u64);
    msg
}

fn bad_vector_indent_message(found: usize, expected: usize) -> (msg: String)
    ensures
        msg@ == msg_bad_vector_indent(found as int, expected as int),
{
    let mut msg = String::from_str("bad indent ");
    push_decimal(&mut msg, found as u64);
    msg.append(" for vector, expected ");
    push_decimal(&mut msg, expected as u64);
    msg
}

fn empty_list() -> (v: HumlValue)
    ensures
        v@ == ValueModel::List(Seq::empty()),
{
    let v = HumlValue::List(Vec::new());
    proof {
        lemma_list_model(&v);
        assert(models(v->List_0@) =~= Seq::empty());
    }
    v
}

fn empty_dict() -> (v: HumlValue)
    ensures
        v@ == ValueModel::Dict(Map::empty()),
{
    let v = HumlValue::Dict(HumlDict::new());
    proof {
        lemma_value_model(&v);
    }
    v
}

/// The collection that an inline vector fills.
pub enum InlineItems {
    List(Vec<HumlValue>),
    Dict(HumlDict),
}

impl View for InlineItems {
    type V = InlineModel;

    open spec fn view(&self) -> InlineModel {
        match self {
            InlineItems::List(values) => InlineModel::List(models(values@)),
            InlineItems::Dict(dict) => InlineModel::Dict(dict@),
        }
    }
}

impl InlineItems {
    /// The collection as a value.
    pub fn into_value(self) -> (v: HumlValue)
        ensures
            v@ == self@.value(),
    {
        match self {
            InlineItems::List(values) => {
                let v = HumlValue::List(values);
                proof {
                    lemma_list_model(&v);
                }
                v
            },
            InlineItems::Dict(dict) => {
                let v = HumlValue::Dict(dict);
                proof {
                    lemma_value_model(&v);
                }
                v
            },
        }
    }
}

impl<'a> Parser<'a> {
    /// After an item of an inline collection: whether the collection may go
    /// on. Where spaces and then a comma follow, the cursor moves to the comma.
    fn inline_continues(&mut self) -> (more: bool)
        requires
            old(self).wf(),
        ensures
            final(self).wf(),
            final(self).chars == old(self).chars,
            final(self).pos >= old(self).pos,
            more == (char_at(old(self).chars@, old(self).pos as int) != Some(' ')
                || spaces_then_comma(old(self).chars@, old(self).pos as int)),
            final(self).pos == if spaces_then_comma(old(self).chars@, old(self).pos as int) {
                after_spaces(old(self).chars@, old(self).pos as int)
            } else {
                old(self).pos as int
            },
            spaces_then_comma(old(self).chars@, old(self).pos as int) ==> final(self).pos
                < final(self).chars@.len(),
    {
        if self.at(' ') {
            let saved = *self;
            self.skip_spaces();
            if self.at(',') {
                true
            } else {
                *self = saved;
                false
            }
        } else {
            true
        }
    }

    /// One item of an inline collection, added to `items`.
    fn parse_inline_item(&mut self, items: InlineItems) -> (r: Result<InlineItems, ParseError>)
        requires
            old(self).wf(),
        ensures
            agrees(
                r,
                *final(self),
                old(self).chars@,
                inline_item(old(self).chars@, old(self).pos as int, items@),
            ),
            r is Ok ==> final(self).pos > old(self).pos,
    {
        match items {
            InlineItems::List(mut values) => {
                let value = self.parse_scalar_value(0)?;
                let ghost before = models(values@);
                values.push(value);
                assert(models(values@) =~= before.push(value@));
                Ok(InlineItems::List(values))
            },
            InlineItems::Dict(mut dict) => {
                let key = self.parse_key()?;
                if dict.contains_key(key.as_str()) {
                    return Err(self.error_with(duplicate_key_message(&key)));
                }
                if !self.at(':') {
                    return self.err("expected ':' in inline dict");
                }
                self.advance(1);
                self.assert_space("in inline dict")?;
                let value = self.parse_scalar_value(0)?;
                dict.insert(key, value);
                Ok(InlineItems::Dict(dict))
            },
        }
    }

    /// One round of an inline collection: the separator, unless the item is the
    /// first, the item, added to `items`, and whether another round follows.
    fn parse_inline_round(&mut self, items: InlineItems, first: bool) -> (r: Result<
        (InlineItems, bool),
        ParseError,
    >)
        requires
            old(self).wf(),
            !inline_ends(old(self).chars@, old(self).pos as int),
        ensures
            match r {
                Ok((filled, more)) => {
                    &&& final(self).wf()
                    &&& final(self).chars@ == old(self).chars@
                    &&& final(self).pos > old(self).pos
                    &&& inline_items(
                        old(self).chars@,
                        old(self).pos as int,
                        first,
                        items@,
                    ) == if more {
                        inline_items(old(self).chars@, final(self).pos as int, false, filled@)
                    } else {
                        close_line(old(self).chars@, final(self).pos as int, filled@)
                    }
                },
                Err(e) => inline_items(
                    old(self).chars@,
                    old(self).pos as int,
                    first,
                    items@,
                ) matches Outcome::Reject { at, message } && e.is_at(old(self).chars@, at, message),
            },
    {
        let ghost s = self.chars@;
        let ghost from = self.pos as int;
        let ghost acc = items@;
        if !first {
            self.expect_comma()?;
        }
        let ghost item_pos = self.pos as int;
        let filled = self.parse_inline_item(items)?;
        let ghost item_end = self.pos as int;
        let more = self.inline_continues();
        proof {
            lemma_inline_items_step(s, from, first, acc, item_pos, filled@, item_end);
        }
        Ok((filled, more))
    }

    /// The items of an inline collection, added to `items`, and the rest of
    /// their line.
    pub fn parse_inline_items(&mut self, items: InlineItems) -> (r: Result<InlineItems, ParseError>)
        requires
            old(self).wf(),
        ensures
            agrees(
                r,
                *final(self),
                old(self).chars@,
                inline_items(old(self).chars@, old(self).pos as int, true, items@),
            ),
            r is Ok ==> final(self).pos >= old(self).pos,
    {
        let ghost s = self.chars@;
        let ghost start = self.pos as int;
        let ghost initial = items@;
        let mut filled = items;
        let mut first = true;
        loop
            invariant_except_break
                inline_items(s, self.pos as int, first, filled@) == inline_items(
                    s,
                    start,
                    true,
                    initial,
                ),
            invariant
                self.wf(),
                self.chars@ == s,
                self.pos >= start,
                start == old(self).pos,
                s == old(self).chars@,
                initial == items@,
            ensures
                inline_items(s, start, true, initial) == close_line(s, self.pos as int, filled@),
            decreases s.len() - self.pos,
        {
            if self.done() || self.at('\n') || self.at('#') {
                break ;
            }
            let (next, more) = self.parse_inline_round(filled, first)?;
            filled = next;
            first = false;
            if !more {
                break ;
            }
        }
        self.consume_line()?;
        Ok(filled)
    }

    /// An inline list or an inline dict at the cursor.
    pub fn parse_inline_vector_contents(&mut self, typ: DataType) -> (r: Result<
        HumlValue,
        ParseError,
    >)
        requires
            old(self).wf(),
            typ == DataType::InlineDict || typ == DataType::InlineList,
        ensures
            agrees(
                r,
                *final(self),
                old(self).chars@,
                if typ == DataType::InlineDict {
                    inline_dict(old(self).chars@, old(self).pos as int)
                } else {
                    inline_list(old(self).chars@, old(self).pos as int)
                },
            ),
            r is Ok ==> final(self).pos >= old(self).pos,
    {
        let items = match typ {
            DataType::InlineDict => InlineItems::Dict(HumlDict::new()),
            _ => {
                let values: Vec<HumlValue> = Vec::new();
                assert(models(values@) =~= Seq::empty());
                InlineItems::List(values)
            },
        };
        let filled = self.parse_inline_items(items)?;
        Ok(filled.into_value())
    }

    /// Whether the vector after `::` is an inline dict: a `:` with no `:`
    /// after it stands on the line.
    pub fn has_inline_dict(&self) -> (b: bool)
        requires
            self.wf(),
        ensures
            b == has_single_colon(self.chars@, self.pos as int),
    {
        let mut pos: usize = self.pos;
        while pos < self.chars.len() && self.chars[pos] != '\n' && self.chars[pos] != '#'
            invariant
                self.pos <= pos <= self.chars@.len(),
                has_single_colon(self.chars@, pos as int) == has_single_colon(
                    self.chars@,
                    self.pos as int,
                ),
            decreases self.chars@.len() - pos,
        {
            if self.chars[pos] == ':' {
                if pos + 1 < self.chars.len() && self.chars[pos + 1] != ':' {
                    return true;
                }
            }
            pos += 1;
        }
        false
    }

    /// Finds the block of a vector and tells its kind.
    pub fn get_multiline_vector_type(&mut self, indent: usize) -> (r: Result<DataType, ParseError>)
        requires
            old(self).wf(),
        ensures
            agrees(
                r,
                *final(self),
                old(self).chars@,
                block_type(old(self).chars@, old(self).pos as int, indent as int),
            ),
            r is Ok ==> old(self).pos <= final(self).pos < final(self).chars@.len(),
    {
        self.skip_blank_lines()?;
        if self.done() {
            return self.err("ambiguous empty vector after '::'. Use [] or {}.");
        }
        let cur_indent = self.get_cur_indent();
        if cur_indent < indent {
            return self.err("ambiguous empty vector after '::'. Use [] or {}.");
        }
        if self.at('-') {
            Ok(DataType::MultilineList)
        } else {
            Ok(DataType::MultilineDict)
        }
    }

    /// A multiline dict whose entries stand at the indentation `indent`.
    pub fn parse_multiline_dict(&mut self, indent: usize) -> (r: Result<HumlValue, ParseError>)
        requires
            old(self).wf(),
        ensures
            agrees(
                r,
                *final(self),
                old(self).chars@,
                as_dict(
                    dict_entries(
                        old(self).chars@,
                        old(self).pos as int,
                        indent as int,
                        Map::empty(),
                    ),
                ),
            ),
            r is Ok ==> final(self).pos >= old(self).pos,
        decreases old(self).chars@.len() - old(self).pos, 2nat,
    {
        let ghost s = self.chars@;
        let ghost start = self.pos as int;
        let mut dict = HumlDict::new();
        loop
            invariant_except_break
                dict_entries(s, self.pos as int, indent as int, dict@) == dict_entries(
                    s,
                    start,
                    indent as int,
                    Map::empty(),
                ),
            invariant
                self.wf(),
                self.chars@ == s,
                self.pos >= start,
                start == old(self).pos,
                s == old(self).chars@,
            ensures
                dict_entries(s, start, indent as int, Map::empty()) == (Outcome::Accept {
                    value: dict@,
                    next: self.pos as int,
                }),
            decreases s.len() - self.pos,
        {
            let ghost iteration_start = self.pos as int;
            self.skip_blank_lines()?;
            if self.done() {
                break ;
            }
            let cur_indent = self.get_cur_indent();
            if cur_indent < indent {
                break ;
            }
            if cur_indent != indent {
                return Err(self.error_with(bad_indent_message(cur_indent, indent)));
            }
            if !self.is_key_start() {
                return self.err("expected key");
            }
            let ghost line_pos = self.pos as int;
            let key = self.parse_key()?;
            if dict.contains_key(key.as_str()) {
                return Err(self.error_with(duplicate_key_message(&key)));
            }
            let double = self.parse_indicator()?;
            let ghost value_pos = self.pos as int;
            let value = if !double {
                self.assert_space("after ':'")?;
                let is_multiline_string = self.starts_with("```") || self.starts_with("\"\"\"");
                let scalar = self.parse_scalar_value(cur_indent)?;
                if !is_multiline_string {
                    self.consume_line()?;
                }
                scalar
            } else {
                proof {
                    lemma_indent_before(s, line_pos);
                }
                self.parse_vector(indent + 2)?
            };
            assert(entry_value(s, value_pos, indent as int, double) == (Outcome::Accept {
                value: value@,
                next: self.pos as int,
            }));
            dict.insert(key, value);
        }
        let v = HumlValue::Dict(dict);
        proof {
            lemma_value_model(&v);
        }
        Ok(v)
    }

    /// A multiline list whose items stand at the indentation `indent`.
    pub fn parse_multiline_list(&mut self, indent: usize) -> (r: Result<HumlValue, ParseError>)
        requires
            old(self).wf(),
        ensures
            agrees(
                r,
                *final(self),
                old(self).chars@,
                as_list(
                    list_items(
                        old(self).chars@,
                        old(self).pos as int,
                        indent as int,
                        Seq::empty(),
                    ),
                ),
            ),
            r is Ok ==> final(self).pos >= old(self).pos,
        decreases old(self).chars@.len() - old(self).pos, 2nat,
    {
        let ghost s = self.chars@;
        let ghost start = self.pos as int;
        let mut items: Vec<HumlValue> = Vec::new();
        assert(models(items@) =~= Seq::empty());
        loop
            invariant_except_break
                list_items(s, self.pos as int, indent as int, models(items@)) == list_items(
                    s,
                    start,
                    indent as int,
                    Seq::empty(),
                ),
            invariant
                self.wf(),
                self.chars@ == s,
                self.pos >= start,
                start == old(self).pos,
                s == old(self).chars@,
            ensures
                list_items(s, start, indent as int, Seq::empty()) == (Outcome::Accept {
                    value: models(items@),
                    next: self.pos as int,
                }),
            decreases s.len() - self.pos,
        {
            self.skip_blank_lines()?;
            if self.done() {
                break ;
            }
            let cur_indent = self.get_cur_indent();
            if cur_indent < indent {
                break ;
            }
            if cur_indent != indent {
                return Err(self.error_with(bad_indent_message(cur_indent, indent)));
            }
            if !self.at('-') {
                break ;
            }
            let ghost line_pos = self.pos as int;
            self.advance(1);
            self.assert_space("after '-'")?;
            let ghost value_pos = self.pos as int;
            proof {
                reveal_strlit("::");
            }
            let value = if self.starts_with("::") {
                self.advance(2);
                proof {
                    lemma_indent_before(s, line_pos);
                }
                self.parse_vector(indent + 2)?
            } else {
                let scalar = self.parse_scalar_value(indent)?;
                self.consume_line()?;
                scalar
            };
            assert(item_value(s, value_pos, indent as int) == (Outcome::Accept {
                value: value@,
                next: self.pos as int,
            }));
            let ghost before = models(items@);
            items.push(value);
            assert(models(items@) =~= before.push(value@));
        }
        let v = HumlValue::List(items);
        proof {
            lemma_list_model(&v);
        }
        Ok(v)
    }

    /// The vector after `::`, whose block stands at the indentation `indent`.
    pub fn parse_vector(&mut self, indent: usize) -> (r: Result<HumlValue, ParseError>)
        requires
            old(self).wf(),
        ensures
            agrees(
                r,
                *final(self),
                old(self).chars@,
                vector(old(self).chars@, old(self).pos as int, indent as int),
            ),
            r is Ok ==> final(self).pos > old(self).pos,
        decreases old(self).chars@.len() - old(self).pos, 4nat,
    {
        let ghost s = self.chars@;
        let saved = *self;
        self.skip_spaces();
        if self.done() || self.at('\n') || self.at('#') {
            *self = saved;
            if indent > 2 * MAX_NESTING {
                let mut msg = String::from_str("nesting deeper than ");
                push_decimal(&mut msg, MAX_NESTING as u64);
                msg.append(" levels");
                return Err(self.error_with(msg));
            }
            self.consume_line()?;
            let vector_type = self.get_multiline_vector_type(indent)?;
            let actual_indent = self.get_cur_indent();
            if actual_indent != indent {
                return Err(self.error_with(bad_vector_indent_message(actual_indent, indent)));
            }
            match vector_type {
                DataType::MultilineList => self.parse_multiline_list(actual_indent),
                _ => self.parse_multiline_dict(actual_indent),
            }
        } else {
            *self = saved;
            self.assert_space("after '::'")?;
            proof {
                reveal_strlit("[]");
                reveal_strlit("{}");
            }
            if self.starts_with("[]") {
                self.advance(2);
                self.consume_line()?;
                return Ok(empty_list());
            }
            if self.starts_with("{}") {
                self.advance(2);
                self.consume_line()?;
                return Ok(empty_dict());
            }
            if self.has_inline_dict() {
                self.parse_inline_vector_contents(DataType::InlineDict)
            } else {
                self.parse_inline_vector_contents(DataType::InlineList)
            }
        }
    }
}

} // verus!
