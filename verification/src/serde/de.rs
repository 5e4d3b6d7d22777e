//! Reading a value tree for a structured type: the text is parsed, and the
//! value is handed out piece by piece as the payload that each kind of field
//! asks for.

use crate::grammar::document::{document, document_root, empty_dict, empty_list};
use crate::grammar::position::Outcome;
use crate::grammar::scalars::scalar;
use crate::grammar::structure::{inline_dict, inline_list};
use crate::parser::{
    parse_document_root, parse_empty_dict, parse_empty_list, parse_huml, parse_inline_dict,
    parse_inline_list, parse_scalar,
};
use crate::text::{trim_str, trimmed};
use crate::value::{
    entries_map, entry_views, keys_distinct, lemma_entries_dom_finite, lemma_list_model,
    lemma_value_model, models, HumlDict, HumlNumber, HumlValue, NumberModel, ValueModel,
};
use vstd::prelude::*;
use vstd::string::*;

verus! {

/// Why a value could not be read.
#[derive(Debug)]
pub enum Error {
    /// A message of the type that was being read.
    Message(String),
    /// The text is not in the format.
    ParseError(String),
    /// The value has another kind than the one asked for.
    InvalidType(String),
    /// A field is missing.
    MissingField(String),
    /// A field is not known.
    UnknownField(String),
}

/// Model of an [`Error`].
pub enum ErrorModel {
    Message(Seq<char>),
    ParseError(Seq<char>),
    InvalidType(Seq<char>),
    MissingField(Seq<char>),
    UnknownField(Seq<char>),
}

impl View for Error {
    type V = ErrorModel;

    open spec fn view(&self) -> ErrorModel {
        match self {
            Error::Message(m) => ErrorModel::Message(m@),
            Error::ParseError(m) => ErrorModel::ParseError(m@),
            Error::InvalidType(m) => ErrorModel::InvalidType(m@),
            Error::MissingField(m) => ErrorModel::MissingField(m@),
            Error::UnknownField(m) => ErrorModel::UnknownField(m@),
        }
    }
}

impl ErrorModel {
    /// The error as a reader sees it.
    pub open spec fn text(self) -> Seq<char> {
        match self {
            ErrorModel::Message(m) => m,
            ErrorModel::ParseError(m) => "Parse error: "@ + m,
            ErrorModel::InvalidType(m) => "Invalid type: "@ + m,
            ErrorModel::MissingField(m) => "Missing field: "@ + m,
            ErrorModel::UnknownField(m) => "Unknown field: "@ + m,
        }
    }
}

impl Error {
    /// The error as a reader sees it.
    pub fn to_string(&self) -> (text: String)
        ensures
            text@ == self@.text(),
    {
        match self {
            Error::Message(m) => m.clone(),
            Error::ParseError(m) => {
                let mut text = String::from_str("Parse error: ");
                text.append(m.as_str());
                text
            },
            Error::InvalidType(m) => {
                let mut text = String::from_str("Invalid type: ");
                text.append(m.as_str());
                text
            },
            Error::MissingField(m) => {
                let mut text = String::from_str("Missing field: ");
                text.append(m.as_str());
                text
            },
            Error::UnknownField(m) => {
                let mut text = String::from_str("Unknown field: ");
                text.append(m.as_str());
                text
            },
        }
    }
}

impl Clone for Error {
    fn clone(&self) -> (e: Self)
        ensures
            e@ == self@,
    {
        match self {
            Error::Message(m) => Error::Message(m.clone()),
            Error::ParseError(m) => Error::ParseError(m.clone()),
            Error::InvalidType(m) => Error::InvalidType(m.clone()),
            Error::MissingField(m) => Error::MissingField(m.clone()),
            Error::UnknownField(m) => Error::UnknownField(m.clone()),
        }
    }
}

/// The result of reading.
pub type Result<T> = core::result::Result<T, Error>;

/// Whether `r` is the failure for a value of the wrong kind, with the message
/// `message`.
pub open spec fn is_invalid_type<T>(r: Result<T>, message: Seq<char>) -> bool {
    r matches Err(e) && e@ == ErrorModel::InvalidType(message)
}

fn invalid_type<T>(message: &str) -> (r: Result<T>)
    ensures
        is_invalid_type(r, message@),
{
    Err(Error::InvalidType(message.to_owned()))
}

/// The value that a text holds, if the whole of it is one scalar, inline list,
/// inline dict, `[]` or `{}`; they are tried in this order.
pub open spec fn single_value(t: Seq<char>) -> Option<ValueModel> {
    if scalar(t, 0, 0) matches Outcome::Accept { value, next } && next == t.len() {
        Some(scalar(t, 0, 0)->value)
    } else if inline_list(t, 0) matches Outcome::Accept { value, next } && next == t.len() {
        Some(inline_list(t, 0)->value)
    } else if inline_dict(t, 0) matches Outcome::Accept { value, next } && next == t.len() {
        Some(inline_dict(t, 0)->value)
    } else if empty_list(t) matches Outcome::Accept { value, next } && next == t.len() {
        Some(empty_list(t)->value)
    } else if empty_dict(t) matches Outcome::Accept { value, next } && next == t.len() {
        Some(empty_dict(t)->value)
    } else {
        None
    }
}

/// The message for a text that is no single value.
pub open spec fn msg_no_value(t: Seq<char>) -> Seq<char> {
    "Unable to parse value: "@ + t
}

/// The message for a text that holds no value at all.
pub open spec fn msg_no_content(t: Seq<char>) -> Seq<char> {
    "Unable to parse HUML content: "@ + t
}

/// The value that a text holds, white space at its ends apart: a single value
/// if it is one, else a root value, else the root of a document.
pub open spec fn reading(input: Seq<char>) -> core::result::Result<ValueModel, Seq<char>> {
    let t = trimmed(input);
    match single_value(t) {
        Some(v) => Ok(v),
        None => match document_root(t) {
            Outcome::Accept { value, next } => Ok(value),
            Outcome::Reject { .. } => match document(t) {
                Outcome::Accept { value, next } => Ok(value.root),
                Outcome::Reject { .. } => Err(msg_no_content(t)),
            },
        },
    }
}

/// A value that is being read.
pub struct Deserializer {
    value: HumlValue,
}

impl View for Deserializer {
    type V = ValueModel;

    closed spec fn view(&self) -> ValueModel {
        self.value@
    }
}

/// The items of a list that is being read, front first.
pub struct SeqDeserializer {
    /// The items that are left, last first.
    rest: Vec<HumlValue>,
}

impl View for SeqDeserializer {
    type V = Seq<ValueModel>;

    closed spec fn view(&self) -> Seq<ValueModel> {
        models(self.rest@).reverse()
    }
}

/// The entries of a dict that is being read: each key, then its value.
pub struct MapDeserializer {
    /// The entries that are left, last first.
    rest: Vec<(String, HumlValue)>,
    /// The value of the key that was handed out last.
    value: Option<HumlValue>,
}

impl MapDeserializer {
    /// The entries that are left, in order.
    pub closed spec fn entries(&self) -> Seq<(Seq<char>, ValueModel)> {
        entry_views(self.rest@).reverse()
    }

    /// The value that waits for `next_value`.
    pub closed spec fn pending(&self) -> Option<ValueModel> {
        match self.value {
            Some(v) => Some(v@),
            None => None,
        }
    }
}

/// A variant of an enum that is being read: its name and its content.
pub struct EnumDeserializer {
    variant: String,
    value: HumlValue,
}

impl EnumDeserializer {
    /// The name of the variant.
    pub closed spec fn name(&self) -> Seq<char> {
        self.variant@
    }

    /// The content of the variant.
    pub closed spec fn content(&self) -> ValueModel {
        self.value@
    }
}

/// The content of a variant that is being read.
pub struct VariantDeserializer {
    value: HumlValue,
}

impl View for VariantDeserializer {
    type V = ValueModel;

    closed spec fn view(&self) -> ValueModel {
        self.value@
    }
}

/// What a value hands to the type that reads it.
pub enum Payload {
    Bool(bool),
    I64(i64),
    U64(u64),
    /// An integer where a float was asked for.
    IntegerAsFloat(i64),
    /// A float, as its literal.
    Float(String),
    /// A float, as its literal, where a signed integer was asked for.
    FloatAsI64(String),
    /// A float, as its literal, where an unsigned integer was asked for.
    FloatAsU64(String),
    Nan,
    Infinity(bool),
    Char(char),
    Text(String),
    Bytes(Vec<u8>),
    Unit,
    /// An optional value that is absent.
    Absent,
    /// An optional value that is present.
    Present(Deserializer),
    /// The content of a wrapper around one value.
    Newtype(Deserializer),
    /// The items of a list.
    List(SeqDeserializer),
    /// The entries of a dict.
    Dict(MapDeserializer),
    /// A variant without content, by its name.
    VariantName(String),
    /// A variant with content.
    Variant(EnumDeserializer),
}

fn reversed<T>(v: Vec<T>) -> (r: Vec<T>)
    ensures
        r@ == v@.reverse(),
{
    let mut v = v;
    let ghost whole = v@;
    let mut r: Vec<T> = Vec::new();
    while v.len() > 0
        invariant
            v@.len() <= whole.len(),
            v@ == whole.take(v@.len() as int),
            r@ == whole.skip(v@.len() as int).reverse(),
        decreases v@.len(),
    {
        let ghost n = v@.len() as int;
        let x = v.pop().unwrap();
        r.push(x);
        assert(v@ =~= whole.take(n - 1));
        assert(r@ =~= whole.skip(n - 1).reverse());
    }
    assert(whole.skip(0) =~= whole);
    r
}

impl SeqDeserializer {
    fn new(list: Vec<HumlValue>) -> (d: SeqDeserializer)
        ensures
            d@ == models(list@),
    {
        let rest = reversed(list);
        assert(models(rest@).reverse() =~= models(list@));
        SeqDeserializer { rest }
    }

    /// The next item, if one is left.
    pub fn next_element(&mut self) -> (r: Option<Deserializer>)
        ensures
            match r {
                Some(d) => old(self)@.len() > 0 && d@ == old(self)@[0] && final(self)@ == old(
                    self,
                )@.drop_first(),
                None => old(self)@.len() == 0 && final(self)@ == old(self)@,
            },
    {
        let ghost before = self.rest@;
        match self.rest.pop() {
            Some(value) => {
                assert(models(self.rest@).reverse() =~= models(before).reverse().drop_first());
                Some(Deserializer::new(value))
            },
            None => None,
        }
    }
}

impl MapDeserializer {
    fn new(dict: HumlDict) -> (d: MapDeserializer)
        ensures
            keys_distinct(d.entries()),
            entries_map(d.entries()) == dict@,
            d.pending() is None,
    {
        let entries = dict.into_entries();
        let ghost forward = entries@;
        let rest = reversed(entries);
        assert(entry_views(rest@).reverse() =~= entry_views(forward));
        MapDeserializer { rest, value: None }
    }

    /// The next key, if an entry is left; its value then waits for
    /// `next_value`.
    pub fn next_key(&mut self) -> (r: Option<Deserializer>)
        ensures
            match r {
                Some(d) => {
                    &&& old(self).entries().len() > 0
                    &&& d@ == ValueModel::String(old(self).entries()[0].0)
                    &&& final(self).pending() == Some(old(self).entries()[0].1)
                    &&& final(self).entries() == old(self).entries().drop_first()
                },
                None => {
                    &&& old(self).entries().len() == 0
                    &&& final(self).entries() == old(self).entries()
                    &&& final(self).pending() == old(self).pending()
                },
            },
    {
        broadcast use lemma_value_model;

        let ghost before = self.rest@;
        match self.rest.pop() {
            Some((key, value)) => {
                assert(entry_views(self.rest@).reverse() =~= entry_views(
                    before,
                ).reverse().drop_first());
                self.value = Some(value);
                Some(Deserializer::new(HumlValue::String(key)))
            },
            None => None,
        }
    }

    /// The value of the key that was handed out last.
    pub fn next_value(&mut self) -> (r: Result<Deserializer>)
        ensures
            final(self).entries() == old(self).entries(),
            final(self).pending() is None,
            match old(self).pending() {
                Some(v) => r matches Ok(d) && d@ == v,
                None => is_invalid_type(r, "Value is missing"@),
            },
    {
        let mut taken: Option<HumlValue> = None;
        core::mem::swap(&mut self.value, &mut taken);
        match taken {
            Some(value) => Ok(Deserializer::new(value)),
            None => invalid_type("Value is missing"),
        }
    }
}

impl EnumDeserializer {
    fn new(variant: String, value: HumlValue) -> (d: EnumDeserializer)
        ensures
            d.name() == variant@,
            d.content() == value@,
    {
        EnumDeserializer { variant, value }
    }

    /// The name of the variant, as a value to read, and its content.
    pub fn variant_seed(self) -> (r: (Deserializer, VariantDeserializer))
        ensures
            r.0@ == ValueModel::String(self.name()),
            r.1@ == self.content(),
    {
        broadcast use lemma_value_model;

        (Deserializer::new(HumlValue::String(self.variant)), VariantDeserializer::new(self.value))
    }
}

impl VariantDeserializer {
    fn new(value: HumlValue) -> (d: VariantDeserializer)
        ensures
            d@ == value@,
    {
        VariantDeserializer { value }
    }

    /// A variant without content: its content is null.
    pub fn unit_variant(self) -> (r: Result<()>)
        ensures
            match self@ {
                ValueModel::Null => r is Ok,
                _ => is_invalid_type(r, "Expected null for unit variant"@),
            },
    {
        broadcast use lemma_value_model;

        match self.value {
            HumlValue::Null => Ok(()),
            _ => invalid_type("Expected null for unit variant"),
        }
    }

    /// A variant around one value: the value.
    pub fn newtype_variant_seed(self) -> (d: Deserializer)
        ensures
            d@ == self@,
    {
        Deserializer::new(self.value)
    }

    /// A variant with a tuple: its content is a list.
    pub fn tuple_variant(self) -> (r: Result<SeqDeserializer>)
        ensures
            match self@ {
                ValueModel::List(items) => r matches Ok(d) && d@ == items,
                _ => is_invalid_type(r, "Expected list for tuple variant"@),
            },
    {
        broadcast use lemma_value_model;

        match self.value {
            HumlValue::List(list) => {
                proof {
                    lemma_list_model(&self.value);
                }
                Ok(SeqDeserializer::new(list))
            },
            _ => invalid_type("Expected list for tuple variant"),
        }
    }

    /// A variant with fields: its content is a dict.
    pub fn struct_variant(self) -> (r: Result<MapDeserializer>)
        ensures
            match self@ {
                ValueModel::Dict(entries) => r matches Ok(d) && entries_map(d.entries()) == entries
                    && keys_distinct(d.entries()) && d.pending() is None,
                _ => is_invalid_type(r, "Expected dict for struct variant"@),
            },
    {
        broadcast use lemma_value_model;

        match self.value {
            HumlValue::Dict(dict) => Ok(MapDeserializer::new(dict)),
            _ => invalid_type("Expected dict for struct variant"),
        }
    }
}

impl Deserializer {
    /// A reader of `value`.
    pub fn new(value: HumlValue) -> (d: Deserializer)
        ensures
            d@ == value@,
    {
        Deserializer { value }
    }

    /// The value that is being read.
    pub fn into_value(self) -> (value: HumlValue)
        ensures
            value@ == self@,
    {
        self.value
    }

    /// A reader of the value that the text `input` holds.
    pub fn from_str(input: &str) -> (r: Result<Deserializer>)
        ensures
            match reading(input@) {
                Ok(v) => r matches Ok(d) && d@ == v,
                Err(m) => r matches Err(e) && e@ == ErrorModel::ParseError(m),
            },
    {
        let trimmed = trim_str(input);
        if let Ok(d) = Self::parse_value(trimmed) {
            return Ok(d);
        }
        match parse_document_root(trimmed) {
            Ok((remaining, root)) => {
                if remaining.is_empty() {
                    return Ok(Self::new(root));
                }
                if trim_str(remaining).is_empty() {
                    return Ok(Self::new(root));
                }
            },
            Err(_) => {},
        }
        match parse_huml(trimmed) {
            Ok((remaining, document)) => {
                if remaining.is_empty() || trim_str(remaining).is_empty() {
                    Ok(Self::new(document.root))
                } else {
                    let mut msg = String::from_str("Unexpected remaining input: ");
                    msg.append(remaining);
                    Err(Error::ParseError(msg))
                }
            },
            Err(_) => {
                let mut msg = String::from_str("Unable to parse HUML content: ");
                msg.append(trimmed);
                Err(Error::ParseError(msg))
            },
        }
    }

    /// A reader of the single value that the whole of `input` is.
    fn parse_value(input: &str) -> (r: Result<Deserializer>)
        ensures
            match single_value(input@) {
                Some(v) => r matches Ok(d) && d@ == v,
                None => r matches Err(e) && e@ == ErrorModel::ParseError(msg_no_value(input@)),
            },
    {
        if let Ok((rest, value)) = parse_scalar(input) {
            if rest.is_empty() {
                return Ok(Self::new(value));
            }
        }
        if let Ok((rest, value)) = parse_inline_list(input) {
            if rest.is_empty() {
                return Ok(Self::new(value));
            }
        }
        if let Ok((rest, value)) = parse_inline_dict(input) {
            if rest.is_empty() {
                return Ok(Self::new(value));
            }
        }
        if let Ok((rest, value)) = parse_empty_list(input) {
            if rest.is_empty() {
                return Ok(Self::new(value));
            }
        }
        if let Ok((rest, value)) = parse_empty_dict(input) {
            if rest.is_empty() {
                return Ok(Self::new(value));
            }
        }
        let mut msg = String::from_str("Unable to parse value: ");
        msg.append(input);
        Err(Error::ParseError(msg))
    }
}

/// What a value of any kind hands over when nothing particular is asked for.
pub open spec fn plain_payload(v: ValueModel, p: Payload) -> bool {
    match v {
        ValueModel::String(t) => p matches Payload::Text(x) && x@ == t,
        ValueModel::Number(NumberModel::Integer(i)) => p matches Payload::I64(x) && x == i,
        ValueModel::Number(NumberModel::Float(t)) => p matches Payload::Float(x) && x@ == t,
        ValueModel::Number(NumberModel::Nan) => p is Nan,
        ValueModel::Number(NumberModel::Infinity(positive)) => p matches Payload::Infinity(x) && x
            == positive,
        ValueModel::Boolean(b) => p matches Payload::Bool(x) && x == b,
        ValueModel::Null => p is Unit,
        ValueModel::List(items) => p matches Payload::List(d) && d@ == items,
        ValueModel::Dict(entries) => p matches Payload::Dict(d) && entries_map(d.entries())
            == entries && keys_distinct(d.entries()) && d.pending() is None,
    }
}

impl Deserializer {
    /// Whatever the value is.
    pub fn deserialize_any(self) -> (r: Result<Payload>)
        ensures
            r matches Ok(p) && plain_payload(self@, p),
    {
        broadcast use lemma_value_model;

        match self.value {
            HumlValue::String(s) => Ok(Payload::Text(s)),
            HumlValue::Number(n) => match n {
                HumlNumber::Integer(i) => Ok(Payload::I64(i)),
                HumlNumber::Float(f) => Ok(Payload::Float(f)),
                HumlNumber::Nan => Ok(Payload::Nan),
                HumlNumber::Infinity(positive) => Ok(Payload::Infinity(positive)),
            },
            HumlValue::Boolean(b) => Ok(Payload::Bool(b)),
            HumlValue::Null => Ok(Payload::Unit),
            HumlValue::List(list) => {
                proof {
                    lemma_list_model(&self.value);
                }
                Ok(Payload::List(SeqDeserializer::new(list)))
            },
            HumlValue::Dict(dict) => Ok(Payload::Dict(MapDeserializer::new(dict))),
        }
    }

    /// A boolean.
    pub fn deserialize_bool(self) -> (r: Result<Payload>)
        ensures
            match self@ {
                ValueModel::Boolean(b) => r matches Ok(Payload::Bool(x)) && x == b,
                _ => is_invalid_type(r, "Expected boolean"@),
            },
    {
        broadcast use lemma_value_model;

        match self.value {
            HumlValue::Boolean(b) => Ok(Payload::Bool(b)),
            _ => invalid_type("Expected boolean"),
        }
    }

    /// A signed integer: an integer as it is, a float to be cut to one.
    pub fn deserialize_i64(self) -> (r: Result<Payload>)
        ensures
            match self@ {
                ValueModel::Number(NumberModel::Integer(i)) => r matches Ok(Payload::I64(x)) && x
                    == i,
                ValueModel::Number(NumberModel::Float(t)) => r matches Ok(Payload::FloatAsI64(x))
                    && x@ == t,
                _ => is_invalid_type(r, "Expected integer"@),
            },
    {
        broadcast use lemma_value_model;

        match self.value {
            HumlValue::Number(HumlNumber::Integer(i)) => Ok(Payload::I64(i)),
            HumlValue::Number(HumlNumber::Float(f)) => Ok(Payload::FloatAsI64(f)),
            _ => invalid_type("Expected integer"),
        }
    }

    /// A signed integer of 8 bits.
    pub fn deserialize_i8(self) -> (r: Result<Payload>)
        ensures
            match self@ {
                ValueModel::Number(NumberModel::Integer(i)) => r matches Ok(Payload::I64(x)) && x
                    == i,
                ValueModel::Number(NumberModel::Float(t)) => r matches Ok(Payload::FloatAsI64(x))
                    && x@ == t,
                _ => is_invalid_type(r, "Expected integer"@),
            },
    {
        self.deserialize_i64()
    }

    /// A signed integer of 16 bits.
    pub fn deserialize_i16(self) -> (r: Result<Payload>)
        ensures
            match self@ {
                ValueModel::Number(NumberModel::Integer(i)) => r matches Ok(Payload::I64(x)) && x
                    == i,
                ValueModel::Number(NumberModel::Float(t)) => r matches Ok(Payload::FloatAsI64(x))
                    && x@ == t,
                _ => is_invalid_type(r, "Expected integer"@),
            },
    {
        self.deserialize_i64()
    }

    /// A signed integer of 32 bits.
    pub fn deserialize_i32(self) -> (r: Result<Payload>)
        ensures
            match self@ {
                ValueModel::Number(NumberModel::Integer(i)) => r matches Ok(Payload::I64(x)) && x
                    == i,
                ValueModel::Number(NumberModel::Float(t)) => r matches Ok(Payload::FloatAsI64(x))
                    && x@ == t,
                _ => is_invalid_type(r, "Expected integer"@),
            },
    {
        self.deserialize_i64()
    }

    /// An unsigned integer: an integer that is not negative, or a float to be
    /// cut to one.
    pub fn deserialize_u64(self) -> (r: Result<Payload>)
        ensures
            match self@ {
                ValueModel::Number(NumberModel::Integer(i)) => if i >= 0 {
                    r matches Ok(Payload::U64(x)) && x == i
                } else {
                    is_invalid_type(r, "Expected positive integer"@)
                },
                ValueModel::Number(NumberModel::Float(t)) => r matches Ok(Payload::FloatAsU64(x))
                    && x@ == t,
                _ => is_invalid_type(r, "Expected unsigned integer"@),
            },
    {
        broadcast use lemma_value_model;

        match self.value {
            HumlValue::Number(HumlNumber::Integer(i)) => {
                if i >= 0 {
                    Ok(Payload::U64(i as u64))
                } else {
                    invalid_type("Expected positive integer")
                }
            },
            HumlValue::Number(HumlNumber::Float(f)) => Ok(Payload::FloatAsU64(f)),
            _ => invalid_type("Expected unsigned integer"),
        }
    }

    /// An unsigned integer of 8 bits.
    pub fn deserialize_u8(self) -> (r: Result<Payload>)
        ensures
            match self@ {
                ValueModel::Number(NumberModel::Integer(i)) => if i >= 0 {
                    r matches Ok(Payload::U64(x)) && x == i
                } else {
                    is_invalid_type(r, "Expected positive integer"@)
                },
                ValueModel::Number(NumberModel::Float(t)) => r matches Ok(Payload::FloatAsU64(x))
                    && x@ == t,
                _ => is_invalid_type(r, "Expected unsigned integer"@),
            },
    {
        self.deserialize_u64()
    }

    /// An unsigned integer of 16 bits.
    pub fn deserialize_u16(self) -> (r: Result<Payload>)
        ensures
            match self@ {
                ValueModel::Number(NumberModel::Integer(i)) => if i >= 0 {
                    r matches Ok(Payload::U64(x)) && x == i
                } else {
                    is_invalid_type(r, "Expected positive integer"@)
                },
                ValueModel::Number(NumberModel::Float(t)) => r matches Ok(Payload::FloatAsU64(x))
                    && x@ == t,
                _ => is_invalid_type(r, "Expected unsigned integer"@),
            },
    {
        self.deserialize_u64()
    }

    /// An unsigned integer of 32 bits.
    pub fn deserialize_u32(self) -> (r: Result<Payload>)
        ensures
            match self@ {
                ValueModel::Number(NumberModel::Integer(i)) => if i >= 0 {
                    r matches Ok(Payload::U64(x)) && x == i
                } else {
                    is_invalid_type(r, "Expected positive integer"@)
                },
                ValueModel::Number(NumberModel::Float(t)) => r matches Ok(Payload::FloatAsU64(x))
                    && x@ == t,
                _ => is_invalid_type(r, "Expected unsigned integer"@),
            },
    {
        self.deserialize_u64()
    }

    /// A float: any number.
    pub fn deserialize_f64(self) -> (r: Result<Payload>)
        ensures
            match self@ {
                ValueModel::Number(NumberModel::Float(t)) => r matches Ok(Payload::Float(x)) && x@
                    == t,
                ValueModel::Number(NumberModel::Integer(i)) => r matches Ok(
                    Payload::IntegerAsFloat(x),
                ) && x == i,
                ValueModel::Number(NumberModel::Nan) => r matches Ok(Payload::Nan),
                ValueModel::Number(NumberModel::Infinity(positive)) => r matches Ok(
                    Payload::Infinity(x),
                ) && x == positive,
                _ => is_invalid_type(r, "Expected float"@),
            },
    {
        broadcast use lemma_value_model;

        match self.value {
            HumlValue::Number(HumlNumber::Float(f)) => Ok(Payload::Float(f)),
            HumlValue::Number(HumlNumber::Integer(i)) => Ok(Payload::IntegerAsFloat(i)),
            HumlValue::Number(HumlNumber::Nan) => Ok(Payload::Nan),
            HumlValue::Number(HumlNumber::Infinity(positive)) => Ok(Payload::Infinity(positive)),
            _ => invalid_type("Expected float"),
        }
    }

    /// A float of 32 bits.
    pub fn deserialize_f32(self) -> (r: Result<Payload>)
        ensures
            match self@ {
                ValueModel::Number(NumberModel::Float(t)) => r matches Ok(Payload::Float(x)) && x@
                    == t,
                ValueModel::Number(NumberModel::Integer(i)) => r matches Ok(
                    Payload::IntegerAsFloat(x),
                ) && x == i,
                ValueModel::Number(NumberModel::Nan) => r matches Ok(Payload::Nan),
                ValueModel::Number(NumberModel::Infinity(positive)) => r matches Ok(
                    Payload::Infinity(x),
                ) && x == positive,
                _ => is_invalid_type(r, "Expected float"@),
            },
    {
        self.deserialize_f64()
    }

    /// A character: a string of exactly one.
    pub fn deserialize_char(self) -> (r: Result<Payload>)
        ensures
            match self@ {
                ValueModel::String(t) => if t.len() == 1 {
                    r matches Ok(Payload::Char(c)) && c == t[0]
                } else {
                    is_invalid_type(r, "Expected single character"@)
                },
                _ => is_invalid_type(r, "Expected string"@),
            },
    {
        broadcast use lemma_value_model;

        match self.value {
            HumlValue::String(s) => {
                if s.as_str().unicode_len() == 1 {
                    Ok(Payload::Char(s.as_str().get_char(0)))
                } else {
                    invalid_type("Expected single character")
                }
            },
            _ => invalid_type("Expected string"),
        }
    }

    /// A string.
    pub fn deserialize_str(self) -> (r: Result<Payload>)
        ensures
            match self@ {
                ValueModel::String(t) => r matches Ok(Payload::Text(x)) && x@ == t,
                _ => is_invalid_type(r, "Expected string"@),
            },
    {
        broadcast use lemma_value_model;

        match self.value {
            HumlValue::String(s) => Ok(Payload::Text(s)),
            _ => invalid_type("Expected string"),
        }
    }

    /// An owned string.
    pub fn deserialize_string(self) -> (r: Result<Payload>)
        ensures
            match self@ {
                ValueModel::String(t) => r matches Ok(Payload::Text(x)) && x@ == t,
                _ => is_invalid_type(r, "Expected string"@),
            },
    {
        self.deserialize_str()
    }

    /// Bytes: those of a string in UTF-8.
    pub fn deserialize_bytes(self) -> (r: Result<Payload>)
        ensures
            match self@ {
                ValueModel::String(t) => r matches Ok(Payload::Bytes(b)) && b@
                    == vstd::utf8::encode_utf8(t),
                _ => is_invalid_type(r, "Expected string"@),
            },
    {
        broadcast use lemma_value_model;

        match self.value {
            HumlValue::String(s) => Ok(Payload::Bytes(s.as_str().as_bytes_vec())),
            _ => invalid_type("Expected string"),
        }
    }

    /// Owned bytes.
    pub fn deserialize_byte_buf(self) -> (r: Result<Payload>)
        ensures
            match self@ {
                ValueModel::String(t) => r matches Ok(Payload::Bytes(b)) && b@
                    == vstd::utf8::encode_utf8(t),
                _ => is_invalid_type(r, "Expected string"@),
            },
    {
        self.deserialize_bytes()
    }

    /// An optional value: null is the absent one.
    pub fn deserialize_option(self) -> (r: Result<Payload>)
        ensures
            match self@ {
                ValueModel::Null => r matches Ok(Payload::Absent),
                v => r matches Ok(Payload::Present(d)) && d@ == v,
            },
    {
        broadcast use lemma_value_model;

        match self.value {
            HumlValue::Null => Ok(Payload::Absent),
            _ => Ok(Payload::Present(self)),
        }
    }

    /// The unit: null.
    pub fn deserialize_unit(self) -> (r: Result<Payload>)
        ensures
            match self@ {
                ValueModel::Null => r matches Ok(Payload::Unit),
                _ => is_invalid_type(r, "Expected null"@),
            },
    {
        broadcast use lemma_value_model;

        match self.value {
            HumlValue::Null => Ok(Payload::Unit),
            _ => invalid_type("Expected null"),
        }
    }

    /// A struct without fields: null.
    pub fn deserialize_unit_struct(self) -> (r: Result<Payload>)
        ensures
            match self@ {
                ValueModel::Null => r matches Ok(Payload::Unit),
                _ => is_invalid_type(r, "Expected null"@),
            },
    {
        self.deserialize_unit()
    }

    /// A wrapper around one value: the value.
    pub fn deserialize_newtype_struct(self) -> (r: Result<Payload>)
        ensures
            r matches Ok(Payload::Newtype(d)) && d@ == self@,
    {
        Ok(Payload::Newtype(self))
    }

    /// A sequence: a list.
    pub fn deserialize_seq(self) -> (r: Result<Payload>)
        ensures
            match self@ {
                ValueModel::List(items) => r matches Ok(Payload::List(d)) && d@ == items,
                _ => is_invalid_type(r, "Expected list"@),
            },
    {
        broadcast use lemma_value_model;

        match self.value {
            HumlValue::List(list) => {
                proof {
                    lemma_list_model(&self.value);
                }
                Ok(Payload::List(SeqDeserializer::new(list)))
            },
            _ => invalid_type("Expected list"),
        }
    }

    /// A tuple: a list.
    pub fn deserialize_tuple(self) -> (r: Result<Payload>)
        ensures
            match self@ {
                ValueModel::List(items) => r matches Ok(Payload::List(d)) && d@ == items,
                _ => is_invalid_type(r, "Expected list"@),
            },
    {
        self.deserialize_seq()
    }

    /// A tuple struct: a list.
    pub fn deserialize_tuple_struct(self) -> (r: Result<Payload>)
        ensures
            match self@ {
                ValueModel::List(items) => r matches Ok(Payload::List(d)) && d@ == items,
                _ => is_invalid_type(r, "Expected list"@),
            },
    {
        self.deserialize_seq()
    }

    /// A map: a dict.
    pub fn deserialize_map(self) -> (r: Result<Payload>)
        ensures
            match self@ {
                ValueModel::Dict(entries) => r matches Ok(Payload::Dict(d)) && entries_map(
                    d.entries(),
                ) == entries && keys_distinct(d.entries()) && d.pending() is None,
                _ => is_invalid_type(r, "Expected dict"@),
            },
    {
        broadcast use lemma_value_model;

        match self.value {
            HumlValue::Dict(dict) => Ok(Payload::Dict(MapDeserializer::new(dict))),
            _ => invalid_type("Expected dict"),
        }
    }

    /// A struct: a dict.
    pub fn deserialize_struct(self) -> (r: Result<Payload>)
        ensures
            match self@ {
                ValueModel::Dict(entries) => r matches Ok(Payload::Dict(d)) && entries_map(
                    d.entries(),
                ) == entries && keys_distinct(d.entries()) && d.pending() is None,
                _ => is_invalid_type(r, "Expected dict"@),
            },
    {
        self.deserialize_map()
    }

    /// An enum: a string names a variant without content, a dict of one entry
    /// is a variant and its content.
    pub fn deserialize_enum(self) -> (r: Result<Payload>)
        ensures
            match self@ {
                ValueModel::String(t) => r matches Ok(Payload::VariantName(x)) && x@ == t,
                ValueModel::Dict(entries) => if entries.dom().len() == 1 {
                    r matches Ok(Payload::Variant(d)) && entries == Map::<
                        Seq<char>,
                        ValueModel,
                    >::empty().insert(d.name(), d.content())
                } else {
                    is_invalid_type(r, "Expected single-key dict for enum"@)
                },
                _ => is_invalid_type(r, "Expected string or dict for enum"@),
            },
    {
        broadcast use lemma_value_model;

        match self.value {
            HumlValue::String(s) => Ok(Payload::VariantName(s)),
            HumlValue::Dict(dict) => {
                if dict.len() == 1 {
                    let mut entries = dict.into_entries();
                    let ghost views = entry_views(entries@);
                    proof {
                        lemma_entries_dom_finite(views);
                        assert(views.len() == 1);
                        assert(views.drop_last() =~= Seq::empty());
                        assert(entries_map(views.drop_last()) =~= Map::empty());
                        assert(views.last() == views[0]);
                        assert(entries_map(views) =~= Map::<Seq<char>, ValueModel>::empty().insert(
                            views[0].0,
                            views[0].1,
                        ));
                    }
                    let (key, value) = entries.pop().unwrap();
                    assert(key@ == views[0].0 && value@ == views[0].1);
                    Ok(Payload::Variant(EnumDeserializer::new(key, value)))
                } else {
                    invalid_type("Expected single-key dict for enum")
                }
            },
            _ => invalid_type("Expected string or dict for enum"),
        }
    }

    /// The name of a field or of a variant: a string.
    pub fn deserialize_identifier(self) -> (r: Result<Payload>)
        ensures
            match self@ {
                ValueModel::String(t) => r matches Ok(Payload::Text(x)) && x@ == t,
                _ => is_invalid_type(r, "Expected string"@),
            },
    {
        self.deserialize_str()
    }

    /// A value that is passed over.
    pub fn deserialize_ignored_any(self) -> (r: Result<Payload>)
        ensures
            r matches Ok(p) && plain_payload(self@, p),
    {
        self.deserialize_any()
    }
}

/// The value that the text `input` holds, for a structured type to be built
/// from.
pub fn from_str(input: &str) -> (r: Result<HumlValue>)
    ensures
        match reading(input@) {
            Ok(v) => r matches Ok(value) && value@ == v,
            Err(m) => r matches Err(e) && e@ == ErrorModel::ParseError(m),
        },
{
    let deserializer = Deserializer::from_str(input)?;
    Ok(deserializer.into_value())
}

} // verus!
