//! Writing a value tree as text: a serializer that is fed a value piece by
//! piece and builds the text, and the function that feeds it a whole value.

use crate::grammar::position::{lemma_line_end, line_end};
use crate::grammar::scalars::finite_float_literal;
use crate::parser::numbers::is_finite_float_literal;
use crate::text::{
    char_is_control, decimal, hex_char, hex_digit_to_char, is_control, push_decimal,
    signed_decimal, string_of, to_chars, trim_bounds, trimmed,
};
use crate::value::{lemma_value_tree, HumlNumber, HumlValue, NumberModel, Tree};
use vstd::prelude::*;
use vstd::string::*;

verus! {

/// Why a value could not be written.
#[derive(Debug)]
pub enum Error {
    /// A message of the type that was being written.
    Message(String),
    /// A failure of the destination.
    Io(String),
    /// A type that has no text form.
    UnsupportedType(&'static str),
}

/// Model of an [`Error`].
pub enum ErrorModel {
    Message(Seq<char>),
    Io(Seq<char>),
    UnsupportedType(Seq<char>),
}

impl View for Error {
    type V = ErrorModel;

    open spec fn view(&self) -> ErrorModel {
        match self {
            Error::Message(m) => ErrorModel::Message(m@),
            Error::Io(m) => ErrorModel::Io(m@),
            Error::UnsupportedType(m) => ErrorModel::UnsupportedType(m@),
        }
    }
}

impl ErrorModel {
    /// The error as a reader sees it.
    pub open spec fn text(self) -> Seq<char> {
        match self {
            ErrorModel::Message(m) => m,
            ErrorModel::Io(m) => "IO error: "@ + m,
            ErrorModel::UnsupportedType(m) => "Unsupported type: "@ + m,
        }
    }
}

impl Error {
    /// The error as a reader sees it.
    pub fn to_string(&self) -> (text: String)
        ensures
            text@ == self@.text(),
    {
        match self {
            Error::Message(m) => m.clone(),
            Error::Io(m) => {
                let mut text = String::from_str("IO error: ");
                text.append(m.as_str());
                text
            },
            Error::UnsupportedType(m) => {
                let mut text = String::from_str("Unsupported type: ");
                text.append(m);
                text
            },
        }
    }
}

impl Clone for Error {
    fn clone(&self) -> (e: Self)
        ensures
            e@ == self@,
    {
        match self {
            Error::Message(m) => Error::Message(m.clone()),
            Error::Io(m) => Error::Io(m.clone()),
            Error::UnsupportedType(m) => Error::UnsupportedType(*m),
        }
    }
}

/// The result of writing.
pub type Result<T> = core::result::Result<T, Error>;

/// Whether a character is alphabetic, as `char::is_alphabetic` tells it.
pub uninterp spec fn unicode_alphabetic(c: char) -> bool;

/// Whether a character is alphabetic or numeric, as `char::is_alphanumeric`
/// tells it.
pub uninterp spec fn unicode_alphanumeric(c: char) -> bool;

/// `char::is_alphabetic`: whether `c` has the Unicode property Alphabetic.
#[verifier::external_body]
fn char_is_alphabetic(c: char) -> (b: bool)
    ensures
        b == unicode_alphabetic(c),
{
    c.is_alphabetic()
}

/// `char::is_alphanumeric`: whether `c` is alphabetic or numeric in Unicode.
#[verifier::external_body]
fn char_is_alphanumeric(c: char) -> (b: bool)
    ensures
        b == unicode_alphanumeric(c),
{
    c.is_alphanumeric()
}

/// Whether a key can stand without quotes: it starts with a letter or `_`, and
/// goes on with letters, digits, `_` and `-`.
pub open spec fn valid_unquoted_key(k: Seq<char>) -> bool {
    &&& k.len() > 0
    &&& unicode_alphabetic(k[0]) || k[0] == '_'
    &&& forall|i: int|
        1 <= i < k.len() ==> unicode_alphanumeric(#[trigger] k[i]) || k[i] == '_' || k[i] == '-'
}

/// Whether `chars[from..to]` can stand as a key without quotes.
fn is_valid_unquoted(chars: &[char], from: usize, to: usize) -> (b: bool)
    requires
        from <= to <= chars@.len(),
    ensures
        b == valid_unquoted_key(chars@.subrange(from as int, to as int)),
{
    let ghost k = chars@.subrange(from as int, to as int);
    if from == to {
        return false;
    }
    let c = chars[from];
    assert(k[0] == c);
    if !(char_is_alphabetic(c) || c == '_') {
        return false;
    }
    let mut i: usize = from + 1;
    while i < to
        invariant
            from < i <= to <= chars@.len(),
            k == chars@.subrange(from as int, to as int),
            forall|j: int|
                1 <= j < i - from ==> unicode_alphanumeric(#[trigger] k[j]) || k[j] == '_' || k[j]
                    == '-',
        decreases to - i,
    {
        let c = chars[i];
        assert(k[i - from] == c);
        if !(char_is_alphanumeric(c) || c == '_' || c == '-') {
            return false;
        }
        i += 1;
    }
    true
}

/// Whether `s` can stand as a key without quotes.
pub fn is_valid_unquoted_key(s: &str) -> (b: bool)
    ensures
        b == valid_unquoted_key(s@),
{
    let chars = to_chars(s);
    assert(chars@.subrange(0, chars@.len() as int) =~= s@);
    is_valid_unquoted(chars.as_slice(), 0, chars.len())
}

/// The indentation of a level: two spaces for each.
pub open spec fn indentation(level: nat) -> Seq<char> {
    Seq::new(2 * level, |i: int| ' ')
}

/// How a character stands inside a quoted string.
pub open spec fn escape(c: char) -> Seq<char> {
    if c == '"' {
        seq!['\\', '"']
    } else if c == '\\' {
        seq!['\\', '\\']
    } else if c == '\n' {
        seq!['\\', 'n']
    } else if c == '\t' {
        seq!['\\', 't']
    } else if c == '\r' {
        seq!['\\', 'r']
    } else if c == '\u{8}' {
        seq!['\\', 'b']
    } else if c == '\u{c}' {
        seq!['\\', 'f']
    } else if c == '/' {
        seq!['\\', '/']
    } else if is_control(c) {
        seq!['\\', 'u', '0', '0', hex_char((c as int) / 16), hex_char((c as int) % 16)]
    } else {
        seq![c]
    }
}

/// How a text stands inside a quoted string.
pub open spec fn escaped(s: Seq<char>) -> Seq<char>
    decreases s.len(),
{
    if s.len() == 0 {
        s
    } else {
        escaped(s.drop_last()) + escape(s.last())
    }
}

/// A text as a quoted string.
pub open spec fn quoted(s: Seq<char>) -> Seq<char> {
    seq!['"'] + escaped(s) + seq!['"']
}

/// The message for a float whose text is not the literal of a finite double.
pub open spec fn msg_invalid_float(literal: Seq<char>) -> Seq<char> {
    "invalid float literal '"@ + literal + "'"@
}

/// The text of a float that cannot be written, if the number is one: a text
/// that is not the literal of a finite double.
pub open spec fn number_fault(n: NumberModel) -> Option<Seq<char>> {
    match n {
        NumberModel::Float(literal) => if finite_float_literal(literal) {
            None
        } else {
            Some(literal)
        },
        _ => None,
    }
}

/// How a number stands in the text.
pub open spec fn number_text(n: NumberModel) -> Seq<char> {
    match n {
        NumberModel::Integer(i) => signed_decimal(i),
        NumberModel::Float(literal) => literal,
        NumberModel::Nan => "nan"@,
        NumberModel::Infinity(positive) => if positive {
            "inf"@
        } else {
            "-inf"@
        },
    }
}

/// Model of a [`Serializer`]: the text so far and the level of indentation.
pub struct SerializerModel {
    pub output: Seq<char>,
    pub indent_level: usize,
}

impl SerializerModel {
    /// The state with `text` appended.
    pub open spec fn write(self, text: Seq<char>) -> SerializerModel {
        SerializerModel { output: self.output + text, indent_level: self.indent_level }
    }

    /// The state one level deeper; the deepest level stays.
    pub open spec fn deeper(self) -> SerializerModel {
        SerializerModel {
            output: self.output,
            indent_level: if self.indent_level < usize::MAX {
                (self.indent_level + 1) as usize
            } else {
                self.indent_level
            },
        }
    }

    /// The state one level less deep; level 0 stays.
    pub open spec fn shallower(self) -> SerializerModel {
        SerializerModel {
            output: self.output,
            indent_level: if self.indent_level > 0 {
                (self.indent_level - 1) as usize
            } else {
                0
            },
        }
    }
}

/// A writer of the format, into a text.
pub struct Serializer {
    output: Vec<char>,
    indent_level: usize,
}

impl View for Serializer {
    type V = SerializerModel;

    closed spec fn view(&self) -> SerializerModel {
        SerializerModel { output: self.output@, indent_level: self.indent_level }
    }
}

impl Serializer {
    /// A serializer with no text, at level 0.
    pub fn new() -> (s: Serializer)
        ensures
            s@ == (SerializerModel { output: Seq::empty(), indent_level: 0 }),
    {
        Serializer { output: Vec::new(), indent_level: 0 }
    }

    fn push_str(&mut self, text: &str)
        ensures
            final(self)@ == old(self)@.write(text@),
    {
        let ghost before = self.output@;
        for c in it: text.chars()
            invariant
                it.seq() == text@,
                self.indent_level == old(self).indent_level,
                self.output@ == before + text@.take(it.index() as int),
        {
            self.output.push(c);
            assert(self.output@ =~= before + text@.take(it.index() + 1));
        }
        assert(text@.take(text@.len() as int) =~= text@);
    }

    fn push_seq(&mut self, chars: &[char], from: usize, to: usize)
        requires
            from <= to <= chars@.len(),
        ensures
            final(self)@ == old(self)@.write(chars@.subrange(from as int, to as int)),
    {
        let ghost before = self.output@;
        let mut i: usize = from;
        assert(self.output@ =~= before + chars@.subrange(from as int, i as int));
        while i < to
            invariant
                from <= i <= to <= chars@.len(),
                self.indent_level == old(self).indent_level,
                self.output@ == before + chars@.subrange(from as int, i as int),
            decreases to - i,
        {
            self.output.push(chars[i]);
            i += 1;
            assert(self.output@ =~= before + chars@.subrange(from as int, i as int));
        }
    }

    fn push_char(&mut self, c: char)
        ensures
            final(self)@ == old(self)@.write(seq![c]),
    {
        self.output.push(c);
        assert(self.output@ =~= old(self).output@ + seq![c]);
    }

    /// The indentation of the current level.
    pub fn indent(&self) -> (text: String)
        ensures
            text@ == indentation(self@.indent_level as nat),
    {
        let mut text = String::new();
        let mut i: usize = 0;
        assert(text@ =~= indentation(0));
        while i < self.indent_level
            invariant
                i <= self.indent_level,
                text@ == indentation(i as nat),
            decreases self.indent_level - i,
        {
            text.push(' ');
            text.push(' ');
            i += 1;
            assert(text@ =~= indentation(i as nat));
        }
        text
    }

    fn push_indent(&mut self)
        ensures
            final(self)@ == old(self)@.write(indentation(old(self)@.indent_level as nat)),
    {
        let ghost before = self.output@;
        let mut i: usize = 0;
        assert(self.output@ =~= before + indentation(0));
        while i < self.indent_level
            invariant
                i <= self.indent_level,
                self.indent_level == old(self).indent_level,
                self.output@ == before + indentation(i as nat),
            decreases self.indent_level - i,
        {
            self.output.push(' ');
            self.output.push(' ');
            i += 1;
            assert(self.output@ =~= before + indentation(i as nat));
        }
    }

    /// Starts a new line.
    pub fn newline(&mut self)
        ensures
            final(self)@ == old(self)@.write(seq!['\n']),
    {
        self.push_char('\n');
    }

    /// Goes one level deeper.
    pub fn increase_indent(&mut self)
        ensures
            final(self)@ == old(self)@.deeper(),
    {
        if self.indent_level < usize::MAX {
            self.indent_level += 1;
        }
    }

    /// Goes one level back.
    pub fn decrease_indent(&mut self)
        ensures
            final(self)@ == old(self)@.shallower(),
    {
        if self.indent_level > 0 {
            self.indent_level -= 1;
        }
    }

    fn push_escaped(&mut self, c: char)
        ensures
            final(self)@ == old(self)@.write(escape(c)),
    {
        let ghost before = self.output@;
        if c == '"' {
            self.output.push('\\');
            self.output.push('"');
        } else if c == '\\' {
            self.output.push('\\');
            self.output.push('\\');
        } else if c == '\n' {
            self.output.push('\\');
            self.output.push('n');
        } else if c == '\t' {
            self.output.push('\\');
            self.output.push('t');
        } else if c == '\r' {
            self.output.push('\\');
            self.output.push('r');
        } else if c == '\u{8}' {
            self.output.push('\\');
            self.output.push('b');
        } else if c == '\u{c}' {
            self.output.push('\\');
            self.output.push('f');
        } else if c == '/' {
            self.output.push('\\');
            self.output.push('/');
        } else if char_is_control(c) {
            let code: u32 = c as u32;
            self.output.push('\\');
            self.output.push('u');
            self.output.push('0');
            self.output.push('0');
            self.output.push(hex_digit_to_char((code / 16) as u8));
            self.output.push(hex_digit_to_char((code % 16) as u8));
        } else {
            self.output.push(c);
        }
        assert(self.output@ =~= before + escape(c));
    }

    /// Writes `s` as a quoted string.
    pub fn write_string(&mut self, s: &str) -> (r: Result<()>)
        ensures
            r is Ok,
            final(self)@ == old(self)@.write(quoted(s@)),
    {
        let ghost before = self.output@;
        self.output.push('"');
        for c in it: s.chars()
            invariant
                it.seq() == s@,
                self.indent_level == old(self).indent_level,
                self.output@ == before + seq!['"'] + escaped(s@.take(it.index() as int)),
        {
            let ghost k = it.index() as int;
            self.push_escaped(c);
            assert(s@.take(k + 1).drop_last() =~= s@.take(k));
            assert(self.output@ =~= before + seq!['"'] + escaped(s@.take(k + 1)));
        }
        self.output.push('"');
        assert(s@.take(s@.len() as int) =~= s@);
        assert(self.output@ =~= before + quoted(s@));
        Ok(())
    }

    /// The text that was written.
    pub fn into_string(self) -> (text: String)
        ensures
            text@ == self@.output,
    {
        string_of(self.output.as_slice(), 0, self.output.len())
    }

    /// Writes `true` or `false`.
    pub fn serialize_bool(&mut self, v: bool) -> (r: Result<()>)
        ensures
            r is Ok,
            final(self)@ == old(self)@.write(
                if v {
                    "true"@
                } else {
                    "false"@
                },
            ),
    {
        self.push_str(
            if v {
                "true"
            } else {
                "false"
            },
        );
        Ok(())
    }

    /// Writes an integer in decimal.
    pub fn serialize_i64(&mut self, v: i64) -> (r: Result<()>)
        ensures
            r is Ok,
            final(self)@ == old(self)@.write(signed_decimal(v as int)),
    {
        let mut text = String::new();
        if v < 0 {
            text.push('-');
            let magnitude: u64 = if v == i64::MIN {
                0x8000_0000_0000_0000
            } else {
                (-v) as u64
            };
            push_decimal(&mut text, magnitude);
            assert(text@ =~= signed_decimal(v as int));
        } else {
            push_decimal(&mut text, v as u64);
            assert(text@ =~= signed_decimal(v as int));
        }
        self.push_str(text.as_str());
        Ok(())
    }

    /// Writes an integer of 8 bits.
    pub fn serialize_i8(&mut self, v: i8) -> (r: Result<()>)
        ensures
            r is Ok,
            final(self)@ == old(self)@.write(signed_decimal(v as int)),
    {
        self.serialize_i64(v as i64)
    }

    /// Writes an integer of 16 bits.
    pub fn serialize_i16(&mut self, v: i16) -> (r: Result<()>)
        ensures
            r is Ok,
            final(self)@ == old(self)@.write(signed_decimal(v as int)),
    {
        self.serialize_i64(v as i64)
    }

    /// Writes an integer of 32 bits.
    pub fn serialize_i32(&mut self, v: i32) -> (r: Result<()>)
        ensures
            r is Ok,
            final(self)@ == old(self)@.write(signed_decimal(v as int)),
    {
        self.serialize_i64(v as i64)
    }

    /// Writes an unsigned integer in decimal.
    pub fn serialize_u64(&mut self, v: u64) -> (r: Result<()>)
        ensures
            r is Ok,
            final(self)@ == old(self)@.write(decimal(v as nat)),
    {
        let mut text = String::new();
        push_decimal(&mut text, v);
        assert(text@ =~= decimal(v as nat));
        self.push_str(text.as_str());
        Ok(())
    }

    /// Writes an unsigned integer of 8 bits.
    pub fn serialize_u8(&mut self, v: u8) -> (r: Result<()>)
        ensures
            r is Ok,
            final(self)@ == old(self)@.write(decimal(v as nat)),
    {
        self.serialize_u64(v as u64)
    }

    /// Writes an unsigned integer of 16 bits.
    pub fn serialize_u16(&mut self, v: u16) -> (r: Result<()>)
        ensures
            r is Ok,
            final(self)@ == old(self)@.write(decimal(v as nat)),
    {
        self.serialize_u64(v as u64)
    }

    /// Writes an unsigned integer of 32 bits.
    pub fn serialize_u32(&mut self, v: u32) -> (r: Result<()>)
        ensures
            r is Ok,
            final(self)@ == old(self)@.write(decimal(v as nat)),
    {
        self.serialize_u64(v as u64)
    }

    /// Writes a number: an integer in decimal, a float as its literal, and
    /// `nan`, `inf` or `-inf`. A float whose text is not the literal of a
    /// finite double is refused, and nothing is written.
    pub fn serialize_number(&mut self, v: &HumlNumber) -> (r: Result<()>)
        ensures
            match number_fault(v@) {
                None => r is Ok && final(self)@ == old(self)@.write(number_text(v@)),
                Some(literal) => r matches Err(e) && e@ == ErrorModel::Message(
                    msg_invalid_float(literal),
                ) && final(self)@ == old(self)@,
            },
    {
        match v {
            HumlNumber::Integer(i) => self.serialize_i64(*i),
            HumlNumber::Float(literal) => {
                let chars = to_chars(literal.as_str());
                if is_finite_float_literal(chars.as_slice()) {
                    self.push_str(literal.as_str());
                    Ok(())
                } else {
                    let mut msg = String::from_str("invalid float literal '");
                    msg.append(literal.as_str());
                    msg.append("'");
                    Err(Error::Message(msg))
                }
            },
            HumlNumber::Nan => {
                self.push_str("nan");
                Ok(())
            },
            HumlNumber::Infinity(positive) => {
                if *positive {
                    self.push_str("inf");
                } else {
                    self.push_str("-inf");
                }
                Ok(())
            },
        }
    }

    /// Writes a character as a quoted string.
    pub fn serialize_char(&mut self, v: char) -> (r: Result<()>)
        ensures
            r is Ok,
            final(self)@ == old(self)@.write(quoted(seq![v])),
    {
        let mut text = String::new();
        text.push(v);
        assert(text@ =~= seq![v]);
        self.write_string(text.as_str())
    }

    /// Writes a quoted string.
    pub fn serialize_str(&mut self, v: &str) -> (r: Result<()>)
        ensures
            r is Ok,
            final(self)@ == old(self)@.write(quoted(v@)),
    {
        self.write_string(v)
    }

    /// Writes `null` for an absent value.
    pub fn serialize_none(&mut self) -> (r: Result<()>)
        ensures
            r is Ok,
            final(self)@ == old(self)@.write("null"@),
    {
        self.serialize_unit()
    }

    /// Writes `null`.
    pub fn serialize_unit(&mut self) -> (r: Result<()>)
        ensures
            r is Ok,
            final(self)@ == old(self)@.write("null"@),
    {
        self.push_str("null");
        Ok(())
    }

    /// Writes `null` for a struct without fields.
    pub fn serialize_unit_struct(&mut self) -> (r: Result<()>)
        ensures
            r is Ok,
            final(self)@ == old(self)@.write("null"@),
    {
        self.serialize_unit()
    }

    /// Writes a variant without content: its name, as a quoted string.
    pub fn serialize_unit_variant(&mut self, variant: &str) -> (r: Result<()>)
        ensures
            r is Ok,
            final(self)@ == old(self)@.write(quoted(variant@)),
    {
        self.serialize_str(variant)
    }

    /// Writes the start of a variant around one value: its name, `:` and a
    /// space. The value follows.
    pub fn serialize_newtype_variant(&mut self, variant: &str) -> (r: Result<()>)
        ensures
            r is Ok,
            final(self)@ == old(self)@.write(variant@ + ": "@),
    {
        self.push_str(variant);
        self.push_str(": ");
        assert(self.output@ =~= old(self).output@ + (variant@ + ": "@));
        Ok(())
    }
}

/// The separator before an element of a sequence: nothing before the first,
/// a comma and a space before each other.
pub open spec fn element_separator(first: bool) -> Seq<char> {
    if first {
        Seq::empty()
    } else {
        ", "@
    }
}

/// The text with the key that starts at `start` written without its quotes,
/// where the key is a quoted string whose content can stand without them.
pub open spec fn key_finished(output: Seq<char>, start: int) -> Seq<char> {
    let key = output.subrange(start, output.len() as int);
    if key.len() >= 2 && key[0] == '"' && key.last() == '"' && valid_unquoted_key(
        key.subrange(1, key.len() - 1),
    ) {
        output.subrange(0, start) + key.subrange(1, key.len() - 1)
    } else {
        output
    }
}

/// Whether a comma and then a space stand in `t` from `pos` on.
pub open spec fn has_comma_space(t: Seq<char>, pos: int) -> bool
    decreases t.len() - pos,
{
    if pos < 0 || pos + 1 >= t.len() {
        false
    } else {
        (t[pos] == ',' && t[pos + 1] == ' ') || has_comma_space(t, pos + 1)
    }
}

/// The lines of `t` from `pos` on, each without the white space at its ends
/// and with an indentation of `level` before it, joined by line feeds. A line
/// of white space alone stays empty.
pub open spec fn reindented(t: Seq<char>, pos: int, level: nat, first: bool) -> Seq<char>
    decreases t.len() - pos,
{
    if pos < 0 || pos >= t.len() {
        Seq::empty()
    } else {
        let e = line_end(t, pos);
        let line = trimmed(t.subrange(pos, e));
        let separator = if first {
            Seq::<char>::empty()
        } else {
            seq!['\n']
        };
        let body = if line.len() > 0 {
            indentation(level) + line
        } else {
            line
        };
        proof {
            lemma_line_end(t, pos);
        }
        if e < t.len() {
            separator + body + reindented(t, e + 1, level, false)
        } else {
            separator + body
        }
    }
}

/// The state with the value that starts at `start` given its indicator. A
/// value of several lines goes under `::`, each line on a line of its own, one
/// level deeper; a value with a comma and a space in it that is no dict goes
/// after `::` and a space; any other after `:` and a space.
pub open spec fn value_finished(st: SerializerModel, start: int) -> SerializerModel {
    let head = st.output.subrange(0, start);
    let value = st.output.subrange(start, st.output.len() as int);
    let e = line_end(value, 0);
    if e < value.len() {
        if e + 1 < value.len() {
            SerializerModel {
                output: head + "::"@ + seq!['\n'] + reindented(
                    value,
                    0,
                    st.deeper().indent_level as nat,
                    true,
                ),
                indent_level: st.deeper().shallower().indent_level,
            }
        } else {
            SerializerModel {
                output: head + "::"@ + seq!['\n'] + value,
                indent_level: st.indent_level,
            }
        }
    } else if has_comma_space(value, 0) && value[0] != '{' {
        SerializerModel { output: head + ":: "@ + value, indent_level: st.indent_level }
    } else {
        SerializerModel { output: head + ": "@ + value, indent_level: st.indent_level }
    }
}

impl Serializer {
    /// The number of characters written so far.
    pub fn position(&self) -> (n: usize)
        ensures
            n == self@.output.len(),
    {
        self.output.len()
    }

    /// Starts a sequence of `len` elements, if the number is known: an empty
    /// one is written `[]` at once.
    pub fn serialize_seq(&mut self, len: Option<usize>) -> (r: Result<SeqSerializer>)
        ensures
            r matches Ok(seq) && seq.first && seq.empty == (len == Some(0usize)),
            final(self)@ == old(self)@.write(
                if len == Some(0usize) {
                    "[]"@
                } else {
                    Seq::empty()
                },
            ),
    {
        match len {
            Some(0) => {
                self.push_str("[]");
                Ok(SeqSerializer::empty())
            },
            _ => {
                assert(self.output@ =~= self.output@ + Seq::<char>::empty());
                Ok(SeqSerializer::new())
            },
        }
    }

    /// Starts a tuple of `len` elements.
    pub fn serialize_tuple(&mut self, len: usize) -> (r: Result<SeqSerializer>)
        ensures
            r matches Ok(seq) && seq.first && seq.empty == (len == 0),
            final(self)@ == old(self)@.write(
                if len == 0 {
                    "[]"@
                } else {
                    Seq::empty()
                },
            ),
    {
        self.serialize_seq(Some(len))
    }

    /// Starts a tuple struct of `len` fields.
    pub fn serialize_tuple_struct(&mut self, len: usize) -> (r: Result<SeqSerializer>)
        ensures
            r matches Ok(seq) && seq.first && seq.empty == (len == 0),
            final(self)@ == old(self)@.write(
                if len == 0 {
                    "[]"@
                } else {
                    Seq::empty()
                },
            ),
    {
        self.serialize_seq(Some(len))
    }

    /// Writes bytes, as a sequence of numbers.
    pub fn serialize_bytes(&mut self, v: &[u8]) -> (r: Result<()>)
        ensures
            r is Ok,
            final(self)@ == old(self)@.write(bytes_text(v@)),
    {
        let ghost before = self.output@;
        let mut seq = self.serialize_seq(Some(v.len()))?;
        let mut i: usize = 0;
        assert(v@.take(0) =~= Seq::<u8>::empty());
        if v.len() == 0 {
            return Ok(());
        }
        assert(self.output@ =~= before + bytes_joined(v@.take(0)));
        while i < v.len()
            invariant
                i <= v@.len(),
                v@.len() > 0,
                !seq.empty,
                seq.first == (i == 0),
                self.indent_level == old(self).indent_level,
                self.output@ == before + bytes_joined(v@.take(i as int)),
            decreases v@.len() - i,
        {
            if seq.serialize_element(self) {
                self.serialize_u8(v[i])?;
            }
            assert(v@.take(i + 1).drop_last() =~= v@.take(i as int));
            assert(self.output@ =~= before + bytes_joined(v@.take(i + 1)));
            i += 1;
        }
        assert(v@.take(v@.len() as int) =~= v@);
        seq.end()
    }

    /// Starts a variant with a tuple: its name, `:` and a space.
    pub fn serialize_tuple_variant(&mut self, variant: &str) -> (r: Result<TupleVariantSerializer>)
        ensures
            r matches Ok(t) && t.first,
            final(self)@ == old(self)@.write(variant@ + ": "@),
    {
        self.push_str(variant);
        self.push_str(": ");
        assert(self.output@ =~= old(self).output@ + (variant@ + ": "@));
        Ok(TupleVariantSerializer::new())
    }

    /// Starts a map of `len` entries, if the number is known: an empty one is
    /// written `{}` at once.
    pub fn serialize_map(&mut self, len: Option<usize>) -> (r: Result<MapSerializer>)
        ensures
            r matches Ok(map) && map.first && !map.inline && map.empty == (len == Some(0usize)),
            final(self)@ == old(self)@.write(
                if len == Some(0usize) {
                    "{}"@
                } else {
                    Seq::empty()
                },
            ),
    {
        match len {
            Some(0) => {
                self.push_str("{}");
                Ok(MapSerializer::empty())
            },
            _ => {
                assert(self.output@ =~= self.output@ + Seq::<char>::empty());
                Ok(MapSerializer::new(false))
            },
        }
    }

    /// Starts a struct of `len` fields.
    pub fn serialize_struct(&mut self, len: usize) -> (r: Result<MapSerializer>)
        ensures
            r matches Ok(map) && map.first && !map.inline && map.empty == (len == 0),
            final(self)@ == old(self)@.write(
                if len == 0 {
                    "{}"@
                } else {
                    Seq::empty()
                },
            ),
    {
        self.serialize_map(Some(len))
    }

    /// Starts a variant with fields: its name, `::` and a line feed; the
    /// fields stand one level deeper.
    pub fn serialize_struct_variant(&mut self, variant: &str) -> (r: Result<
        StructVariantSerializer,
    >)
        ensures
            r matches Ok(sv) && sv.first,
            final(self)@ == old(self)@.write(variant@ + "::"@ + seq!['\n']).deeper(),
    {
        self.push_str(variant);
        self.push_str("::");
        self.push_char('\n');
        assert(self.output@ =~= old(self).output@ + (variant@ + "::"@ + seq!['\n']));
        Ok(StructVariantSerializer::new(self))
    }
}

/// The numbers of `bytes` in decimal, separated by a comma and a space.
pub open spec fn bytes_joined(bytes: Seq<u8>) -> Seq<char>
    decreases bytes.len(),
{
    if bytes.len() == 0 {
        Seq::empty()
    } else {
        bytes_joined(bytes.drop_last()) + element_separator(bytes.len() == 1) + decimal(
            bytes.last() as nat,
        )
    }
}

/// How bytes stand in the text.
pub open spec fn bytes_text(bytes: Seq<u8>) -> Seq<char> {
    if bytes.len() == 0 {
        "[]"@
    } else {
        bytes_joined(bytes)
    }
}

/// The state of a sequence that is being written.
pub struct SeqSerializer {
    /// No element was written yet.
    pub first: bool,
    /// The sequence is empty and was written as `[]`.
    pub empty: bool,
}

impl SeqSerializer {
    fn new() -> (s: SeqSerializer)
        ensures
            s.first,
            !s.empty,
    {
        SeqSerializer { first: true, empty: false }
    }

    fn empty() -> (s: SeqSerializer)
        ensures
            s.first,
            s.empty,
    {
        SeqSerializer { first: true, empty: true }
    }

    /// Before an element: writes the separator, and tells whether the element
    /// is to be written.
    pub fn serialize_element(&mut self, ser: &mut Serializer) -> (write: bool)
        ensures
            write == !old(self).empty,
            final(self).empty == old(self).empty,
            final(self).first == (old(self).first && old(self).empty),
            final(ser)@ == if old(self).empty {
                old(ser)@
            } else {
                old(ser)@.write(element_separator(old(self).first))
            },
    {
        if self.empty {
            return false;
        }
        if self.first {
            self.first = false;
            assert(ser.output@ =~= ser.output@ + Seq::<char>::empty());
        } else {
            ser.push_str(", ");
        }
        true
    }

    /// Before a field of a tuple struct.
    pub fn serialize_field(&mut self, ser: &mut Serializer) -> (write: bool)
        ensures
            write == !old(self).empty,
            final(self).empty == old(self).empty,
            final(self).first == (old(self).first && old(self).empty),
            final(ser)@ == if old(self).empty {
                old(ser)@
            } else {
                old(ser)@.write(element_separator(old(self).first))
            },
    {
        self.serialize_element(ser)
    }

    /// The end of the sequence.
    pub fn end(self) -> (r: Result<()>)
        ensures
            r is Ok,
    {
        Ok(())
    }
}

/// The state of a variant with a tuple that is being written.
pub struct TupleVariantSerializer {
    /// No field was written yet.
    pub first: bool,
}

impl TupleVariantSerializer {
    fn new() -> (s: TupleVariantSerializer)
        ensures
            s.first,
    {
        TupleVariantSerializer { first: true }
    }

    /// Before a field: writes the separator.
    pub fn serialize_field(&mut self, ser: &mut Serializer)
        ensures
            !final(self).first,
            final(ser)@ == old(ser)@.write(element_separator(old(self).first)),
    {
        if self.first {
            self.first = false;
            assert(ser.output@ =~= ser.output@ + Seq::<char>::empty());
        } else {
            ser.push_str(", ");
        }
    }

    /// The end of the variant.
    pub fn end(self) -> (r: Result<()>)
        ensures
            r is Ok,
    {
        Ok(())
    }
}

/// The state of a map or a struct that is being written.
pub struct MapSerializer {
    /// No entry was written yet.
    pub first: bool,
    /// The map is empty and was written as `{}`.
    pub empty: bool,
    /// The entries stand on one line.
    pub inline: bool,
}

/// What stands before a key: nothing before the first; before each other a
/// comma and a space on one line, else a line feed; then, unless on one line,
/// the indentation.
pub open spec fn key_prefix(first: bool, inline: bool, level: nat) -> Seq<char> {
    (if first {
        Seq::<char>::empty()
    } else if inline {
        ", "@
    } else {
        seq!['\n']
    }) + (if inline {
        Seq::<char>::empty()
    } else {
        indentation(level)
    })
}

impl MapSerializer {
    fn new(inline: bool) -> (s: MapSerializer)
        ensures
            s.first,
            !s.empty,
            s.inline == inline,
    {
        MapSerializer { first: true, empty: false, inline }
    }

    fn empty() -> (s: MapSerializer)
        ensures
            s.first,
            s.empty,
            !s.inline,
    {
        MapSerializer { first: true, empty: true, inline: false }
    }

    /// Before a key: writes what stands before it and gives the position at
    /// which the key starts; `None` where the key is not to be written.
    pub fn serialize_key(&mut self, ser: &mut Serializer) -> (start: Option<usize>)
        ensures
            final(self).empty == old(self).empty,
            final(self).inline == old(self).inline,
            final(self).first == (old(self).first && old(self).empty),
            if old(self).empty {
                start is None && final(ser)@ == old(ser)@
            } else {
                &&& final(ser)@ == old(ser)@.write(
                    key_prefix(old(self).first, old(self).inline, old(ser)@.indent_level as nat),
                )
                &&& start matches Some(p) && p == final(ser)@.output.len()
            },
    {
        if self.empty {
            return None;
        }
        let ghost before = ser.output@;
        if self.first {
            self.first = false;
        } else if self.inline {
            ser.push_str(", ");
        } else {
            ser.newline();
        }
        let ghost middle = ser.output@;
        if !self.inline {
            ser.push_indent();
        }
        assert(ser.output@ =~= before + key_prefix(
            old(self).first,
            old(self).inline,
            old(ser)@.indent_level as nat,
        ));
        Some(ser.position())
    }

    /// After a key that was written from `start` on: takes its quotes away
    /// where it can stand without them.
    pub fn finish_key(&self, ser: &mut Serializer, start: usize)
        requires
            start <= old(ser)@.output.len(),
        ensures
            final(ser)@.output == key_finished(old(ser)@.output, start as int),
            final(ser)@.indent_level == old(ser)@.indent_level,
    {
        let len = ser.output.len();
        let ghost output = ser.output@;
        let ghost key = output.subrange(start as int, len as int);
        if len - start >= 2 && ser.output[start] == '"' && ser.output[len - 1] == '"' {
            assert(output.subrange(start + 1, len - 1) =~= key.subrange(1, key.len() - 1));
            if is_valid_unquoted(ser.output.as_slice(), start + 1, len - 1) {
                let inner = copy_range(ser.output.as_slice(), start + 1, len - 1);
                ser.output.truncate(start);
                ser.push_seq(inner.as_slice(), 0, inner.len());
                assert(inner@.subrange(0, inner@.len() as int) =~= inner@);
            }
        }
    }

    /// Before a value: gives the position at which the value starts; `None`
    /// where the value is not to be written.
    pub fn serialize_value(&mut self, ser: &mut Serializer) -> (start: Option<usize>)
        ensures
            *final(self) == *old(self),
            final(ser)@ == old(ser)@,
            if old(self).empty {
                start is None
            } else {
                start matches Some(p) && p == old(ser)@.output.len()
            },
    {
        if self.empty {
            return None;
        }
        Some(ser.position())
    }

    /// After a value that was written from `start` on: gives it its indicator.
    pub fn finish_value(&self, ser: &mut Serializer, start: usize)
        requires
            start <= old(ser)@.output.len(),
        ensures
            final(ser)@ == value_finished(old(ser)@, start as int),
            extends(old(ser)@.output.subrange(0, start as int), final(ser)@.output),
    {
        let ghost st = ser@;
        let ghost head = ser.output@.subrange(0, start as int);
        let value = copy_range(ser.output.as_slice(), start, ser.output.len());
        ser.output.truncate(start);
        assert(ser.output@ =~= head);
        let mut e: usize = 0;
        while e < value.len() && value[e] != '\n'
            invariant
                e <= value@.len(),
                line_end(value@, e as int) == line_end(value@, 0),
            decreases value@.len() - e,
        {
            e += 1;
        }
        if e < value.len() {
            ser.push_str("::");
            ser.push_char('\n');
            if value.len() - e > 1 {
                ser.increase_indent();
                let ghost base = ser.output@;
                let ghost level = ser.indent_level as nat;
                let mut pos: usize = 0;
                let mut first = true;
                assert(ser.output@ + reindented(value@, 0, level, true) =~= base + reindented(
                    value@,
                    0,
                    level,
                    true,
                ));
                while pos < value.len()
                    invariant
                        pos <= value@.len(),
                        ser.indent_level == level,
                        ser.output@ + reindented(value@, pos as int, level, first) == base
                            + reindented(value@, 0, level, true),
                    decreases value@.len() - pos,
                {
                    let ghost before = ser.output@;
                    let ghost line_pos = pos as int;
                    let ghost was_first = first;
                    let mut end: usize = pos;
                    while end < value.len() && value[end] != '\n'
                        invariant
                            pos <= end <= value@.len(),
                            line_end(value@, end as int) == line_end(value@, pos as int),
                        decreases value@.len() - end,
                    {
                        end += 1;
                    }
                    let (a, b) = trim_bounds(value.as_slice(), pos, end);
                    if !first {
                        ser.newline();
                    }
                    first = false;
                    if b > a {
                        ser.push_indent();
                        ser.push_seq(value.as_slice(), a, b);
                    }
                    pos = if end < value.len() {
                        end + 1
                    } else {
                        end
                    };
                    proof {
                        let line = trimmed(value@.subrange(line_pos, end as int));
                        let separator = if was_first {
                            Seq::<char>::empty()
                        } else {
                            seq!['\n']
                        };
                        let body = if line.len() > 0 {
                            indentation(level) + line
                        } else {
                            line
                        };
                        assert(ser.output@ =~= before + separator + body);
                        let tail = reindented(value@, pos as int, level, false);
                        assert(reindented(value@, line_pos, level, was_first) == if end
                            < value@.len() {
                            separator + body + tail
                        } else {
                            separator + body
                        });
                        assert(tail =~= Seq::<char>::empty() || end < value@.len());
                        assert(before + (separator + body + tail) =~= before + separator + body
                            + tail);
                    }
                }
                proof {
                    assert(ser.output@ =~= base + reindented(value@, 0, level, true));
                }
                ser.decrease_indent();
            } else {
                ser.push_seq(value.as_slice(), 0, value.len());
                assert(value@.subrange(0, value@.len() as int) =~= value@);
            }
        } else {
            let mut found = false;
            let mut i: usize = 0;
            while i < value.len() && value.len() - i > 1
                invariant_except_break
                    !found,
                    has_comma_space(value@, i as int) == has_comma_space(value@, 0),
                invariant
                    i <= value@.len(),
                ensures
                    found == has_comma_space(value@, 0),
                decreases value@.len() - i,
            {
                if value[i] == ',' && value[i + 1] == ' ' {
                    found = true;
                    break ;
                }
                i += 1;
            }
            if found && value[0] != '{' {
                ser.push_str(":: ");
            } else {
                ser.push_str(": ");
            }
            ser.push_seq(value.as_slice(), 0, value.len());
            assert(value@.subrange(0, value@.len() as int) =~= value@);
        }
        proof {
            assert(value_finished(st, start as int).output.subrange(0, start as int) =~= head);
            assert(head.len() == start);
        }
    }

    /// The end of the map.
    pub fn end(self) -> (r: Result<()>)
        ensures
            r is Ok,
    {
        Ok(())
    }
}

/// The characters `chars[from..to]`.
fn copy_range(chars: &[char], from: usize, to: usize) -> (out: Vec<char>)
    requires
        from <= to <= chars@.len(),
    ensures
        out@ == chars@.subrange(from as int, to as int),
{
    let mut out: Vec<char> = Vec::new();
    let mut i: usize = from;
    assert(out@ =~= chars@.subrange(from as int, i as int));
    while i < to
        invariant
            from <= i <= to <= chars@.len(),
            out@ == chars@.subrange(from as int, i as int),
        decreases to - i,
    {
        out.push(chars[i]);
        i += 1;
        assert(out@ =~= chars@.subrange(from as int, i as int));
    }
    out
}

/// The state of a variant with fields that is being written.
pub struct StructVariantSerializer {
    /// No field was written yet.
    pub first: bool,
}

impl StructVariantSerializer {
    fn new(ser: &mut Serializer) -> (s: StructVariantSerializer)
        ensures
            s.first,
            final(ser)@ == old(ser)@.deeper(),
    {
        ser.increase_indent();
        StructVariantSerializer { first: true }
    }

    /// Before the value of a field: writes a line feed unless the field is the
    /// first, the indentation, the key, `:` and a space.
    pub fn serialize_field(&mut self, ser: &mut Serializer, key: &str)
        ensures
            !final(self).first,
            final(ser)@ == old(ser)@.write(
                key_prefix(old(self).first, false, old(ser)@.indent_level as nat) + key@ + ": "@,
            ),
    {
        let ghost before = ser.output@;
        if self.first {
            self.first = false;
        } else {
            ser.newline();
        }
        ser.push_indent();
        ser.push_str(key);
        ser.push_str(": ");
        assert(ser.output@ =~= before + (key_prefix(
            old(self).first,
            false,
            old(ser)@.indent_level as nat,
        ) + key@ + ": "@));
    }

    /// The end of the variant: back to the level before it.
    pub fn end(self, ser: &mut Serializer) -> (r: Result<()>)
        ensures
            r is Ok,
            final(ser)@ == old(ser)@.shallower(),
    {
        ser.decrease_indent();
        Ok(())
    }
}

/// Whether the text `b` starts with the text `a`.
pub open spec fn extends(a: Seq<char>, b: Seq<char>) -> bool {
    a.len() <= b.len() && b.subrange(0, a.len() as int) == a
}

/// The state after a key was written: before it what stands before a key,
/// and the key without quotes where it can stand so.
pub open spec fn emit_key(st: SerializerModel, first: bool, key: Seq<char>) -> SerializerModel {
    let before = st.write(key_prefix(first, false, st.indent_level as nat));
    SerializerModel {
        output: key_finished(before.write(quoted(key)).output, before.output.len() as int),
        indent_level: st.indent_level,
    }
}

/// The state after a value was written: a string quoted, a number, `true`,
/// `false` and `null` as they are, a list as its elements separated by a comma
/// and a space, a dict as its entries on a line each; the empty ones as `[]`
/// and `{}`.
pub open spec fn emit(st: SerializerModel, t: Tree) -> SerializerModel
    decreases t, 0nat,
{
    match t {
        Tree::Text(s) => st.write(quoted(s)),
        Tree::Number(n) => st.write(number_text(n)),
        Tree::Boolean(b) => st.write(
            if b {
                "true"@
            } else {
                "false"@
            },
        ),
        Tree::Null => st.write("null"@),
        Tree::List(items) => if items.len() == 0 {
            st.write("[]"@)
        } else {
            emit_items(st, items, 0)
        },
        Tree::Dict(entries) => if entries.len() == 0 {
            st.write("{}"@)
        } else {
            emit_entries(st, entries, 0)
        },
    }
}

/// The state after the elements of a list from the one at `i` on were
/// written.
pub open spec fn emit_items(st: SerializerModel, items: Seq<Tree>, i: int) -> SerializerModel
    decreases items, items.len() - i,
{
    if i < 0 || i >= items.len() {
        st
    } else {
        emit_items(emit(st.write(element_separator(i == 0)), items[i]), items, i + 1)
    }
}

/// The state after the entries of a dict from the one at `i` on were written:
/// of each the key, then the value with its indicator.
pub open spec fn emit_entries(st: SerializerModel, entries: Seq<(Seq<char>, Tree)>, i: int)
    -> SerializerModel
    decreases entries, entries.len() - i,
{
    if i < 0 || i >= entries.len() {
        st
    } else {
        let keyed = emit_key(st, i == 0, entries[i].0);
        emit_entries(
            value_finished(emit(keyed, entries[i].1), keyed.output.len() as int),
            entries,
            i + 1,
        )
    }
}

/// The text of the first float in `t`, in the order of writing, that cannot be
/// written; `None` if every float in `t` is the literal of a finite double.
pub open spec fn fault(t: Tree) -> Option<Seq<char>>
    decreases t, 0nat,
{
    match t {
        Tree::Number(n) => number_fault(n),
        Tree::List(items) => items_fault(items, 0),
        Tree::Dict(entries) => entries_fault(entries, 0),
        _ => None,
    }
}

/// The first fault in the elements of a list from the one at `i` on.
pub open spec fn items_fault(items: Seq<Tree>, i: int) -> Option<Seq<char>>
    decreases items, items.len() - i,
{
    if i < 0 || i >= items.len() {
        None
    } else {
        match fault(items[i]) {
            Some(literal) => Some(literal),
            None => items_fault(items, i + 1),
        }
    }
}

/// The first fault in the values of the entries of a dict from the one at `i`
/// on.
pub open spec fn entries_fault(entries: Seq<(Seq<char>, Tree)>, i: int) -> Option<Seq<char>>
    decreases entries, entries.len() - i,
{
    if i < 0 || i >= entries.len() {
        None
    } else {
        match fault(entries[i].1) {
            Some(literal) => Some(literal),
            None => entries_fault(entries, i + 1),
        }
    }
}

/// The state of a serializer that has written nothing.
pub open spec fn initial() -> SerializerModel {
    SerializerModel { output: Seq::empty(), indent_level: 0 }
}

/// Writes the key of an entry of a map on lines.
fn write_key(ser: &mut Serializer, map: &mut MapSerializer, key: &str)
    requires
        !old(map).empty,
        !old(map).inline,
    ensures
        final(ser)@ == emit_key(old(ser)@, old(map).first, key@),
        extends(old(ser)@.output, final(ser)@.output),
        !final(map).empty,
        !final(map).inline,
        !final(map).first,
{
    let ghost before = ser@;
    let start = map.serialize_key(ser);
    let ghost prefixed = ser@;
    match start {
        Some(start) => {
            ser.serialize_str(key);
            let ghost full = ser@.output;
            map.finish_key(ser, start);
            proof {
                let expected = emit_key(before, old(map).first, key@);
                assert(prefixed == before.write(
                    key_prefix(old(map).first, false, before.indent_level as nat),
                ));
                assert(full == prefixed.write(quoted(key@)).output);
                assert(start == prefixed.output.len());
                assert(ser@.output == key_finished(full, start as int));
                assert(ser@.output == expected.output);
                assert(ser@.indent_level == expected.indent_level);
                assert(full.subrange(0, prefixed.output.len() as int) =~= prefixed.output);
                assert(prefixed.output.subrange(0, before.output.len() as int) =~= before.output);
                assert(ser@.output.subrange(0, before.output.len() as int) =~= before.output);
            }
        },
        None => {},
    }
}

/// Writes `value`, up to the first float in it that cannot be written.
pub fn serialize_value(ser: &mut Serializer, value: &HumlValue) -> (r: Result<()>)
    ensures
        match fault(value.tree()) {
            None => r is Ok && final(ser)@ == emit(old(ser)@, value.tree()) && extends(
                old(ser)@.output,
                final(ser)@.output,
            ),
            Some(literal) => r matches Err(e) && e@ == ErrorModel::Message(
                msg_invalid_float(literal),
            ),
        },
    decreases value.tree(),
{
    let ghost st0 = ser@;
    proof {
        lemma_value_tree(value);
    }
    match value {
        HumlValue::String(s) => {
            ser.serialize_str(s.as_str())?;
            assert(ser@.output.subrange(0, st0.output.len() as int) =~= st0.output);
            Ok(())
        },
        HumlValue::Number(n) => {
            ser.serialize_number(n)?;
            assert(ser@.output.subrange(0, st0.output.len() as int) =~= st0.output);
            Ok(())
        },
        HumlValue::Boolean(b) => {
            ser.serialize_bool(*b)?;
            assert(ser@.output.subrange(0, st0.output.len() as int) =~= st0.output);
            Ok(())
        },
        HumlValue::Null => {
            ser.serialize_unit()?;
            assert(ser@.output.subrange(0, st0.output.len() as int) =~= st0.output);
            Ok(())
        },
        HumlValue::List(items) => {
            let ghost trees = value.tree()->List_0;
            let mut seq = ser.serialize_seq(Some(items.len()))?;
            assert(ser@.output.subrange(0, st0.output.len() as int) =~= st0.output);
            if items.len() == 0 {
                return seq.end();
            }
            assert(ser@ == st0) by {
                assert(ser@.output =~= st0.output);
            }
            let mut i: usize = 0;
            while i < items.len()
                invariant
                    i <= items.len(),
                    trees.len() == items.len(),
                    value.tree() == Tree::List(trees),
                    forall|j: int| 0 <= j < items.len() ==> #[trigger] trees[j] == items[j].tree(),
                    !seq.empty,
                    seq.first == (i == 0),
                    fault(value.tree()) == items_fault(trees, i as int),
                    emit_items(ser@, trees, i as int) == emit_items(st0, trees, 0),
                    extends(st0.output, ser@.output),
                decreases items.len() - i,
            {
                let ghost before = ser@;
                seq.serialize_element(ser);
                let ghost separated = ser@;
                proof {
                    assert(trees[i as int] == items[i as int].tree());
                    vstd::seq::axiom_seq_index_decreases(trees, i as int);
                    assert(value.tree() is List);
                    assert(decreases_to!(value.tree() => value.tree()->List_0));
                }
                serialize_value(ser, &items[i])?;
                proof {
                    assert(separated.output.subrange(0, before.output.len() as int)
                        =~= before.output);
                    assert(ser@.output.subrange(0, st0.output.len() as int)
                        =~= separated.output.subrange(0, st0.output.len() as int));
                    assert(separated.output.subrange(0, st0.output.len() as int)
                        =~= before.output.subrange(0, st0.output.len() as int));
                }
                i += 1;
            }
            seq.end()
        },
        HumlValue::Dict(dict) => {
            let ghost entries = dict.entry_trees();
            let n = dict.len();
            let mut map = ser.serialize_map(Some(n))?;
            assert(ser@.output.subrange(0, st0.output.len() as int) =~= st0.output);
            if n == 0 {
                return map.end();
            }
            assert(ser@ == st0) by {
                assert(ser@.output =~= st0.output);
            }
            let mut i: usize = 0;
            while i < n
                invariant
                    i <= n,
                    n == entries.len(),
                    n == dict@.dom().len(),
                    entries == dict.entry_trees(),
                    value.tree() == Tree::Dict(entries),
                    !map.empty,
                    !map.inline,
                    map.first == (i == 0),
                    fault(value.tree()) == entries_fault(entries, i as int),
                    emit_entries(ser@, entries, i as int) == emit_entries(st0, entries, 0),
                    extends(st0.output, ser@.output),
                decreases n - i,
            {
                let ghost before = ser@;
                let key = dict.key_at(i);
                let item = dict.value_at(i);
                assert(item.tree() == entries[i as int].1);
                write_key(ser, &mut map, key.as_str());
                let ghost keyed = ser@;
                let start = ser.position();
                proof {
                    vstd::seq::axiom_seq_index_decreases(entries, i as int);
                    assert(value.tree() is Dict);
                    assert(decreases_to!(value.tree() => value.tree()->Dict_0));
                    assert(decreases_to!(entries[i as int] => entries[i as int].1));
                }
                serialize_value(ser, item)?;
                let ghost valued = ser@;
                map.finish_value(ser, start);
                proof {
                    assert(valued.output.subrange(0, start as int) =~= keyed.output);
                    assert(ser@.output.subrange(0, start as int) =~= keyed.output);
                    assert(ser@.output.subrange(0, st0.output.len() as int)
                        =~= keyed.output.subrange(0, st0.output.len() as int));
                    assert(keyed.output.subrange(0, st0.output.len() as int)
                        =~= before.output.subrange(0, st0.output.len() as int));
                }
                i += 1;
            }
            map.end()
        },
    }
}

/// The text of `value`. A value with a float in it whose text is not the
/// literal of a finite double has none.
pub fn to_string(value: &HumlValue) -> (r: Result<String>)
    ensures
        match fault(value.tree()) {
            None => r matches Ok(text) && text@ == emit(initial(), value.tree()).output,
            Some(literal) => r matches Err(e) && e@ == ErrorModel::Message(
                msg_invalid_float(literal),
            ),
        },
{
    let mut serializer = Serializer::new();
    serialize_value(&mut serializer, value)?;
    Ok(serializer.into_string())
}

impl Default for Serializer {
    fn default() -> (s: Serializer)
        ensures
            s@ == (SerializerModel { output: Seq::empty(), indent_level: 0 }),
    {
        Self::new()
    }
}

} // verus!
