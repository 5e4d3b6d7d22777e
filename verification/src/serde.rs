//! The bridge to structured types: reading a value tree out of text, and
//! writing one as text.

pub mod de;
pub mod ser;

pub use de::Result as DeResult;
pub use de::{from_str, Deserializer, Error as DeError};
pub use ser::{to_string, Error as SerError, Serializer};

use crate::serde::de::reading;
use crate::serde::ser::{emit, fault, initial, msg_invalid_float};
use crate::value::HumlValue;
use vstd::prelude::*;
use vstd::string::*;

verus! {

/// A failure of reading or of writing.
#[derive(Debug)]
pub enum Error {
    /// Reading failed.
    De(de::Error),
    /// Writing failed.
    Ser(ser::Error),
}

impl Error {
    /// The error as a reader sees it.
    pub open spec fn text(&self) -> Seq<char> {
        match self {
            Error::De(e) => "Deserialization error: "@ + e@.text(),
            Error::Ser(e) => "Serialization error: "@ + e@.text(),
        }
    }

    /// The error as a reader sees it.
    pub fn to_string(&self) -> (text: String)
        ensures
            text@ == self.text(),
    {
        match self {
            Error::De(e) => {
                let mut text = String::from_str("Deserialization error: ");
                text.append(e.to_string().as_str());
                text
            },
            Error::Ser(e) => {
                let mut text = String::from_str("Serialization error: ");
                text.append(e.to_string().as_str());
                text
            },
        }
    }
}

impl From<de::Error> for Error {
    fn from(err: de::Error) -> (e: Error) {
        Error::De(err)
    }
}

impl vstd::std_specs::convert::FromSpecImpl<de::Error> for Error {
    open spec fn obeys_from_spec() -> bool {
        true
    }

    open spec fn from_spec(err: de::Error) -> Error {
        Error::De(err)
    }
}

impl From<ser::Error> for Error {
    fn from(err: ser::Error) -> (e: Error) {
        Error::Ser(err)
    }
}

impl vstd::std_specs::convert::FromSpecImpl<ser::Error> for Error {
    open spec fn obeys_from_spec() -> bool {
        true
    }

    open spec fn from_spec(err: ser::Error) -> Error {
        Error::Ser(err)
    }
}

/// Writes `value` as text and reads the text back. A value that cannot be
/// written gives the failure of writing, a text that cannot be read the
/// failure of reading.
pub fn round_trip(value: &HumlValue) -> (r: Result<HumlValue, Error>)
    ensures
        match fault(value.tree()) {
            Some(literal) => r matches Err(Error::Ser(e)) && e@ == ser::ErrorModel::Message(
                msg_invalid_float(literal),
            ),
            None => match reading(emit(initial(), value.tree()).output) {
                Ok(v) => r matches Ok(back) && back@ == v,
                Err(m) => r matches Err(Error::De(e)) && e@ == de::ErrorModel::ParseError(m),
            },
        },
{
    let huml = match to_string(value) {
        Ok(text) => text,
        Err(e) => {
            return Err(Error::from(e));
        },
    };
    match from_str(huml.as_str()) {
        Ok(back) => Ok(back),
        Err(e) => Err(Error::from(e)),
    }
}

} // verus!
