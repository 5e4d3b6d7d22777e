//! A parser for HUML, a human-oriented markup language with strict
//! whitespace, into a tree of values, with failures that name their line and
//! column; and a writer of such trees.
//!
//! The grammar is a set of functions on sequences of characters, in `grammar`.
//! Every parsing function is proved to return what its function there gives.

pub mod grammar;
pub mod laws;
pub mod parser;
pub mod serde;
pub mod text;
pub mod value;

pub use parser::cursor::ParseError;
pub use parser::{
    parse_document_root, parse_empty_dict, parse_empty_list, parse_huml, parse_inline_dict,
    parse_inline_list, parse_scalar, IResult,
};
pub use grammar::structure::MAX_NESTING;
pub use value::{HumlDict, HumlDocument, HumlNumber, HumlValue};
