//! The grammar of the format, as functions from a text and a position to an
//! outcome. The text is a sequence of characters; a position is an index into
//! it. These functions are the meaning of the parser: each parsing function
//! returns what its function here gives.

pub mod document;
pub mod lexical;
pub mod position;
pub mod progress;
pub mod scalars;
pub mod structure;
