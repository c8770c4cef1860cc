//! An index of opcode documentation, built from a line-oriented text format.
//!
//! A document is a sequence of blocks. Each block names one or more opcodes on
//! lines of the form `{name}`, then holds its description between a `{:}`
//! line and a `{.}` line. The index maps the last opcode of each block to its
//! description and snippet type, and every other opcode of the block to that
//! last one.
pub mod categories;
pub mod error;
pub mod index;
pub mod laws;
pub mod line;
pub mod parser;
pub mod table;

pub use error::DocError;
pub use index::{build_index, index_document, IndexedDocumentation, KeywordInfo};
