//! Why an index could not be built.
use vstd::prelude::*;

verus! {

/// A fatal defect of the inputs.
#[derive(Debug, PartialEq, Eq)]
pub enum DocError {
    /// A description was closed with no opcode before it.
    MissingOpcodes,
    /// The opcode that owns a block has no snippet type.
    MissingSnippetType(String),
    /// The snippet-type text is not a JSON object of string arrays.
    InvalidCategories,
}

/// The mathematical value of a `DocError`.
pub enum Fault {
    MissingOpcodes,
    MissingSnippetType(Seq<char>),
    InvalidCategories,
}

impl View for DocError {
    type V = Fault;

    open spec fn view(&self) -> Fault {
        match self {
            DocError::MissingOpcodes => Fault::MissingOpcodes,
            DocError::MissingSnippetType(k) => Fault::MissingSnippetType(k@),
            DocError::InvalidCategories => Fault::InvalidCategories,
        }
    }
}

} // verus!
