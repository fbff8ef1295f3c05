//! Errors of the readers and parsers.
use vstd::prelude::*;

verus! {

/// What went wrong, as seen in contracts.
pub enum Fault {
    InvalidName(Seq<char>),
    InvalidNumber,
    MissingField(Seq<char>),
    DuplicateField(Seq<char>),
    MissingTypeField,
    InvalidFieldType(Seq<char>),
}

/// Why a type name or a structured parameter could not be read.
#[derive(Debug, Clone, PartialEq, Eq)]
pub enum Error {
    /// The type name matches no production of the grammar.
    InvalidName(String),
    /// A length, width or size is present but is not a decimal `usize`.
    InvalidNumber,
    /// A required field is absent from a structured object.
    MissingField(String),
    /// A field appears twice in one structured object.
    DuplicateField(String),
    /// A tuple component lacks its `type` field.
    MissingTypeField,
    /// A field holds a value of the wrong shape (a number where text belongs).
    InvalidFieldType(String),
}

impl View for Error {
    type V = Fault;

    open spec fn view(&self) -> Fault {
        match self {
            Error::InvalidName(s) => Fault::InvalidName(s@),
            Error::InvalidNumber => Fault::InvalidNumber,
            Error::MissingField(s) => Fault::MissingField(s@),
            Error::DuplicateField(s) => Fault::DuplicateField(s@),
            Error::MissingTypeField => Fault::MissingTypeField,
            Error::InvalidFieldType(s) => Fault::InvalidFieldType(s@),
        }
    }
}

} // verus!
