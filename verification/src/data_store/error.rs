//! Why a text was not read.

use vstd::prelude::*;

verus! {

/// Why a text was not read as a record.
#[derive(Clone, Copy, Debug, PartialEq, Eq, Structural)]
pub enum ParseError {
    /// The text is no JSON object and no JSON list.
    Syntax,
    /// The object or list lacks a field of the record, or holds one of
    /// another type or out of its range, or the list holds more than the
    /// fields.
    Schema,
}

/// Why a document was not read as a store.
#[derive(Clone, Copy, Debug, PartialEq, Eq, Structural)]
pub enum LoadError {
    /// The text is no JSON object of lists of strings.
    Document,
    /// A name in the document stands for no kind of record.
    UnknownKind,
    /// A string in a list is no record of the list's kind.
    Record,
}

} // verus!
