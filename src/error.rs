//! Errors reported while loading and parsing ledger rows.
use vstd::prelude::*;

verus! {

/// Why a ledger could not be read.
#[derive(Clone, Debug, PartialEq)]
pub enum Error {
    /// The requested instrument is not in the store.
    NotFound(String),
    /// A row that does not split into exactly five fields; holds the row.
    MalformedLine(String),
    /// A kind code other than `B` or `S`; holds the field.
    UnknownKind(String),
    /// A numeric field that is not a decimal number in range; holds the field.
    InvalidNumber(String),
    /// Stored bytes that are not valid UTF-8.
    Encoding,
}

} // verus!
