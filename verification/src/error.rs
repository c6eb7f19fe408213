//! The errors a table operation can return.

use vstd::prelude::*;

verus! {

/// Why a table operation failed.
#[derive(Debug)]
pub enum TableError {
    /// The record type cannot be built from a key alone.
    NotNewable,
    /// A key or a record could not be turned into bytes.
    EncodingFailure,
    /// Stored bytes could not be turned back into a record.
    DecodingFailure,
    /// The store itself reported a failure, handed on as it came.
    StoreFailure(heed::Error),
}

impl TableError {
    /// A short description of the error kind.
    pub fn describe(&self) -> (s: String)
        ensures
            s@ == match self {
                TableError::NotNewable => "record is not newable"@,
                TableError::EncodingFailure => "record or key could not be encoded"@,
                TableError::DecodingFailure => "stored bytes could not be decoded"@,
                TableError::StoreFailure(_) => "the store reported a failure"@,
            },
    {
        match self {
            TableError::NotNewable => "record is not newable".to_owned(),
            TableError::EncodingFailure => "record or key could not be encoded".to_owned(),
            TableError::DecodingFailure => "stored bytes could not be decoded".to_owned(),
            TableError::StoreFailure(_) => "the store reported a failure".to_owned(),
        }
    }
}

} // verus!
