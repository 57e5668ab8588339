//! The tagged error surfaced by every fallible storage operation.

use vstd::prelude::*;

verus! {

/// Error kinds of the storage core.
#[derive(Debug, PartialEq, Eq, Structural)]
pub enum StorageError {
    /// Key not found
    KeyNotFound,
    /// Reference not loaded
    ReferenceNotLoaded,
    /// Database is dropped
    DbIsDropped,
    /// One or more active transactions exist
    HasActiveTransactions,
    /// Read beyond declared bounds
    OutOfRange,
    /// Package magic header mismatch
    HeaderMismatch,
    /// Package file too small and creation not requested
    ShortFile,
    /// Malformed cell or meta encoding
    SerializationError,
    /// A structural invariant would be broken, e.g. a decreasing seq_no
    InvariantViolation,
}

impl StorageError {
    /// A readable description of the error.
    pub fn message(&self) -> (r: &'static str)
        ensures
            r@.len() > 0,
    {
        let r: &'static str = match self {
            StorageError::KeyNotFound => "key not found",
            StorageError::ReferenceNotLoaded => "reference not loaded, need to load reference",
            StorageError::DbIsDropped => "database is dropped",
            StorageError::HasActiveTransactions => "operation is not permitted while one or more active transactions exist",
            StorageError::OutOfRange => "read out of range",
            StorageError::HeaderMismatch => "package file header mismatch",
            StorageError::ShortFile => "package file is too short",
            StorageError::SerializationError => "malformed encoding",
            StorageError::InvariantViolation => "storage invariant violated",
        };
        proof {
            reveal_strlit("key not found");
            reveal_strlit("reference not loaded, need to load reference");
            reveal_strlit("database is dropped");
            reveal_strlit("operation is not permitted while one or more active transactions exist");
            reveal_strlit("read out of range");
            reveal_strlit("package file header mismatch");
            reveal_strlit("package file is too short");
            reveal_strlit("malformed encoding");
            reveal_strlit("storage invariant violated");
        }
        r
    }
}

} // verus!
