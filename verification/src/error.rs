//! The failures an operation of the store can report.

use vstd::prelude::*;

verus! {

/// Why an operation on the store did not complete.
#[derive(Clone, Copy, Debug, PartialEq, Eq, Structural)]
pub enum StoreError {
    /// The engine could not be opened, read or written.
    StorageUnavailable,
    /// A value could not be turned into bytes.
    SerializationError,
    /// Stored bytes do not have the expected shape.
    DeserializationError,
    /// The requested identifier, fingerprint or ledger is absent.
    NotFound,
}

impl StoreError {
    /// A short description for logs and user-facing messages.
    pub fn message(&self) -> (text: String)
        ensures
            text@ == match *self {
                StoreError::StorageUnavailable => "storage unavailable"@,
                StoreError::SerializationError => "value could not be serialized"@,
                StoreError::DeserializationError => "stored bytes could not be deserialized"@,
                StoreError::NotFound => "not found"@,
            },
    {
        match self {
            StoreError::StorageUnavailable => "storage unavailable".to_owned(),
            StoreError::SerializationError => "value could not be serialized".to_owned(),
            StoreError::DeserializationError => "stored bytes could not be deserialized".to_owned(),
            StoreError::NotFound => "not found".to_owned(),
        }
    }
}

} // verus!
