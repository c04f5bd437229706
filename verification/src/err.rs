//! Error kinds of the store and projection engine.

use vstd::prelude::*;

verus! {

/// Why an operation failed.
#[derive(Debug)]
pub enum StoreError {
    /// A profile (or other required record) is absent.
    NotFound,
    /// An identifier fails the filename-safety check.
    InvalidIdentifier,
    /// A document could not be parsed or serialized; carries the parser's message.
    MalformedDocument(String),
    /// The constrained-language adapter rejected content before any write.
    ValidationFailed(String),
    /// A read, write, rename or directory creation failed; carries the message.
    IoFailure(String),
}

/// The kind of an error, with payloads abstracted away.
pub enum StoreErrorV {
    NotFound,
    InvalidIdentifier,
    MalformedDocument,
    ValidationFailed,
    IoFailure,
}

impl StoreError {
    /// The kind of this error.
    pub open spec fn v(self) -> StoreErrorV {
        match self {
            StoreError::NotFound => StoreErrorV::NotFound,
            StoreError::InvalidIdentifier => StoreErrorV::InvalidIdentifier,
            StoreError::MalformedDocument(_) => StoreErrorV::MalformedDocument,
            StoreError::ValidationFailed(_) => StoreErrorV::ValidationFailed,
            StoreError::IoFailure(_) => StoreErrorV::IoFailure,
        }
    }
}

} // verus!
