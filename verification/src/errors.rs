//! The error kinds that store operations surface to the caller.

use vstd::prelude::*;

verus! {

/// Every failure of a store operation is one of these kinds; none is
/// retried internally and none panics.
#[derive(Clone, Copy, Debug, PartialEq, Eq, Structural)]
pub enum StoreError {
    /// The base storage directories cannot be located or created.
    DirectoryUnavailable,
    /// A caller-supplied filename holds a parent-directory segment or a
    /// path separator.
    InvalidFilename,
    /// Malformed JSON, or JSON whose shape does not match the index schema.
    InvalidIndexFormat,
    /// No record (or no comment) matches the given identifier.
    NotFound,
    /// An underlying read, write or delete failed.
    IoFailure,
}

impl StoreError {
    /// A short human-readable description of the error kind.
    pub fn message(&self) -> (r: &'static str)
        ensures
            r@ == self.spec_message(),
    {
        match self {
            StoreError::DirectoryUnavailable => "storage directory unavailable",
            StoreError::InvalidFilename => "invalid filename",
            StoreError::InvalidIndexFormat => "invalid index format",
            StoreError::NotFound => "not found",
            StoreError::IoFailure => "io failure",
        }
    }

    /// What `message` returns for each kind.
    pub open spec fn spec_message(self) -> Seq<char> {
        match self {
            StoreError::DirectoryUnavailable => "storage directory unavailable"@,
            StoreError::InvalidFilename => "invalid filename"@,
            StoreError::InvalidIndexFormat => "invalid index format"@,
            StoreError::NotFound => "not found"@,
            StoreError::IoFailure => "io failure"@,
        }
    }
}

} // verus!
