//! Errors of storage operations.

use vstd::prelude::*;

verus! {

/// Why a storage operation was refused.
#[derive(Debug, Clone, Copy, PartialEq, Eq)]
pub enum StorageError {
    /// The value is not the expected type.
    WrongType,
    /// The value is out of the allowed range.
    OutOfRange,
}

pub type StorageResult<T> = Result<T, StorageError>;

} // verus!
