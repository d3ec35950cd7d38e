//! The errors a store operation can report.

use vstd::prelude::*;

verus! {

/// Why an operation on the store failed.
#[derive(Debug, PartialEq, Eq)]
pub enum DatabaseError {
    /// A batch insert was given a different number of keys and values.
    InvalidData,
    /// The store could not be reached; the text says why.
    Internal(String),
}

/// Whether `e` is the error of a lock that cannot be taken.
pub open spec fn is_lock_error(e: DatabaseError) -> bool {
    e matches DatabaseError::Internal(text) && text@ == "rwlock error"@
}

/// The error reported when the lock that guards the store cannot be taken
/// because an earlier holder ended abnormally.
pub fn map_rwlock_err() -> (e: DatabaseError)
    ensures
        is_lock_error(e),
{
    DatabaseError::Internal("rwlock error".to_string())
}

} // verus!
