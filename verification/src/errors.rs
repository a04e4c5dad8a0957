//! Failures of the persisted toggle-state store.
//!
//! Every failure here is recovered locally: the store falls back to an empty
//! mapping or keeps its in-memory state, and the caller receives a diagnostic
//! string to show, never a panic.

use vstd::prelude::*;

verus! {

/// Why a load or save of the backing configuration resource failed.
#[derive(Clone, Copy, Debug, PartialEq, Eq, Structural)]
pub enum StoreError {
    /// The backing resource could not be read at all.
    ConfigUnreadable,
    /// The backing resource was read but is not a flat name-to-boolean mapping.
    ConfigMalformed,
    /// The backing resource could not be overwritten with the new mapping.
    ConfigWriteFailed,
}

/// The diagnostic line that each store failure surfaces to the caller.
pub open spec fn store_error_text(e: StoreError) -> Seq<char> {
    match e {
        StoreError::ConfigUnreadable => "ConfigUnreadable: the stored toggle state could not be read"@,
        StoreError::ConfigMalformed => "ConfigMalformed: the stored toggle state is not a flat name to boolean mapping"@,
        StoreError::ConfigWriteFailed => "ConfigWriteFailed: the toggle state could not be persisted"@,
    }
}

impl StoreError {
    /// The diagnostic string for this failure.
    pub fn message(&self) -> (t: String)
        ensures
            t@ == store_error_text(*self),
    {
        match self {
            StoreError::ConfigUnreadable => String::from_str(
                "ConfigUnreadable: the stored toggle state could not be read",
            ),
            StoreError::ConfigMalformed => String::from_str(
                "ConfigMalformed: the stored toggle state is not a flat name to boolean mapping",
            ),
            StoreError::ConfigWriteFailed => String::from_str(
                "ConfigWriteFailed: the toggle state could not be persisted",
            ),
        }
    }
}

} // verus!
