//! The error taxonomy of the registry's operations.

use vstd::prelude::*;

verus! {

/// Why a registry operation was refused.
#[derive(Clone, Copy, Debug, PartialEq, Eq, Structural)]
pub enum ApiError {
    /// The supplied identifier string is not a canonical device identifier.
    InvalidIdentifier,
    /// The identified device record does not exist (ping only).
    RecordNotFound,
    /// The configuration payload is not a JSON object.
    InvalidConfigPayload,
    /// The store could not complete the insertion of a new record.
    StoreWriteFailed,
}

impl ApiError {
    /// A short human-readable description, as served to clients.
    pub fn describe(&self) -> (r: &'static str)
        ensures
            self is InvalidIdentifier ==> r@ == "Invalid ID"@,
            self is RecordNotFound ==> r@ == "Moon not found"@,
            self is InvalidConfigPayload ==> r@ == "Invalid configData"@,
            self is StoreWriteFailed ==> r@ == "Error while inserting document"@,
    {
        match self {
            ApiError::InvalidIdentifier => "Invalid ID",
            ApiError::RecordNotFound => "Moon not found",
            ApiError::InvalidConfigPayload => "Invalid configData",
            ApiError::StoreWriteFailed => "Error while inserting document",
        }
    }
}

} // verus!
