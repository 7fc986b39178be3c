//! The errors that end a whole enumeration.

use vstd::prelude::*;

verus! {

/// Why an enumeration failed as a whole.
///
/// Callers are not expected to branch on the cause; `message` describes it.
/// A process that vanished between two phases is no error: its listener is
/// left out of the result.
#[derive(Clone, Copy, Debug, PartialEq, Eq, Hash, Structural)]
pub enum BackendError {
    /// A snapshot or query handle could not be obtained.
    HandleAcquisitionFailed,
    /// The buffer negotiation went past its retry ceiling.
    AllocationExhausted,
    /// A structure had the wrong size, or a name field held invalid text.
    DecodeFailed,
    /// The table query answered with a code that is neither success nor
    /// "insufficient buffer".
    QueryFailed,
}

impl BackendError {
    /// A description of the error for people.
    pub fn message(&self) -> (r: String)
        ensures
            r@ == Self::spec_message(*self),
    {
        match self {
            BackendError::HandleAcquisitionFailed => "Failed to acquire a system handle".to_string(),
            BackendError::AllocationExhausted => "Failed to allocate buffer".to_string(),
            BackendError::DecodeFailed => "Failed to decode a system structure".to_string(),
            BackendError::QueryFailed => "Failed to get socket table".to_string(),
        }
    }

    /// The text that `message` returns.
    pub open spec fn spec_message(e: BackendError) -> Seq<char> {
        match e {
            BackendError::HandleAcquisitionFailed => "Failed to acquire a system handle"@,
            BackendError::AllocationExhausted => "Failed to allocate buffer"@,
            BackendError::DecodeFailed => "Failed to decode a system structure"@,
            BackendError::QueryFailed => "Failed to get socket table"@,
        }
    }
}

} // verus!
