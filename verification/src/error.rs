use vstd::prelude::*;

verus! {

/// Errors raised by the profile logic itself.
#[derive(Debug, Clone, Copy, PartialEq, Eq, Structural)]
pub enum OckamError {
    /// Binary encoding failed.
    BareError,
    /// A signature of a change event did not verify, or one was missing or superfluous.
    VerifyFailed,
    /// An event does not point at the event before it, or its identifier is not the hash of its changes.
    EventIdDoesntMatch,
    /// No contact with the given identifier is known.
    ContactNotFound,
    /// The change history does not hold what an operation needs.
    InvalidInternalState,
    /// The identifier does not match the root key of the change history.
    ProfileIdDoesntMatch,
}

/// The error type of the library: either one raised by the profile logic, or one
/// that a vault implementation reported.
#[derive(Debug, Clone, Copy, PartialEq, Eq, Structural)]
pub enum CoreError {
    Ockam(OckamError),
    Vault { code: u32 },
}

impl OckamError {
    /// The error as the library's error type.
    pub fn into_error(self) -> (e: CoreError)
        ensures
            e == CoreError::Ockam(self),
    {
        CoreError::Ockam(self)
    }
}

} // verus!
