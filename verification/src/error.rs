use vstd::prelude::*;

verus! {

/// The ways an operation on the store can fail.
///
/// Every failing operation leaves the store untouched; the payload names the
/// offending value so that a caller can render a message for the user.
#[derive(Debug)]
pub enum Error {
    /// No session with the given identifier exists in the store.
    NotFound { id: String },
    /// The operation clashes with the current state of the store, such as
    /// ending a session that has already ended, or reusing an identifier.
    Conflict { id: String },
    /// An input value is malformed, such as a date that does not follow the
    /// expected textual format.
    Validation { text: String },
    /// Ending by default was requested while no session is running.
    NoRunningSession,
}

} // verus!
