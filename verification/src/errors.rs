//! Error taxonomy of the session core.

use vstd::prelude::*;

verus! {

/// Failure of a login-protocol step.
///
/// `Transport` is a network-level failure and retryable; `MalformedInput` is a
/// client-side parse failure of user-supplied identity or signature text and
/// is never sent to the server; `Rejected` is a terminal refusal of the
/// attempt (bad signature, unknown identity, or an expired or already
/// consumed challenge) and requires a fresh challenge.
#[derive(Clone, Copy, Debug, PartialEq, Eq, Structural)]
pub enum AuthError {
    Transport,
    MalformedInput,
    Rejected,
}

/// Failure of a persistence write (quota exhausted or storage disabled).
///
/// Persistence is best-effort: a `StorageError` is reported to the caller for
/// logging and never invalidates the in-memory session.
#[derive(Clone, Copy, Debug, PartialEq, Eq, Structural)]
pub enum StorageError {
    WriteFailed,
}

} // verus!
