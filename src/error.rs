use vstd::prelude::*;

verus! {

/// The ways an operation can fail.
#[derive(Clone, Copy, Debug, PartialEq, Eq, Structural)]
pub enum MessagingError {
    /// An empty, oversized or malformed field.
    Validation,
    /// The caller is not a participant or owner.
    Authorization,
    /// An unknown conversation or message.
    NotFound,
    /// A conversation with the same id already exists.
    Conflict,
    /// The caller's call window is full.
    RateLimit,
    /// A reused nonce, or a timestamp out of tolerance.
    Replay,
    /// A wrong key length, malformed envelope or undecodable bytes.
    Crypto,
}

} // verus!
