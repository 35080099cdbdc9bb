//! The errors of a session.
use vstd::prelude::*;

verus! {

/// Errors of a session, after the taxonomy of the protocol.
#[derive(Debug, Clone, Copy, PartialEq, Eq, Structural)]
pub enum SessionError {
    /// Neither listening nor connecting succeeded.
    TransportSetup,
    /// Reading or writing the stream failed.
    Io,
    /// A received record is malformed; it is dropped.
    Deserialize,
    /// The peer's handshake signature does not verify.
    AuthFailure,
    /// A received record's tag does not match; it is dropped.
    MacMismatch,
    /// The handshake did not finish in time.
    HandshakeTimeout,
    /// A cryptographic primitive failed.
    CryptoInternal,
    /// The host could not supply the long-term keys.
    IdentityUnavailable,
    /// There is no session key (the handshake has not completed).
    SessionClosed,
}

} // verus!
