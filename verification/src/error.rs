use vstd::prelude::*;

verus! {

/// The error taxonomy of the library.
///
/// Transport and handshake failures are the `Protocol` style variants;
/// store lookups and inserts report `NotFound` / `Conflict`; a peer that is
/// not a member of the group it asks about gets `Unauthorized`.
#[derive(Clone, Copy, Debug, PartialEq, Eq, Structural)]
pub enum DspfsError {
    /// A handshake message had the wrong shape.
    InvalidInit,
    /// Signature verification of a handshake message failed.
    BadSignature,
    /// An AEAD tag mismatch: the frame was not sealed under the session key.
    BadCiphertext,
    /// A frame's length prefix exceeds the caller-provided cap.
    FrameTooLarge,
    /// An `Init` message arrived after the handshake was already complete.
    ReInit,
    /// The peer is not a member of the group it asked about.
    Unauthorized,
    /// A keyed lookup in a store missed.
    NotFound,
    /// An insert of a key that is already present.
    Conflict,
    /// The requested block is not locally possessed.
    ContentNotFound,
    /// A message arrived that could not be decoded.
    InvalidMessage,
    /// A path was rejected at the filetree boundary.
    InvalidPath,
    /// The underlying cryptographic provider reported a failure.
    Crypto,
    /// An internal invariant was violated; never produced by a correct peer.
    Internal,
}

} // verus!
