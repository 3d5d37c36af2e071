//! The error taxonomy of the store.

use vstd::prelude::*;

verus! {

/// Which length check failed when a stored value was shorter (or longer)
/// than its fixed framing allows.
#[derive(Clone, Copy, Debug, PartialEq, Eq, Structural)]
pub enum LengthKind {
    /// A stored encrypted record shorter than stream id, nonce and tag.
    Record,
    /// A wrapped stream key whose stored ciphertext has the wrong size.
    WrappedKey,
    /// An unwrapped stream key that is not exactly 32 bytes.
    StreamKey,
    /// A ciphertext too short to carry its nonce.
    Ciphertext,
}

/// Every failure the store reports.
///
/// A caller can always recover from `ConcurrencyConflict` by retrying with a
/// fresh version. `DecryptionFailed` and `CorruptRecord` are terminal for the
/// record in question. `MasterKeyMissing` is a configuration error.
#[derive(Clone, Copy, Debug, PartialEq, Eq, Structural)]
pub enum Error {
    /// Filesystem failure in a durable backend.
    Io,
    /// Transaction or access failure in a durable backend.
    Backend,
    /// The user event could not be encoded.
    SerializationFailed,
    /// Stored bytes failed structural or size validation.
    CorruptRecord,
    /// The append lost the optimistic race: the version already exists.
    ConcurrencyConflict { stream_id: u128, version: u32 },
    /// Reserved for higher-level stream-level version checks.
    VersionMismatch { stream_id: u128, expected: u32, actual: u32 },
    /// Encryption was requested but no master key is configured.
    MasterKeyMissing,
    /// The wrapped stream key is absent at read time (crypto-shredded).
    KeyNotFound { stream_id: u128 },
    /// AEAD authentication failed: wrong key, tampering, or wrong AAD.
    DecryptionFailed,
    /// A record or key was shorter than its minimum length.
    InvalidLength { kind: LengthKind, actual: usize, required: usize },
    /// The notifier sender was dropped; terminal for a processor.
    ChannelClosed,
    /// The environment configuration was rejected at open.
    InvalidConfig,
}

} // verus!
