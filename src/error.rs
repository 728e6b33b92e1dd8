use vstd::prelude::*;

verus! {

/// Every failure the vault reports to its callers.
#[derive(Debug, Clone, Copy, PartialEq, Eq, Structural)]
pub enum VaultError {
    /// An operation that needs an unlocked vault ran with no active session.
    VaultLocked,
    /// The PIN could not be turned into a vault key.
    KdfFailure,
    /// Decryption failed: wrong PIN, wrong device, or altered bytes.
    AuthenticationFailure,
    /// The stored bytes decrypted but do not hold a well-formed vault.
    Corruption,
    /// No private key is stored for the requested identity.
    IdentityNotFound,
    /// A new identity would take an id that the vault already holds.
    DuplicateIdentity,
    /// A value could not be put into its serialized form.
    SerializationError,
    /// A key has the wrong number of bytes.
    InvalidKeyLength,
    /// Thirty-two bytes that are not a valid ed25519 public key.
    InvalidPublicKey,
    /// A signature that is not 64 bytes written as hexadecimal.
    MalformedSignature,
    /// Text that is not a payment intent of the recognised scheme.
    InvalidIntent,
    /// The system clock reads earlier than the Unix epoch.
    ClockUnavailable,
}

} // verus!
