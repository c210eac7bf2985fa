use vstd::prelude::*;

verus! {

/// Every way in which an operation of this crate can fail.
#[derive(Clone, Copy, Debug, PartialEq, Eq, Structural)]
pub enum Error {
    /// The TOTP secret is not valid base32.
    InvalidSecretEncoding,
    /// The decoded TOTP secret does not have the required length.
    InvalidSecretLength,
    /// A credential's period is zero.
    InvalidPeriod,
    /// A record does not fit its bounded encoding (a label over 256 bytes).
    EncodingOverflow,
    /// Stored bytes are not a valid record.
    DecodingError,
    /// No credential is stored under the label.
    CredentialNotFound,
    /// The user did not confirm presence in time.
    UserPresenceTimeout,
    /// The vault already holds a key under the label.
    DuplicateLabel,
    /// Every slot of the vault is taken.
    VaultFull,
    /// The operation needs the unlock gate to be open.
    DeviceLocked,
    /// No key is stored under the identifier or label.
    KeyNotFound,
    /// The pin does not match the unlock secret.
    PinMismatch,
    /// An argument is not hexadecimal, or too long.
    InvalidHex,
    /// The backend answered with something unusable.
    BackendFailure,
}

} // verus!
