//! The closed error taxonomy of the library: every fallible operation
//! returns one of these enumerations rather than a message string.

use vstd::prelude::*;

verus! {

/// Failure of the platform secret store.
#[derive(Clone, Copy, Debug, PartialEq, Eq, Structural)]
pub enum StoreError {
    /// The requested entry is absent.
    NotFound,
    /// The platform store refused access.
    AccessDenied,
}

/// Failure of the vault codec or of master-key handling.
#[derive(Clone, Copy, Debug, PartialEq, Eq, Structural)]
pub enum CryptoError {
    /// Wrong key or tampered data; the two are deliberately not distinguished.
    DecryptionFailed,
    /// A stored master key did not decode to exactly 32 bytes.
    InvalidKeyLength,
    /// An encrypted blob shorter than a nonce cannot be valid.
    FileTooSmall,
}

/// Failure of code generation from a stored secret.
#[derive(Clone, Copy, Debug, PartialEq, Eq, Structural)]
pub enum TotpError {
    /// The padded secret is not valid Base32.
    InvalidSecret,
    /// The decoded secret is shorter than the 128 bits RFC 6238 demands.
    SecretTooSmall,
}

/// Failure of the import parser.
#[derive(Clone, Copy, Debug, PartialEq, Eq, Structural)]
pub enum ParseError {
    /// The input starts with no known format prefix.
    UnsupportedFormat,
    /// A `totp` URI lacks the mandatory `secret` query parameter.
    MissingParameter,
    /// A migration batch payload could not be decoded.
    MalformedPayload,
}

} // verus!
