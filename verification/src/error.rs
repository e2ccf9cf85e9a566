//! The errors of the library.
use vstd::prelude::*;

use crate::captcha::CaptchaError;

verus! {

/// Why an authentication operation failed.
#[derive(Debug, Clone, Copy, PartialEq, Eq)]
pub enum AuthError {
    /// The token is not three pieces joined by dots.
    InvalidTokenFormat,
    /// The token's signature is not the HMAC of its header and claims.
    InvalidTokenSignature,
    /// The token's claims piece is not URL-safe base64.
    PayloadEncoding,
    /// The token's claims are not claims JSON with UTF-8 strings.
    PayloadFormat,
    /// The token's expiry time has passed.
    TokenExpired,
    /// Argon2 could not hash the password.
    PasswordHashing,
    /// The stored password hash is not a PHC string Argon2 can read.
    InvalidPasswordHash,
    /// AES-256-GCM could not encrypt the email address.
    EmailEncryption,
    /// A CAPTCHA operation failed.
    Captcha(CaptchaError),
}

/// Why an encryption operation failed.
#[derive(Debug, Clone, Copy, PartialEq, Eq)]
pub enum EncryptionError {
    /// The recipient's identity key is not 32 bytes.
    InvalidIdentityKey,
    /// The recipient's signed pre-key is not 32 bytes.
    InvalidSignedPreKey,
    /// The recipient's one-time pre-key is not 32 bytes.
    InvalidOneTimePreKey,
    /// The sender's ephemeral key is not 32 bytes.
    InvalidEphemeralKey,
    /// The identity's secret key is not 32 bytes.
    InvalidIdentitySecret,
    /// No pre-keys were published here for the identity.
    UnknownPreKeys,
    /// AES-256-GCM refused to encrypt (the plaintext is too long).
    Encryption,
    /// AES-256-GCM could not authenticate the ciphertext.
    Decryption,
    /// The group session key is not 32 bytes.
    InvalidSessionKey,
    /// Group data shorter than the 12-byte nonce.
    InvalidEncryptedData,
    /// No session exists for the group.
    GroupSessionNotFound,
    /// A group message whose nonce the session has already accepted.
    ReplayedMessage,
}

} // verus!
