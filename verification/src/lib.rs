//! Anonymous authentication and end-to-end encryption for the Dis chat
//! platform: proof-of-work CAPTCHAs, HMAC-signed anonymous tokens, Argon2
//! password hashing, X3DH one-to-one encryption with Ed25519-signed pre-keys
//! and AES-256-GCM group sessions.
//!
//! `primitives`, `b64`, `entropy` and `text` hold the calls into the
//! cryptographic crates, the clock and the random number generators; every
//! other module is verified against their contracts.

pub mod anonymous_token;
pub mod auth;
pub mod b64;
pub mod bytes;
pub mod captcha;
pub mod encryption;
pub mod entropy;
pub mod error;
pub mod hex;
pub mod json_claims;
pub mod json_number;
pub mod json_string;
pub mod primitives;
pub mod signal_protocol;
pub mod text;
pub mod token_format;

pub use anonymous_token::{AnonymousRegistration, AnonymousToken, TokenGenerator};
pub use auth::AuthService;
pub use captcha::{CaptchaChallenge, CaptchaRateLimiter, CaptchaVerifier, ProofOfWork};
pub use encryption::EncryptionService;
pub use error::{AuthError, EncryptionError};
pub use signal_protocol::{
    EncryptedMessage, GroupSession, IdentityKey, OneTimePreKey, PreKeyBundle, SignalProtocol,
    SignedPreKey,
};

