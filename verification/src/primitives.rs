//! Trusted entry points into the cryptographic crates (sha2, hmac, aes-gcm,
//! x25519-dalek, ed25519-dalek, argon2). Each function here makes one outside call; its
//! contract is believed, not proved. Results that take pages to state are
//! given names; only short facts from the crates' documentation stand beside
//! them.
use vstd::prelude::*;
use vstd::utf8::encode_utf8;

use crate::b64::b64_encode;
use crate::text::ascii_chars;

use aes_gcm::aead::{Aead, KeyInit};
use aes_gcm::{Aes256Gcm, Key, Nonce};
use argon2::password_hash::rand_core::OsRng;
use argon2::password_hash::{PasswordHash, PasswordHasher, PasswordVerifier, SaltString};
use argon2::{Algorithm, Argon2, Params, Version};
use hmac::{Hmac, Mac};
use ed25519_dalek::{Signature, Signer, SigningKey, Verifier, VerifyingKey};
use x25519_dalek::{PublicKey, StaticSecret};
use sha2::{Digest, Sha256};

verus! {

/// The SHA-256 digest of `data`.
pub uninterp spec fn sha256_digest(data: Seq<u8>) -> Seq<u8>;

/// `sha2::Sha256::digest`: the result is the SHA-256 digest of `data`, which
/// is 32 bytes long. Nothing else about the digest is claimed.
#[verifier::external_body]
pub(crate) fn sha256(data: &[u8]) -> (r: Vec<u8>)
    ensures
        r@ == sha256_digest(data@),
        r@.len() == 32,
{
    Sha256::digest(data).to_vec()
}

/// The HMAC-SHA256 tag of `message` under `key`.
pub uninterp spec fn hmac_sha256_tag(key: Seq<u8>, message: Seq<u8>) -> Seq<u8>;

/// `hmac::Hmac::<Sha256>::new_from_slice(key)`, then `update(message)` and
/// `finalize()`: the HMAC-SHA256 tag, 32 bytes long. `new_from_slice` accepts
/// keys of every length for HMAC (longer keys are hashed first), so the error
/// arm is never taken.
#[verifier::external_body]
pub(crate) fn hmac_sha256(key: &[u8], message: &[u8]) -> (r: Vec<u8>)
    ensures
        r@ == hmac_sha256_tag(key@, message@),
        r@.len() == 32,
{
    match <Hmac<Sha256> as Mac>::new_from_slice(key) {
        Ok(mut mac) => {
            mac.update(message);
            mac.finalize().into_bytes().to_vec()
        },
        Err(_) => Vec::new(),
    }
}

/// The largest plaintext, in bytes, that AES-256-GCM in the aes-gcm crate
/// encrypts (`P_MAX`, 2^36).
pub const AES_GCM_MAX_PLAINTEXT: u64 = 68719476736;

/// The AES-256-GCM ciphertext (with its 16-byte tag appended) of `plaintext`
/// under `key` and `nonce`, with no associated data.
pub uninterp spec fn aes256gcm_seal(key: Seq<u8>, nonce: Seq<u8>, plaintext: Seq<u8>) -> Seq<u8>;

/// What AES-256-GCM decryption of `ciphertext` under `key` and `nonce` gives:
/// the plaintext, or `None` when the tag does not authenticate.
pub uninterp spec fn aes256gcm_open(key: Seq<u8>, nonce: Seq<u8>, ciphertext: Seq<u8>) -> Option<Seq<u8>>;

/// The bytes held by an optional vector.
pub open spec fn opt_bytes(o: Option<Vec<u8>>) -> Option<Seq<u8>> {
    match o {
        Some(v) => Some(v@),
        None => None,
    }
}

/// `Aes256Gcm::new(key).encrypt(nonce, plaintext)`, with the error turned
/// into `None`. The crate refuses exactly the plaintexts longer than
/// `P_MAX`; otherwise the ciphertext is the plaintext's length plus the
/// 16-byte tag. `Key::from_slice` and `Nonce::from_slice` panic unless the
/// key has 32 bytes and the nonce 12, hence the `requires`.
#[verifier::external_body]
pub(crate) fn aes256gcm_encrypt(key: &[u8], nonce: &[u8], plaintext: &[u8]) -> (r: Option<Vec<u8>>)
    requires
        key@.len() == 32,
        nonce@.len() == 12,
    ensures
        r is Some <==> plaintext@.len() <= AES_GCM_MAX_PLAINTEXT,
        r matches Some(c) ==> c@ == aes256gcm_seal(key@, nonce@, plaintext@) && c@.len()
            == plaintext@.len() + 16,
{
    Aes256Gcm::new(Key::<Aes256Gcm>::from_slice(key)).encrypt(Nonce::from_slice(nonce), plaintext).ok()
}

/// `Aes256Gcm::new(key).decrypt(nonce, ciphertext)`, with the error turned
/// into `None`. Its result is named by `aes256gcm_open`; the one fact stated
/// beside the name is the one AEAD promises: a ciphertext sealed from some
/// plaintext under the same key and nonce opens to that plaintext.
#[verifier::external_body]
pub(crate) fn aes256gcm_decrypt(key: &[u8], nonce: &[u8], ciphertext: &[u8]) -> (r: Option<Vec<u8>>)
    requires
        key@.len() == 32,
        nonce@.len() == 12,
    ensures
        opt_bytes(r) == aes256gcm_open(key@, nonce@, ciphertext@),
        forall|p: Seq<u8>|
            p.len() <= AES_GCM_MAX_PLAINTEXT && #[trigger] aes256gcm_seal(key@, nonce@, p)
                == ciphertext@ ==> opt_bytes(r) == Some(p),
{
    Aes256Gcm::new(Key::<Aes256Gcm>::from_slice(key)).decrypt(Nonce::from_slice(nonce), ciphertext).ok()
}

/// The X25519 public key of the 32-byte secret `secret`.
pub uninterp spec fn x25519_public_key(secret: Seq<u8>) -> Seq<u8>;

/// The X25519 shared secret of `secret` and the public key `public`.
pub uninterp spec fn x25519_shared_secret(secret: Seq<u8>, public: Seq<u8>) -> Seq<u8>;

/// `StaticSecret::random_from_rng(OsRng).to_bytes()`: 32 random bytes from the
/// operating system (the secret is clamped only when it is used).
#[verifier::external_body]
pub(crate) fn x25519_random_secret() -> (r: Vec<u8>)
    ensures
        r@.len() == 32,
{
    StaticSecret::random_from_rng(OsRng).to_bytes().to_vec()
}

/// `PublicKey::from(&StaticSecret::from(secret)).as_bytes()`: the public key,
/// 32 bytes long. The slice is copied into an array first, which panics
/// unless it has 32 bytes.
#[verifier::external_body]
pub(crate) fn x25519_public(secret: &[u8]) -> (r: Vec<u8>)
    requires
        secret@.len() == 32,
    ensures
        r@ == x25519_public_key(secret@),
        r@.len() == 32,
{
    let mut bytes = [0u8; 32];
    bytes.copy_from_slice(secret);
    PublicKey::from(&StaticSecret::from(bytes)).as_bytes().to_vec()
}

/// `StaticSecret::from(secret).diffie_hellman(&PublicKey::from(public))`: the
/// shared secret, 32 bytes long. Beside the name stands the Diffie-Hellman
/// agreement that the crate documents: when `public` is the public key of
/// another secret, the result is what that secret computes with this
/// secret's public key.
#[verifier::external_body]
pub(crate) fn x25519_diffie_hellman(secret: &[u8], public: &[u8]) -> (r: Vec<u8>)
    requires
        secret@.len() == 32,
        public@.len() == 32,
    ensures
        r@ == x25519_shared_secret(secret@, public@),
        r@.len() == 32,
        forall|other: Seq<u8>|
            other.len() == 32 && #[trigger] x25519_public_key(other) == public@ ==> r@
                == x25519_shared_secret(other, x25519_public_key(secret@)),
{
    let mut s = [0u8; 32];
    s.copy_from_slice(secret);
    let mut p = [0u8; 32];
    p.copy_from_slice(public);
    StaticSecret::from(s).diffie_hellman(&PublicKey::from(p)).as_bytes().to_vec()
}

/// The PHC string Argon2id (version 0x13) produces for `password` with the
/// B64 salt `salt`, `m_cost` KiB of memory, `t_cost` passes, `p_cost` lanes and
/// an `output_len`-byte hash.
pub uninterp spec fn argon2_phc_hash(
    password: Seq<u8>,
    salt: Seq<char>,
    m_cost: u32,
    t_cost: u32,
    p_cost: u32,
    output_len: usize,
) -> Seq<char>;

/// The Ed25519 verifying key of the 32-byte secret key (seed) `seed`.
pub uninterp spec fn ed25519_verifying_key(seed: Seq<u8>) -> Seq<u8>;

/// The Ed25519 signature of `message` under the 32-byte secret key `seed`.
pub uninterp spec fn ed25519_signature(seed: Seq<u8>, message: Seq<u8>) -> Seq<u8>;

/// Whether `signature` is a valid Ed25519 signature of `message` under the
/// verifying key `public` (false when either does not have the right length
/// or the key does not decode).
pub uninterp spec fn ed25519_valid(public: Seq<u8>, message: Seq<u8>, signature: Seq<u8>) -> bool;

/// `SigningKey::from_bytes(seed).verifying_key().to_bytes()`: the 32-byte
/// verifying key. The slice is copied into an array first, which panics
/// unless it has 32 bytes.
#[verifier::external_body]
pub(crate) fn ed25519_public(seed: &[u8]) -> (r: Vec<u8>)
    requires
        seed@.len() == 32,
    ensures
        r@ == ed25519_verifying_key(seed@),
        r@.len() == 32,
{
    let mut s = [0u8; 32];
    s.copy_from_slice(seed);
    SigningKey::from_bytes(&s).verifying_key().to_bytes().to_vec()
}

/// `SigningKey::from_bytes(seed).sign(message).to_bytes()`: the 64-byte
/// Ed25519 signature (Ed25519 signing is deterministic).
#[verifier::external_body]
pub(crate) fn ed25519_sign(seed: &[u8], message: &[u8]) -> (r: Vec<u8>)
    requires
        seed@.len() == 32,
    ensures
        r@ == ed25519_signature(seed@, message@),
        r@.len() == 64,
{
    let mut s = [0u8; 32];
    s.copy_from_slice(seed);
    SigningKey::from_bytes(&s).sign(message).to_bytes().to_vec()
}

/// `VerifyingKey::from_bytes(public)` and then `verify(message,
/// &Signature::from_bytes(signature))`; `false` when `public` is not 32 bytes,
/// `signature` not 64, or the key does not decode. Beside the name stands
/// the one fact a signature scheme promises: a signature made with a secret
/// key verifies under that key's verifying key.
#[verifier::external_body]
pub(crate) fn ed25519_verify(public: &[u8], message: &[u8], signature: &[u8]) -> (r: bool)
    ensures
        r == ed25519_valid(public@, message@, signature@),
        forall|seed: Seq<u8>|
            seed.len() == 32 && #[trigger] ed25519_verifying_key(seed) == public@ && signature@
                == ed25519_signature(seed, message@) ==> r,
{
    let key: [u8; 32] = match public.try_into() {
        Ok(k) => k,
        Err(_) => return false,
    };
    let sig: [u8; 64] = match signature.try_into() {
        Ok(s) => s,
        Err(_) => return false,
    };
    match VerifyingKey::from_bytes(&key) {
        Ok(k) => k.verify(message, &Signature::from_bytes(&sig)).is_ok(),
        Err(_) => false,
    }
}

/// Whether `salt` is the B64 text (standard alphabet, no padding) of some
/// bytes, between `min` and `max` of them.
pub open spec fn b64_salt(salt: Seq<char>, min: nat, max: nat) -> bool {
    exists|b: Seq<u8>| min <= b.len() <= max && salt == ascii_chars(b64_encode(b, false, false))
}

/// Whether Argon2id hashing succeeds for a password of `password_len` bytes,
/// the salt text `salt` and the given costs and output length: the bounds
/// that `Params::new`, `Output::init_with` and the password and salt checks
/// of the argon2 crate ask for.
pub open spec fn argon2_hash_succeeds(
    password_len: nat,
    salt: Seq<char>,
    m_cost: u32,
    t_cost: u32,
    p_cost: u32,
    output_len: usize,
) -> bool {
    &&& password_len <= 0xFFFF_FFFF
    &&& 8 <= m_cost
    &&& 8 * p_cost <= m_cost
    &&& 1 <= t_cost
    &&& 1 <= p_cost <= 0xFF_FFFF
    &&& 10 <= output_len <= 64
    &&& b64_salt(salt, 8, 48)
}

/// What Argon2 says of `password` against the PHC string `phc`, rehashing
/// with the algorithm, version, parameters and salt written in `phc`: whether
/// it matches, or `None` when `phc` does not parse.
pub uninterp spec fn argon2_check(password: Seq<u8>, phc: Seq<char>) -> Option<bool>;

/// Whether `PasswordHash::new` parses the PHC string `phc`.
pub uninterp spec fn phc_parses(phc: Seq<char>) -> bool;

/// The value of the decimal digits of `b` from `i` on, with `acc` as the
/// value of the digits before them.
pub open spec fn digit_run_value(b: Seq<u8>, i: int, acc: nat) -> nat
    decreases b.len() - i,
{
    if 0 <= i < b.len() && 48 <= b[i] <= 57 {
        digit_run_value(b, i + 1, acc * 10 + (b[i] - 48) as nat)
    } else {
        acc
    }
}

/// Whether the PHC text `b` names its lanes parameter `p` at `i` (right after
/// the `$` or `,` that starts a parameter).
pub open spec fn lanes_param_at(b: Seq<u8>, i: int) -> bool {
    1 <= i && i + 1 < b.len() && (b[i - 1] == 44 || b[i - 1] == 36) && b[i] == 112 && b[i + 1] == 61
}

/// Whether every lanes parameter written in the PHC text `b` is below 2^29.
/// argon2's `Params::new` computes `8 * p` in `u32` before it bounds `p`, which
/// overflows from 2^29 on.
pub open spec fn phc_lanes_bounded(b: Seq<u8>) -> bool {
    forall|i: int| #[trigger] lanes_param_at(b, i) ==> digit_run_value(b, i + 2, 0) < 0x2000_0000
}

/// `SaltString::generate(&mut OsRng)`: the B64 text of 16 random bytes.
#[verifier::external_body]
pub(crate) fn argon2_salt() -> (r: String)
    ensures
        b64_salt(r@, 16, 16),
{
    SaltString::generate(&mut OsRng).as_str().to_owned()
}

/// `Argon2::new(Algorithm::Argon2id, Version::V0x13, Params::new(m_cost,
/// t_cost, p_cost, Some(output_len))?).hash_password(password,
/// &SaltString::from_b64(salt)?)` rendered as a PHC string, or `None` when a
/// call fails. The calls succeed within the bounds of
/// `argon2_hash_succeeds`, and never for a password longer than 2^32 - 1
/// bytes (`PwdTooLong`); nothing else is claimed of when they fail.
/// `Params::new` computes `8 * p_cost` in `u32` before it bounds `p_cost`,
/// hence the `requires`. The PHC string that `PasswordHash`'s `Display`
/// writes parses again, and its only lanes parameter is `p_cost` (salt and
/// hash are B64 and hold no `=`).
#[verifier::external_body]
pub(crate) fn argon2id_hash(
    password: &[u8],
    salt: &str,
    m_cost: u32,
    t_cost: u32,
    p_cost: u32,
    output_len: usize,
) -> (r: Option<String>)
    requires
        p_cost <= 0xFF_FFFF,
    ensures
        r matches Some(h) ==> h@ == argon2_phc_hash(password@, salt@, m_cost, t_cost, p_cost, output_len)
            && phc_parses(h@) && phc_lanes_bounded(encode_utf8(h@)),
        argon2_hash_succeeds(password@.len(), salt@, m_cost, t_cost, p_cost, output_len) ==> r is Some,
        r is Some ==> password@.len() <= 0xFFFF_FFFF,
{
    let params = match Params::new(m_cost, t_cost, p_cost, Some(output_len)) {
        Ok(p) => p,
        Err(_) => return None,
    };
    let salt = match SaltString::from_b64(salt) {
        Ok(s) => s,
        Err(_) => return None,
    };
    match Argon2::new(Algorithm::Argon2id, Version::V0x13, params).hash_password(password, &salt) {
        Ok(h) => Some(h.to_string()),
        Err(_) => None,
    }
}

/// `PasswordHash::new(phc).is_ok()`: whether the PHC string parses.
#[verifier::external_body]
pub(crate) fn phc_parse_ok(phc: &str) -> (r: bool)
    ensures
        r == phc_parses(phc@),
{
    PasswordHash::new(phc).is_ok()
}

/// `PasswordHash::new(phc)` followed by
/// `Argon2::default().verify_password(password, &parsed).is_ok()`, `None` when
/// the PHC string does not parse; whether it parses depends on the string
/// alone. `verify_password` rehashes the password with the algorithm,
/// version, parameters and salt written in the PHC string and compares the
/// outputs, so a password verifies against a hash that hashing it produced
/// (within the bounds of `argon2_hash_succeeds`, which the rehash meets
/// again); that is the one fact stated beside the name. Building the
/// parameters computes `8 * p` in `u32`, which overflows for a lanes
/// parameter of 2^29 or more, hence the `requires`.
#[verifier::external_body]
pub(crate) fn argon2_verify(password: &[u8], phc: &str) -> (r: Option<bool>)
    requires
        phc_lanes_bounded(encode_utf8(phc@)),
    ensures
        r == argon2_check(password@, phc@),
        r is Some <==> phc_parses(phc@),
        forall|salt: Seq<char>, m_cost: u32, t_cost: u32, p_cost: u32, output_len: usize|
            #[trigger] argon2_phc_hash(password@, salt, m_cost, t_cost, p_cost, output_len) == phc@
                && argon2_hash_succeeds(password@.len(), salt, m_cost, t_cost, p_cost, output_len)
                ==> r == Some(true),
{
    match PasswordHash::new(phc) {
        Ok(parsed) => Some(Argon2::default().verify_password(password, &parsed).is_ok()),
        Err(_) => None,
    }
}

} // verus!
