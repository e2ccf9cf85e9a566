//! One-to-one and group encryption. A sender agrees on a key with a
//! recipient's published pre-keys (X3DH: the ephemeral key is combined with
//! the signed pre-key, the identity key and the one-time pre-key), derives an
//! AES-256-GCM key from it with HMAC-SHA256 and encrypts. A group shares one
//! AES-256-GCM session key, numbers its messages and refuses replayed ones.
use vstd::prelude::*;

use crate::bytes::{
    append_bytes, bytes_equal, bytes_to_vec, le_bytes, le_bytes_exec, lemma_le_bytes_len,
    lemma_le_value_bytes, pow256,
};
use crate::entropy::{random_bytes_12, random_bytes_32, random_bytes_8};
use crate::error::EncryptionError;
use crate::primitives::{
    aes256gcm_decrypt, aes256gcm_encrypt, aes256gcm_open, aes256gcm_seal, ed25519_public, ed25519_sign,
    ed25519_signature, ed25519_valid, ed25519_verify, ed25519_verifying_key, hmac_sha256, hmac_sha256_tag,
    x25519_diffie_hellman, x25519_public, x25519_public_key, x25519_random_secret,
    x25519_shared_secret, AES_GCM_MAX_PLAINTEXT,
};

verus! {

/// A long-term identity key pair.
#[derive(Clone)]
pub struct IdentityKey {
    pub public: Vec<u8>,
    secret: Vec<u8>,
}

impl IdentityKey {
    /// The public half.
    pub closed spec fn public_spec(&self) -> Seq<u8> {
        self.public@
    }

    /// The secret half.
    pub closed spec fn secret_spec(&self) -> Seq<u8> {
        self.secret@
    }

    /// The identity key pair of a 32-byte secret.
    pub fn from_secret(secret: &[u8]) -> (r: Self)
        requires
            secret@.len() == 32,
        ensures
            r.secret_spec() == secret@,
            r.public_spec() == x25519_public_key(secret@),
            r.public_spec().len() == 32,
    {
        Self { public: x25519_public(secret), secret: bytes_to_vec(secret) }
    }

    /// Generates a new identity key pair from a random secret.
    pub fn generate() -> (r: Result<Self, EncryptionError>)
        ensures
            r matches Ok(k) && k.secret_spec().len() == 32 && k.public_spec() == x25519_public_key(
                k.secret_spec(),
            ) && k.public_spec().len() == 32,
    {
        let secret = x25519_random_secret();
        Ok(Self::from_secret(secret.as_slice()))
    }

    /// The public half.
    pub fn public_key(&self) -> (r: &[u8])
        ensures
            r@ == self.public_spec(),
    {
        self.public.as_slice()
    }

    /// The secret half.
    pub fn secret_key(&self) -> (r: &[u8])
        ensures
            r@ == self.secret_spec(),
    {
        self.secret.as_slice()
    }

    /// The Ed25519 verifying key of the identity, whose 32-byte secret is
    /// also its Ed25519 signing key; `None` when the secret is not 32 bytes.
    pub fn signing_public_key(&self) -> (r: Option<Vec<u8>>)
        ensures
            match r {
                Some(v) => self.secret_spec().len() == 32 && v@ == ed25519_verifying_key(self.secret_spec())
                    && v@.len() == 32,
                None => self.secret_spec().len() != 32,
            },
    {
        if self.secret.len() != 32 {
            return None;
        }
        Some(ed25519_public(self.secret.as_slice()))
    }
}

/// A medium-term pre-key, signed with Ed25519 by an identity key.
#[derive(Clone)]
pub struct SignedPreKey {
    pub id: u32,
    pub public: Vec<u8>,
    secret: Vec<u8>,
    pub signature: Vec<u8>,
}

impl SignedPreKey {
    /// The key id.
    pub closed spec fn id_spec(&self) -> u32 {
        self.id
    }

    /// The public half.
    pub closed spec fn public_spec(&self) -> Seq<u8> {
        self.public@
    }

    /// The identity's Ed25519 signature of the public half.
    pub closed spec fn signature_spec(&self) -> Seq<u8> {
        self.signature@
    }

    /// The secret half.
    pub closed spec fn secret_spec(&self) -> Seq<u8> {
        self.secret@
    }

    /// The signed pre-key with the given secret: its signature is the
    /// identity's Ed25519 signature of its public key.
    pub fn from_secret(id: u32, identity_key: &IdentityKey, secret: &[u8]) -> (r: Self)
        requires
            secret@.len() == 32,
            identity_key.secret_spec().len() == 32,
        ensures
            r.id_spec() == id,
            r.secret_spec() == secret@,
            r.public_spec() == x25519_public_key(secret@),
            r.public_spec().len() == 32,
            r.signature_spec() == ed25519_signature(identity_key.secret_spec(), r.public_spec()),
            r.signature_spec().len() == 64,
    {
        let public = x25519_public(secret);
        let signature = ed25519_sign(identity_key.secret.as_slice(), public.as_slice());
        Self { id, public, secret: bytes_to_vec(secret), signature }
    }

    /// The public part of a signed pre-key, as a sender receives it: the
    /// id, the public half and the signature, without the secret half.
    pub fn from_public(id: u32, public: Vec<u8>, signature: Vec<u8>) -> (r: Self)
        ensures
            r.id_spec() == id,
            r.public_spec() == public@,
            r.signature_spec() == signature@,
            r.secret_spec() == Seq::<u8>::empty(),
    {
        Self { id, public, secret: Vec::new(), signature }
    }

    /// The key id.
    pub fn key_id(&self) -> (r: u32)
        ensures
            r == self.id_spec(),
    {
        self.id
    }

    /// The public half.
    pub fn public_key(&self) -> (r: &[u8])
        ensures
            r@ == self.public_spec(),
    {
        self.public.as_slice()
    }

    /// The identity's Ed25519 signature of the public half.
    pub fn signature(&self) -> (r: &[u8])
        ensures
            r@ == self.signature_spec(),
    {
        self.signature.as_slice()
    }

    /// Generates a signed pre-key from a random secret, signed by the
    /// identity; an error when the identity's secret is not 32 bytes.
    pub fn generate(id: u32, identity_key: &IdentityKey) -> (r: Result<Self, EncryptionError>)
        ensures
            r is Ok <==> identity_key.secret_spec().len() == 32,
            r matches Err(e) ==> e == EncryptionError::InvalidIdentitySecret,
            r matches Ok(k) ==> k.id_spec() == id && k.secret_spec().len() == 32 && k.public_spec()
                == x25519_public_key(k.secret_spec()) && k.public_spec().len() == 32
                && k.signature_spec() == ed25519_signature(identity_key.secret_spec(), k.public_spec())
                && k.signature_spec().len() == 64,
    {
        if identity_key.secret.len() != 32 {
            return Err(EncryptionError::InvalidIdentitySecret);
        }
        let secret = x25519_random_secret();
        Ok(Self::from_secret(id, identity_key, secret.as_slice()))
    }
}

/// A one-time pre-key.
#[derive(Clone)]
pub struct OneTimePreKey {
    pub id: u32,
    pub public: Vec<u8>,
    secret: Vec<u8>,
}

impl OneTimePreKey {
    /// The key id.
    pub closed spec fn id_spec(&self) -> u32 {
        self.id
    }

    /// The public half.
    pub closed spec fn public_spec(&self) -> Seq<u8> {
        self.public@
    }

    /// The secret half.
    pub closed spec fn secret_spec(&self) -> Seq<u8> {
        self.secret@
    }

    /// The one-time pre-key with the given secret.
    pub fn from_secret(id: u32, secret: &[u8]) -> (r: Self)
        requires
            secret@.len() == 32,
        ensures
            r.id_spec() == id,
            r.secret_spec() == secret@,
            r.public_spec() == x25519_public_key(secret@),
            r.public_spec().len() == 32,
    {
        Self { id, public: x25519_public(secret), secret: bytes_to_vec(secret) }
    }

    /// The public part of a one-time pre-key, as a sender receives it: the
    /// id and the public half, without the secret half.
    pub fn from_public(id: u32, public: Vec<u8>) -> (r: Self)
        ensures
            r.id_spec() == id,
            r.public_spec() == public@,
            r.secret_spec() == Seq::<u8>::empty(),
    {
        Self { id, public, secret: Vec::new() }
    }

    /// The key id.
    pub fn key_id(&self) -> (r: u32)
        ensures
            r == self.id_spec(),
    {
        self.id
    }

    /// The public half.
    pub fn public_key(&self) -> (r: &[u8])
        ensures
            r@ == self.public_spec(),
    {
        self.public.as_slice()
    }

    /// Generates a one-time pre-key from a random secret.
    pub fn generate(id: u32) -> (r: Result<Self, EncryptionError>)
        ensures
            r matches Ok(k) && k.id_spec() == id && k.secret_spec().len() == 32 && k.public_spec()
                == x25519_public_key(k.secret_spec()) && k.public_spec().len() == 32,
    {
        let secret = x25519_random_secret();
        Ok(Self::from_secret(id, secret.as_slice()))
    }
}

/// What a recipient publishes for senders to agree on a key with: the
/// identity's X25519 public key and Ed25519 verifying key, and its pre-keys.
#[derive(Clone)]
pub struct PreKeyBundle {
    pub identity_key: Vec<u8>,
    pub identity_signing_key: Vec<u8>,
    pub signed_prekey: SignedPreKey,
    pub onetime_prekey: Option<OneTimePreKey>,
}

impl PreKeyBundle {
    /// Whether the signed pre-key carries a valid Ed25519 signature of its
    /// public key under the identity's verifying key. A bundle whose
    /// signature the identity made passes.
    pub fn verify_signature(&self) -> (r: bool)
        ensures
            r == ed25519_valid(
                self.identity_signing_key@,
                self.signed_prekey.public_spec(),
                self.signed_prekey.signature_spec(),
            ),
            forall|seed: Seq<u8>|
                seed.len() == 32 && #[trigger] ed25519_verifying_key(seed) == self.identity_signing_key@
                    && self.signed_prekey.signature_spec() == ed25519_signature(
                    seed,
                    self.signed_prekey.public_spec(),
                ) ==> r,
    {
        ed25519_verify(
            self.identity_signing_key.as_slice(),
            self.signed_prekey.public_key(),
            self.signed_prekey.signature(),
        )
    }
}

/// The public key of a bundle's one-time pre-key, if it has one.
pub open spec fn onetime_public(b: PreKeyBundle) -> Option<Seq<u8>> {
    match b.onetime_prekey {
        Some(k) => Some(k.public_spec()),
        None => None,
    }
}

/// An encrypted one-to-one message.
#[derive(Clone)]
pub struct EncryptedMessage {
    pub ephemeral_public: Vec<u8>,
    pub ciphertext: Vec<u8>,
    pub nonce: Vec<u8>,
}

impl View for EncryptedMessage {
    type V = (Seq<u8>, Seq<u8>, Seq<u8>);

    open spec fn view(&self) -> (Seq<u8>, Seq<u8>, Seq<u8>) {
        (self.ephemeral_public@, self.ciphertext@, self.nonce@)
    }
}

/// `DIS-SIGNAL-PROTOCOL`, the label mixed into every derived key.
pub open spec fn kdf_label() -> Seq<u8> {
    seq![68u8, 73, 83, 45, 83, 73, 71, 78, 65, 76, 45, 80, 82, 79, 84, 79, 67, 79, 76]
}

/// The AES key derived from a shared secret: its HMAC-SHA256 tag under the
/// key `DIS-SIGNAL-PROTOCOL`.
pub open spec fn derive_key(shared: Seq<u8>) -> Seq<u8> {
    hmac_sha256_tag(kdf_label(), shared)
}

/// The sender's shared secret for an ephemeral secret and a recipient's
/// identity key, signed pre-key and one-time pre-key: the X25519 agreements
/// with the signed pre-key, the identity key and the one-time pre-key, in
/// that order; or the first key that is not 32 bytes long.
pub open spec fn x3dh_sender_secret(
    ephemeral: Seq<u8>,
    identity: Seq<u8>,
    signed: Seq<u8>,
    onetime: Option<Seq<u8>>,
) -> Result<Seq<u8>, EncryptionError> {
    if identity.len() != 32 {
        Err(EncryptionError::InvalidIdentityKey)
    } else if signed.len() != 32 {
        Err(EncryptionError::InvalidSignedPreKey)
    } else {
        let base = x25519_shared_secret(ephemeral, signed) + x25519_shared_secret(ephemeral, identity);
        match onetime {
            None => Ok(base),
            Some(o) => if o.len() != 32 {
                Err(EncryptionError::InvalidOneTimePreKey)
            } else {
                Ok(base + x25519_shared_secret(ephemeral, o))
            },
        }
    }
}

/// The message a sender makes from an ephemeral secret, a nonce and a
/// plaintext for a bundle, or why it fails.
pub open spec fn sealed_message(
    bundle: PreKeyBundle,
    plaintext: Seq<u8>,
    ephemeral: Seq<u8>,
    nonce: Seq<u8>,
) -> Result<(Seq<u8>, Seq<u8>, Seq<u8>), EncryptionError> {
    match x3dh_sender_secret(
        ephemeral,
        bundle.identity_key@,
        bundle.signed_prekey.public_spec(),
        onetime_public(bundle),
    ) {
        Err(e) => Err(e),
        Ok(shared) => if plaintext.len() <= AES_GCM_MAX_PLAINTEXT {
            Ok(
                (
                    x25519_public_key(ephemeral),
                    aes256gcm_seal(derive_key(shared), nonce, plaintext),
                    nonce,
                ),
            )
        } else {
            Err(EncryptionError::Encryption)
        },
    }
}

/// The secret halves of pre-keys published for an identity: the identity's
/// public key, the signed pre-key's secret and the one-time pre-key's secret.
pub type PublishedView = (Seq<u8>, Seq<u8>, Option<Seq<u8>>);

/// The index of the most recent pre-keys published for the identity whose
/// public key is `identity`.
pub open spec fn latest_published(published: Seq<PublishedView>, identity: Seq<u8>) -> Option<int>
    decreases published.len(),
{
    if published.len() == 0 {
        None
    } else if published.last().0 == identity {
        Some(published.len() - 1)
    } else {
        latest_published(published.drop_last(), identity)
    }
}

/// The index `latest_published` finds holds the identity's pre-keys.
pub proof fn lemma_latest_published_matches(published: Seq<PublishedView>, identity: Seq<u8>)
    ensures
        latest_published(published, identity) matches Some(i) ==> 0 <= i < published.len()
            && published[i].0 == identity,
    decreases published.len(),
{
    if published.len() > 0 && published.last().0 != identity {
        lemma_latest_published_matches(published.drop_last(), identity);
    }
}

/// The recipient's shared secret for published pre-keys, the identity's
/// secret and the sender's ephemeral public key.
pub open spec fn x3dh_receiver_secret(p: PublishedView, identity_secret: Seq<u8>, ephemeral_public: Seq<u8>) -> Seq<u8> {
    let base = x25519_shared_secret(p.1, ephemeral_public) + x25519_shared_secret(
        identity_secret,
        ephemeral_public,
    );
    match p.2 {
        None => base,
        Some(o) => base + x25519_shared_secret(o, ephemeral_public),
    }
}

/// What decrypting `msg` with the identity's secret against the published
/// pre-keys gives: the plaintext, or the first check that fails.
pub open spec fn opened_message(
    published: Seq<PublishedView>,
    identity_public: Seq<u8>,
    identity_secret: Seq<u8>,
    msg: (Seq<u8>, Seq<u8>, Seq<u8>),
) -> Result<Seq<u8>, EncryptionError> {
    if msg.0.len() != 32 {
        Err(EncryptionError::InvalidEphemeralKey)
    } else if identity_secret.len() != 32 {
        Err(EncryptionError::InvalidIdentitySecret)
    } else {
        match latest_published(published, identity_public) {
            None => Err(EncryptionError::UnknownPreKeys),
            Some(i) => match aes256gcm_open(
                derive_key(x3dh_receiver_secret(published[i], identity_secret, msg.0)),
                msg.2,
                msg.1,
            ) {
                Some(p) => Ok(p),
                None => Err(EncryptionError::Decryption),
            },
        }
    }
}

/// The bundle that published pre-keys stand for.
pub open spec fn published_bundle_matches(p: PublishedView, bundle: PreKeyBundle) -> bool {
    &&& bundle.identity_key@ == p.0
    &&& bundle.signed_prekey.public_spec() == x25519_public_key(p.1)
    &&& onetime_public(bundle) == match p.2 {
        Some(o) => Some(x25519_public_key(o)),
        None => None,
    }
}

/// The bundle published last is the one `decrypt` uses for its identity.
pub proof fn lemma_last_bundle_is_latest(published: Seq<PublishedView>, bundle: PreKeyBundle)
    requires
        published.len() > 0,
        published_bundle_matches(published.last(), bundle),
    ensures
        latest_published(published, bundle.identity_key@) == Some(published.len() - 1),
        published_bundle_matches(published[published.len() - 1], bundle),
{
}

/// Whether the byte results agree with a spec result.
pub open spec fn bytes_result(r: Result<Vec<u8>, EncryptionError>, s: Result<Seq<u8>, EncryptionError>) -> bool {
    match (r, s) {
        (Ok(v), Ok(b)) => v@ == b,
        (Err(e1), Err(e2)) => e1 == e2,
        _ => false,
    }
}

/// Whether the message results agree with a spec result.
pub open spec fn message_result(
    r: Result<EncryptedMessage, EncryptionError>,
    s: Result<(Seq<u8>, Seq<u8>, Seq<u8>), EncryptionError>,
) -> bool {
    match (r, s) {
        (Ok(m), Ok(v)) => m@ == v,
        (Err(e1), Err(e2)) => e1 == e2,
        _ => false,
    }
}

struct PublishedPreKeys {
    identity_public: Vec<u8>,
    signed_secret: Vec<u8>,
    onetime_secret: Option<Vec<u8>>,
}

impl View for PublishedPreKeys {
    type V = PublishedView;

    closed spec fn view(&self) -> PublishedView {
        (
            self.identity_public@,
            self.signed_secret@,
            match self.onetime_secret {
                Some(o) => Some(o@),
                None => None,
            },
        )
    }
}

/// The X3DH sender and receiver. It keeps the secret halves of the pre-keys
/// it publishes, so that messages sent to them can be decrypted here.
pub struct SignalProtocol {
    published: Vec<PublishedPreKeys>,
}

/// Published pre-key secrets are 32 bytes long.
pub open spec fn published_well_formed(p: Seq<PublishedView>) -> bool {
    forall|i: int|
        0 <= i < p.len() ==> (#[trigger] p[i]).1.len() == 32 && (p[i].2 matches Some(o) ==> o.len()
            == 32)
}

impl SignalProtocol {
    /// The pre-keys published here, oldest first.
    pub closed spec fn published_spec(&self) -> Seq<PublishedView> {
        self.published@.map_values(|p: PublishedPreKeys| p@)
    }

    /// Every published secret is 32 bytes long.
    #[verifier::type_invariant]
    closed spec fn inv(&self) -> bool {
        published_well_formed(self.published_spec())
    }

    /// A protocol instance that has published nothing.
    pub(crate) fn empty() -> (r: Self)
        ensures
            r.published_spec() == Seq::<PublishedView>::empty(),
    {
        let p = Self { published: Vec::new() };
        assert(p.published_spec() =~= Seq::<PublishedView>::empty());
        p
    }

    /// Creates a protocol instance that has published nothing.
    pub fn new() -> (r: Result<Self, EncryptionError>)
        ensures
            r matches Ok(p) && p.published_spec() == Seq::<PublishedView>::empty(),
    {
        Ok(Self::empty())
    }

    /// Generates an identity key pair.
    pub fn generate_identity(&mut self) -> (r: Result<IdentityKey, EncryptionError>)
        ensures
            final(self).published_spec() == old(self).published_spec(),
            r matches Ok(k) && k.secret_spec().len() == 32 && k.public_spec() == x25519_public_key(
                k.secret_spec(),
            ) && k.public_spec().len() == 32,
    {
        IdentityKey::generate()
    }

    /// Publishes a signed pre-key and a one-time pre-key (both with id 1) for
    /// an identity, keeps their secrets here and returns the bundle, signed by
    /// the identity; the bundle carries public keys and the signature only,
    /// no secret half. An error when the identity's secret is not 32 bytes.
    pub fn generate_prekey_bundle(&mut self, identity_key: &IdentityKey) -> (r: Result<PreKeyBundle, EncryptionError>)
        ensures
            r is Ok <==> identity_key.secret_spec().len() == 32,
            r matches Err(e) ==> e == EncryptionError::InvalidIdentitySecret && final(self).published_spec()
                == old(self).published_spec(),
            r matches Ok(b) ==> {
                &&& b.identity_key@ == identity_key.public_spec()
                &&& b.identity_signing_key@ == ed25519_verifying_key(identity_key.secret_spec())
                &&& b.signed_prekey.id_spec() == 1
                &&& b.signed_prekey.signature_spec() == ed25519_signature(
                    identity_key.secret_spec(),
                    b.signed_prekey.public_spec(),
                )
                &&& b.signed_prekey.public_spec().len() == 32
                &&& b.signed_prekey.signature_spec().len() == 64
                &&& b.signed_prekey.secret_spec().len() == 0
                &&& b.onetime_prekey matches Some(o) && o.id_spec() == 1 && o.public_spec().len() == 32
                    && o.secret_spec().len() == 0
                &&& final(self).published_spec().len() == old(self).published_spec().len() + 1
                &&& final(self).published_spec().drop_last() == old(self).published_spec()
                &&& published_bundle_matches(final(self).published_spec().last(), b)
            },
    {
        let signed_prekey = match SignedPreKey::generate(1, identity_key) {
            Ok(k) => k,
            Err(e) => {
                return Err(e);
            },
        };
        let onetime_prekey = match OneTimePreKey::generate(1) {
            Ok(k) => k,
            Err(e) => {
                return Err(e);
            },
        };
        let identity_signing_key = ed25519_public(identity_key.secret.as_slice());
        let record = PublishedPreKeys {
            identity_public: bytes_to_vec(identity_key.public.as_slice()),
            signed_secret: bytes_to_vec(signed_prekey.secret.as_slice()),
            onetime_secret: Some(bytes_to_vec(onetime_prekey.secret.as_slice())),
        };
        let ghost old_published = self.published_spec();
        proof {
            use_type_invariant(&*self);
        }
        let mut published: Vec<PublishedPreKeys> = Vec::new();
        std::mem::swap(&mut published, &mut self.published);
        published.push(record);
        assert(published@.map_values(|p: PublishedPreKeys| p@) =~= old_published.push(record@));
        self.published = published;
        assert(self.published_spec() =~= old_published.push(record@));
        assert(self.published_spec().drop_last() =~= old_published);
        let signed_public = SignedPreKey::from_public(
            signed_prekey.id,
            bytes_to_vec(signed_prekey.public.as_slice()),
            bytes_to_vec(signed_prekey.signature.as_slice()),
        );
        let onetime_public = OneTimePreKey::from_public(onetime_prekey.id, bytes_to_vec(onetime_prekey.public.as_slice()));
        Ok(PreKeyBundle {
            identity_key: bytes_to_vec(identity_key.public.as_slice()),
            identity_signing_key,
            signed_prekey: signed_public,
            onetime_prekey: Some(onetime_public),
        })
    }

    /// The sender's shared secret (see `x3dh_sender_secret`).
    fn x3dh_sender(
        &self,
        ephemeral: &[u8],
        identity_pub: &[u8],
        signed_prekey_pub: &[u8],
        onetime_prekey_pub: Option<&[u8]>,
    ) -> (r: Result<Vec<u8>, EncryptionError>)
        requires
            ephemeral@.len() == 32,
        ensures
            bytes_result(
                r,
                x3dh_sender_secret(
                    ephemeral@,
                    identity_pub@,
                    signed_prekey_pub@,
                    match onetime_prekey_pub {
                        Some(o) => Some(o@),
                        None => None,
                    },
                ),
            ),
            r matches Ok(v) ==> v@.len() == if onetime_prekey_pub is Some {
                96int
            } else {
                64int
            },
    {
        if identity_pub.len() != 32 {
            return Err(EncryptionError::InvalidIdentityKey);
        }
        if signed_prekey_pub.len() != 32 {
            return Err(EncryptionError::InvalidSignedPreKey);
        }
        let dh1 = x25519_diffie_hellman(ephemeral, signed_prekey_pub);
        let dh2 = x25519_diffie_hellman(ephemeral, identity_pub);
        let mut shared = bytes_to_vec(dh1.as_slice());
        append_bytes(&mut shared, dh2.as_slice());
        match onetime_prekey_pub {
            Some(onetime_pub) => {
                if onetime_pub.len() != 32 {
                    return Err(EncryptionError::InvalidOneTimePreKey);
                }
                let dh3 = x25519_diffie_hellman(ephemeral, onetime_pub);
                append_bytes(&mut shared, dh3.as_slice());
            },
            None => {},
        }
        Ok(shared)
    }

    /// Derives an AES key from a shared secret.
    fn kdf(&self, input: &[u8]) -> (r: Vec<u8>)
        ensures
            r@ == derive_key(input@),
            r@.len() == 32,
    {
        let label: Vec<u8> = vec![68u8, 73, 83, 45, 83, 73, 71, 78, 65, 76, 45, 80, 82, 79, 84, 79, 67, 79, 76];
        assert(label@ =~= kdf_label());
        hmac_sha256(label.as_slice(), input)
    }

    /// Encrypts `plaintext` for a bundle with the given ephemeral secret and
    /// nonce.
    pub fn encrypt_with(
        &self,
        bundle: &PreKeyBundle,
        plaintext: &[u8],
        ephemeral_secret: &[u8],
        nonce: &[u8],
    ) -> (r: Result<EncryptedMessage, EncryptionError>)
        requires
            ephemeral_secret@.len() == 32,
            nonce@.len() == 12,
        ensures
            message_result(r, sealed_message(*bundle, plaintext@, ephemeral_secret@, nonce@)),
            r matches Ok(m) ==> m.ephemeral_public@.len() == 32 && m.nonce@.len() == 12
                && m.ciphertext@.len() == plaintext@.len() + 16,
    {
        let ephemeral_public = x25519_public(ephemeral_secret);
        let onetime: Option<&[u8]> = match &bundle.onetime_prekey {
            Some(k) => Some(k.public.as_slice()),
            None => None,
        };
        let shared = match self.x3dh_sender(
            ephemeral_secret,
            bundle.identity_key.as_slice(),
            bundle.signed_prekey.public.as_slice(),
            onetime,
        ) {
            Ok(s) => s,
            Err(e) => {
                return Err(e);
            },
        };
        let key = self.kdf(shared.as_slice());
        let ciphertext = match aes256gcm_encrypt(key.as_slice(), nonce, plaintext) {
            Some(c) => c,
            None => {
                return Err(EncryptionError::Encryption);
            },
        };
        Ok(EncryptedMessage { ephemeral_public, ciphertext, nonce: bytes_to_vec(nonce) })
    }

    /// Encrypts `plaintext` for a bundle with a fresh ephemeral key and a
    /// random nonce.
    pub fn encrypt(&mut self, bundle: &PreKeyBundle, plaintext: &[u8]) -> (r: Result<EncryptedMessage, EncryptionError>)
        ensures
            final(self).published_spec() == old(self).published_spec(),
            exists|e: Seq<u8>, n: Seq<u8>|
                e.len() == 32 && n.len() == 12 && message_result(
                    r,
                    sealed_message(*bundle, plaintext@, e, n),
                ),
            r matches Ok(m) ==> m.ephemeral_public@.len() == 32 && m.nonce@.len() == 12
                && m.ciphertext@.len() == plaintext@.len() + 16,
    {
        let ephemeral_secret = x25519_random_secret();
        let nonce = random_bytes_12();
        let r = self.encrypt_with(bundle, plaintext, ephemeral_secret.as_slice(), nonce.as_slice());
        assert(ephemeral_secret@.len() == 32 && nonce@.len() == 12 && message_result(
            r,
            sealed_message(*bundle, plaintext@, ephemeral_secret@, nonce@),
        ));
        r
    }

    /// The index of the most recent pre-keys published for an identity.
    fn find_published(&self, identity_public: &[u8]) -> (r: Option<usize>)
        ensures
            match r {
                Some(i) => latest_published(self.published_spec(), identity_public@) == Some(i as int)
                    && i < self.published_spec().len(),
                None => latest_published(self.published_spec(), identity_public@) is None,
            },
    {
        let ghost all = self.published_spec();
        let mut i = self.published.len();
        assert(all.take(i as int) =~= all);
        while i > 0
            invariant
                i <= self.published@.len(),
                all == self.published_spec(),
                all.len() == self.published@.len(),
                latest_published(all, identity_public@) == latest_published(all.take(i as int), identity_public@),
            decreases i,
        {
            let ghost t = all.take(i as int);
            assert(t.last() == all[i - 1]);
            assert(t.drop_last() =~= all.take(i - 1));
            assert(all[i - 1] == self.published@[i - 1]@);
            if bytes_equal(self.published[i - 1].identity_public.as_slice(), identity_public) {
                return Some(i - 1);
            }
            i = i - 1;
        }
        assert(all.take(0).len() == 0);
        None
    }

    /// Decrypts a message sent to pre-keys published here for an identity.
    /// A message encrypted for the bundle most recently published here for
    /// the identity decrypts to its plaintext.
    pub fn decrypt(&mut self, identity_key: &IdentityKey, msg: &EncryptedMessage) -> (r: Result<Vec<u8>, EncryptionError>)
        requires
            msg.ephemeral_public@.len() == 32 && identity_key.secret_spec().len() == 32
                ==> msg.nonce@.len() == 12,
        ensures
            final(self).published_spec() == old(self).published_spec(),
            bytes_result(
                r,
                opened_message(
                    old(self).published_spec(),
                    identity_key.public_spec(),
                    identity_key.secret_spec(),
                    msg@,
                ),
            ),
            forall|b: PreKeyBundle, pt: Seq<u8>, e: Seq<u8>, n: Seq<u8>|
                #[trigger] sealed_message(b, pt, e, n) == Ok::<(Seq<u8>, Seq<u8>, Seq<u8>), EncryptionError>(msg@)
                    && e.len() == 32 && msg.ephemeral_public@.len() == 32
                    && identity_key.secret_spec().len() == 32
                    && identity_key.public_spec() == x25519_public_key(identity_key.secret_spec())
                    && (latest_published(old(self).published_spec(), identity_key.public_spec())
                    matches Some(i) && published_bundle_matches(old(self).published_spec()[i], b))
                    ==> (r matches Ok(p) && p@ == pt),
    {
        proof {
            use_type_invariant(&*self);
        }
        let ghost published = self.published_spec();
        if msg.ephemeral_public.len() != 32 {
            return Err(EncryptionError::InvalidEphemeralKey);
        }
        if identity_key.secret.len() != 32 {
            return Err(EncryptionError::InvalidIdentitySecret);
        }
        let i = match self.find_published(identity_key.public.as_slice()) {
            Some(i) => i,
            None => {
                return Err(EncryptionError::UnknownPreKeys);
            },
        };
        let record = &self.published[i];
        assert(published[i as int] == record@);
        assert(record.signed_secret@.len() == 32);
        let ephemeral = msg.ephemeral_public.as_slice();
        let dh1 = x25519_diffie_hellman(record.signed_secret.as_slice(), ephemeral);
        let dh2 = x25519_diffie_hellman(identity_key.secret.as_slice(), ephemeral);
        let mut shared = bytes_to_vec(dh1.as_slice());
        append_bytes(&mut shared, dh2.as_slice());
        let ghost dh3_spec: Seq<u8> = seq![];
        match &record.onetime_secret {
            Some(o) => {
                assert(o@.len() == 32);
                let dh3 = x25519_diffie_hellman(o.as_slice(), ephemeral);
                append_bytes(&mut shared, dh3.as_slice());
                proof {
                    assert forall|e: Seq<u8>| e.len() == 32 && #[trigger] x25519_public_key(e) == msg.ephemeral_public@
                        implies x25519_shared_secret(o@, msg.ephemeral_public@) == x25519_shared_secret(e, x25519_public_key(o@)) by {}
                }
            },
            None => {},
        }
        assert(shared@ == x3dh_receiver_secret(published[i as int], identity_key.secret_spec(), msg.ephemeral_public@));
        let key = self.kdf(shared.as_slice());
        proof {
            lemma_latest_published_matches(published, identity_key.public_spec());
            assert forall|b: PreKeyBundle, pt: Seq<u8>, e: Seq<u8>, n: Seq<u8>| #[trigger] sealed_message(b, pt, e, n) == Ok::<(Seq<u8>, Seq<u8>, Seq<u8>), EncryptionError>(msg@)
                && e.len() == 32 && identity_key.public_spec() == x25519_public_key(identity_key.secret_spec())
                && published_bundle_matches(published[i as int], b)
                implies key@ == derive_key(x3dh_sender_secret(e, b.identity_key@, b.signed_prekey.public_spec(), onetime_public(b))->Ok_0)
                && msg.nonce@ == n && pt.len() <= AES_GCM_MAX_PLAINTEXT
                && msg.ciphertext@ == aes256gcm_seal(key@, n, pt) by {
                let sh = x3dh_sender_secret(e, b.identity_key@, b.signed_prekey.public_spec(), onetime_public(b));
                let p = published[i as int];
                assert(sh is Ok);
                assert(x25519_public_key(e) == msg.ephemeral_public@);
                assert(dh1@ == x25519_shared_secret(e, x25519_public_key(record.signed_secret@)));
                assert(dh2@ == x25519_shared_secret(e, x25519_public_key(identity_key.secret_spec())));
                assert(b.identity_key@ == p.0);
                assert(p.0 == identity_key.public_spec());
                assert(b.signed_prekey.public_spec() == x25519_public_key(p.1));
                match p.2 {
                    Some(o) => {
                        assert(x25519_shared_secret(o, msg.ephemeral_public@) == x25519_shared_secret(e, x25519_public_key(o)));
                        assert(onetime_public(b) == Some(x25519_public_key(o)));
                    },
                    None => {
                        assert(onetime_public(b) is None);
                    },
                }
                assert(shared@ == sh->Ok_0);
            }
        }
        let plaintext = match aes256gcm_decrypt(key.as_slice(), msg.nonce.as_slice(), msg.ciphertext.as_slice()) {
            Some(p) => p,
            None => {
                return Err(EncryptionError::Decryption);
            },
        };
        Ok(plaintext)
    }
}

/// The nonce of a group message: the four little-endian bytes of the
/// message counter followed by eight random bytes.
pub open spec fn group_nonce(counter: u32, suffix: Seq<u8>) -> Seq<u8> {
    le_bytes(counter as nat, 4) + suffix
}

/// The group message sealed under `key` for the message numbered `counter`:
/// the nonce followed by the ciphertext; or why encryption fails.
pub open spec fn sealed_group_message(key: Seq<u8>, counter: u32, plaintext: Seq<u8>, suffix: Seq<u8>) -> Result<Seq<u8>, EncryptionError> {
    if key.len() != 32 {
        Err(EncryptionError::InvalidSessionKey)
    } else if plaintext.len() > AES_GCM_MAX_PLAINTEXT {
        Err(EncryptionError::Encryption)
    } else {
        Ok(group_nonce(counter, suffix) + aes256gcm_seal(key, group_nonce(counter, suffix), plaintext))
    }
}

/// A sealed group message is a 12-byte nonce followed by the AES-256-GCM
/// ciphertext under that nonce, of a plaintext AES-256-GCM accepts and under
/// a 32-byte key: the data `GroupSession::decrypt` opens to the plaintext.
pub proof fn lemma_sealed_group_message_opens(
    key: Seq<u8>,
    counter: u32,
    plaintext: Seq<u8>,
    suffix: Seq<u8>,
    data: Seq<u8>,
)
    requires
        suffix.len() == 8,
        sealed_group_message(key, counter, plaintext, suffix) == Ok::<Seq<u8>, EncryptionError>(data),
    ensures
        key.len() == 32,
        plaintext.len() <= AES_GCM_MAX_PLAINTEXT,
        group_nonce(counter, suffix).len() == 12,
        data == group_nonce(counter, suffix) + aes256gcm_seal(key, group_nonce(counter, suffix), plaintext),
        data.take(12) == group_nonce(counter, suffix),
{
    lemma_le_bytes_len(counter as nat, 4);
    let n = group_nonce(counter, suffix);
    assert((n + aes256gcm_seal(key, n, plaintext)).take(12) =~= n);
}

/// Group messages sealed for different message numbers carry different
/// nonces, so a session that accepted one of them does not take the other
/// for a replay.
pub proof fn lemma_group_nonces_differ(
    key: Seq<u8>,
    first: u32,
    first_plaintext: Seq<u8>,
    first_suffix: Seq<u8>,
    first_data: Seq<u8>,
    second: u32,
    second_plaintext: Seq<u8>,
    second_suffix: Seq<u8>,
    second_data: Seq<u8>,
)
    requires
        first_suffix.len() == 8,
        second_suffix.len() == 8,
        sealed_group_message(key, first, first_plaintext, first_suffix) == Ok::<Seq<u8>, EncryptionError>(first_data),
        sealed_group_message(key, second, second_plaintext, second_suffix) == Ok::<Seq<u8>, EncryptionError>(
            second_data,
        ),
        first != second,
    ensures
        first_data.take(12) != second_data.take(12),
{
    lemma_sealed_group_message_opens(key, first, first_plaintext, first_suffix, first_data);
    lemma_sealed_group_message_opens(key, second, second_plaintext, second_suffix, second_data);
    lemma_le_bytes_len(first as nat, 4);
    lemma_le_bytes_len(second as nat, 4);
    assert(pow256(4) == 4294967296) by {
        reveal_with_fuel(pow256, 5);
    }
    lemma_le_value_bytes(first as nat, 4);
    lemma_le_value_bytes(second as nat, 4);
    if first_data.take(12) == second_data.take(12) {
        assert(group_nonce(first, first_suffix).take(4) =~= le_bytes(first as nat, 4));
        assert(group_nonce(second, second_suffix).take(4) =~= le_bytes(second as nat, 4));
        assert(le_bytes(first as nat, 4) == le_bytes(second as nat, 4));
    }
}

/// What decrypting group data under `key` gives: the plaintext, or the first
/// check that fails.
pub open spec fn opened_group_message(key: Seq<u8>, data: Seq<u8>) -> Result<Seq<u8>, EncryptionError> {
    if data.len() < 12 {
        Err(EncryptionError::InvalidEncryptedData)
    } else if key.len() != 32 {
        Err(EncryptionError::InvalidSessionKey)
    } else {
        match aes256gcm_open(key, data.take(12), data.skip(12)) {
            Some(p) => Ok(p),
            None => Err(EncryptionError::Decryption),
        }
    }
}

/// What decrypting group data under `key` gives to a session that has
/// accepted the messages whose nonces are `accepted`: the plaintext, the
/// first check that fails, or a refusal of a message whose nonce was
/// accepted before.
pub open spec fn received_group_message(key: Seq<u8>, accepted: Seq<Seq<u8>>, data: Seq<u8>) -> Result<
    Seq<u8>,
    EncryptionError,
> {
    match opened_group_message(key, data) {
        Err(e) => Err(e),
        Ok(p) => if accepted.contains(data.take(12)) {
            Err(EncryptionError::ReplayedMessage)
        } else {
            Ok(p)
        },
    }
}

/// The byte views of a list of byte vectors.
pub open spec fn byte_views(v: Seq<Vec<u8>>) -> Seq<Seq<u8>> {
    v.map_values(|n: Vec<u8>| n@)
}

/// A group chat's shared AES-256-GCM session, the number of messages it has
/// sent and the nonces of the messages it has accepted.
#[derive(Clone)]
pub struct GroupSession {
    pub group_id: String,
    session_key: Vec<u8>,
    message_counter: u32,
    accepted_nonces: Vec<Vec<u8>>,
}

impl GroupSession {
    /// The group's id.
    pub closed spec fn group_id_spec(&self) -> Seq<char> {
        self.group_id@
    }

    /// The session key.
    pub closed spec fn key(&self) -> Seq<u8> {
        self.session_key@
    }

    /// The number of messages encrypted so far.
    pub closed spec fn counter(&self) -> u32 {
        self.message_counter
    }

    /// The nonces of the messages accepted so far, in the order they came.
    pub closed spec fn accepted(&self) -> Seq<Seq<u8>> {
        byte_views(self.accepted_nonces@)
    }

    /// A session for `group_id` restored from its key and the number of
    /// messages it has sent, with no message accepted yet.
    pub fn from_parts(group_id: String, session_key: Vec<u8>, message_counter: u32) -> (r: Self)
        ensures
            r.group_id_spec() == group_id@,
            r.key() == session_key@,
            r.counter() == message_counter,
            r.accepted() == Seq::<Seq<u8>>::empty(),
    {
        let accepted_nonces: Vec<Vec<u8>> = Vec::new();
        proof {
            assert(byte_views(accepted_nonces@) =~= Seq::<Seq<u8>>::empty());
        }
        Self { group_id, session_key, message_counter, accepted_nonces }
    }

    /// A session for `group_id` with the given key and no messages yet.
    pub fn from_key(group_id: String, session_key: Vec<u8>) -> (r: Self)
        ensures
            r.group_id_spec() == group_id@,
            r.key() == session_key@,
            r.counter() == 0,
            r.accepted() == Seq::<Seq<u8>>::empty(),
    {
        Self::from_parts(group_id, session_key, 0)
    }

    /// The session key.
    pub fn session_key(&self) -> (r: &[u8])
        ensures
            r@ == self.key(),
    {
        self.session_key.as_slice()
    }

    /// The number of messages encrypted so far.
    pub fn message_count(&self) -> (r: u32)
        ensures
            r == self.counter(),
    {
        self.message_counter
    }

    /// A session for `group_id` with a random 32-byte key.
    pub fn new(group_id: String) -> (r: Result<Self, EncryptionError>)
        ensures
            r matches Ok(s) && s.group_id_spec() == group_id@ && s.key().len() == 32 && s.counter() == 0
                && s.accepted() == Seq::<Seq<u8>>::empty(),
    {
        let session_key = random_bytes_32();
        Ok(Self::from_key(group_id, session_key))
    }

    /// The group's id.
    pub fn id(&self) -> (r: &str)
        ensures
            r@ == self.group_id_spec(),
    {
        self.group_id.as_str()
    }

    /// A copy of the session.
    pub fn duplicate(&self) -> (r: Self)
        ensures
            r.group_id_spec() == self.group_id_spec(),
            r.key() == self.key(),
            r.counter() == self.counter(),
            r.accepted() == self.accepted(),
    {
        Self {
            group_id: self.group_id.clone(),
            session_key: bytes_to_vec(self.session_key.as_slice()),
            message_counter: self.message_counter,
            accepted_nonces: copy_byte_vecs(&self.accepted_nonces),
        }
    }

    /// Encrypts a group message with the given eight nonce bytes after the
    /// counter, and counts it.
    pub fn encrypt_with_suffix(&mut self, plaintext: &[u8], suffix: &[u8]) -> (r: Result<Vec<u8>, EncryptionError>)
        requires
            suffix@.len() == 8,
            old(self).counter() < u32::MAX || old(self).key().len() != 32 || plaintext@.len()
                > AES_GCM_MAX_PLAINTEXT,
        ensures
            bytes_result(r, sealed_group_message(old(self).key(), old(self).counter(), plaintext@, suffix@)),
            r matches Ok(v) ==> v@.len() == plaintext@.len() + 28,
            r matches Ok(v) ==> old(self).key().len() == 32 && plaintext@.len() <= AES_GCM_MAX_PLAINTEXT
                && v@ == v@.take(12) + aes256gcm_seal(old(self).key(), v@.take(12), plaintext@),
            final(self).group_id_spec() == old(self).group_id_spec(),
            final(self).key() == old(self).key(),
            final(self).accepted() == old(self).accepted(),
            final(self).counter() == if r is Ok {
                old(self).counter() + 1
            } else {
                old(self).counter() as int
            },
    {
        if self.session_key.len() != 32 {
            return Err(EncryptionError::InvalidSessionKey);
        }
        let mut nonce = le_bytes_exec(self.message_counter as u64, 4);
        append_bytes(&mut nonce, suffix);
        proof {
            lemma_le_bytes_len(self.message_counter as nat, 4);
        }
        assert(nonce@ == group_nonce(self.message_counter, suffix@));
        let ciphertext = match aes256gcm_encrypt(self.session_key.as_slice(), nonce.as_slice(), plaintext) {
            Some(c) => c,
            None => {
                return Err(EncryptionError::Encryption);
            },
        };
        self.message_counter = self.message_counter + 1;
        let ghost n = nonce@;
        append_bytes(&mut nonce, ciphertext.as_slice());
        assert(nonce@.take(12) =~= n);
        Ok(nonce)
    }

    /// Encrypts a group message: the nonce is the message counter followed
    /// by eight random bytes, and it is sent in front of the ciphertext.
    pub fn encrypt(&mut self, plaintext: &[u8]) -> (r: Result<Vec<u8>, EncryptionError>)
        requires
            old(self).counter() < u32::MAX || old(self).key().len() != 32 || plaintext@.len()
                > AES_GCM_MAX_PLAINTEXT,
        ensures
            exists|suffix: Seq<u8>|
                suffix.len() == 8 && bytes_result(
                    r,
                    sealed_group_message(old(self).key(), old(self).counter(), plaintext@, suffix),
                ),
            r matches Ok(v) ==> v@.len() == plaintext@.len() + 28,
            r matches Ok(v) ==> old(self).key().len() == 32 && plaintext@.len() <= AES_GCM_MAX_PLAINTEXT
                && v@ == v@.take(12) + aes256gcm_seal(old(self).key(), v@.take(12), plaintext@),
            final(self).group_id_spec() == old(self).group_id_spec(),
            final(self).key() == old(self).key(),
            final(self).accepted() == old(self).accepted(),
            final(self).counter() == if r is Ok {
                old(self).counter() + 1
            } else {
                old(self).counter() as int
            },
    {
        let suffix = random_bytes_8();
        let r = self.encrypt_with_suffix(plaintext, suffix.as_slice());
        assert(suffix@.len() == 8);
        r
    }

    /// Decrypts group data: the first 12 bytes are the nonce, the rest the
    /// ciphertext. A message whose nonce this session has already accepted
    /// is refused as a replay; any other message that opens is accepted, in
    /// whatever order and from whichever member it comes, and its nonce is
    /// recorded. Data this session's key sealed under a nonce not accepted
    /// before decrypts to its plaintext.
    pub fn decrypt(&mut self, data: &[u8]) -> (r: Result<Vec<u8>, EncryptionError>)
        ensures
            final(self).group_id_spec() == old(self).group_id_spec(),
            final(self).key() == old(self).key(),
            final(self).counter() == old(self).counter(),
            bytes_result(r, received_group_message(old(self).key(), old(self).accepted(), data@)),
            final(self).accepted() == if r is Ok {
                old(self).accepted().push(data@.take(12))
            } else {
                old(self).accepted()
            },
            forall|nonce: Seq<u8>, plaintext: Seq<u8>|
                nonce.len() == 12 && plaintext.len() <= AES_GCM_MAX_PLAINTEXT && old(self).key().len() == 32
                    && !old(self).accepted().contains(nonce)
                    && data@ == nonce + #[trigger] aes256gcm_seal(old(self).key(), nonce, plaintext)
                    ==> (r matches Ok(p) && p@ == plaintext),
    {
        if data.len() < 12 {
            return Err(EncryptionError::InvalidEncryptedData);
        }
        let nonce = crate::bytes::subrange_to_vec(data, 0, 12);
        let ciphertext = crate::bytes::subrange_to_vec(data, 12, data.len());
        assert(nonce@ == data@.take(12));
        assert(ciphertext@ == data@.skip(12));
        if self.session_key.len() != 32 {
            return Err(EncryptionError::InvalidSessionKey);
        }
        proof {
            assert forall|n: Seq<u8>, p: Seq<u8>|
                n.len() == 12 && p.len() <= AES_GCM_MAX_PLAINTEXT
                    && data@ == n + #[trigger] aes256gcm_seal(self.key(), n, p)
                    implies nonce@ == n && ciphertext@ == aes256gcm_seal(self.key(), n, p) by {
                assert((n + aes256gcm_seal(self.key(), n, p)).take(12) =~= n);
                assert((n + aes256gcm_seal(self.key(), n, p)).skip(12) =~= aes256gcm_seal(self.key(), n, p));
            }
        }
        let plaintext = match aes256gcm_decrypt(self.session_key.as_slice(), nonce.as_slice(), ciphertext.as_slice()) {
            Some(p) => p,
            None => {
                return Err(EncryptionError::Decryption);
            },
        };
        if contains_bytes(&self.accepted_nonces, nonce.as_slice()) {
            return Err(EncryptionError::ReplayedMessage);
        }
        let ghost before = self.accepted_nonces@;
        self.accepted_nonces.push(nonce);
        proof {
            assert(byte_views(self.accepted_nonces@) =~= byte_views(before).push(data@.take(12)));
        }
        Ok(plaintext)
    }
}

/// Whether a list of byte vectors holds `x`.
fn contains_bytes(list: &Vec<Vec<u8>>, x: &[u8]) -> (r: bool)
    ensures
        r == byte_views(list@).contains(x@),
{
    let n = list.len();
    let mut j: usize = 0;
    while j < n
        invariant
            n == list@.len(),
            j <= n,
            forall|k: int| 0 <= k < j ==> #[trigger] list@[k]@ != x@,
        decreases n - j,
    {
        if bytes_equal(list[j].as_slice(), x) {
            assert(byte_views(list@)[j as int] == x@);
            return true;
        }
        j = j + 1;
    }
    assert forall|k: int| 0 <= k < byte_views(list@).len() implies #[trigger] byte_views(list@)[k] != x@ by {
        assert(byte_views(list@)[k] == list@[k]@);
    }
    false
}

/// A fresh copy of a list of byte vectors.
fn copy_byte_vecs(v: &Vec<Vec<u8>>) -> (r: Vec<Vec<u8>>)
    ensures
        byte_views(r@) == byte_views(v@),
{
    let mut r: Vec<Vec<u8>> = Vec::new();
    let n = v.len();
    let mut i: usize = 0;
    while i < n
        invariant
            n == v@.len(),
            i <= n,
            r@.len() == i,
            forall|k: int| 0 <= k < i ==> #[trigger] r@[k]@ == v@[k]@,
        decreases n - i,
    {
        r.push(bytes_to_vec(v[i].as_slice()));
        i = i + 1;
    }
    assert(byte_views(r@) =~= byte_views(v@));
    r
}

} // verus!
