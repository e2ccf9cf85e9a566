use aes_gcm::aead::{Aead, KeyInit};
use aes_gcm::{Aes256Gcm, Key, Nonce};
use dis::encryption::EncryptionService;
use dis::error::EncryptionError;
use dis::signal_protocol::{
    EncryptedMessage, GroupSession, IdentityKey, OneTimePreKey, PreKeyBundle, SignalProtocol,
    SignedPreKey,
};
use ed25519_dalek::{Signature, SigningKey, Verifier};
use hmac::{Hmac, Mac};
use sha2::Sha256;
use x25519_dalek::{PublicKey, StaticSecret};

fn public_of(secret: [u8; 32]) -> [u8; 32] {
    PublicKey::from(&StaticSecret::from(secret)).to_bytes()
}

fn dh(secret: [u8; 32], public: [u8; 32]) -> [u8; 32] {
    StaticSecret::from(secret).diffie_hellman(&PublicKey::from(public)).to_bytes()
}

fn kdf(shared: &[u8]) -> Vec<u8> {
    let mut mac = <Hmac<Sha256> as Mac>::new_from_slice(b"DIS-SIGNAL-PROTOCOL").unwrap();
    mac.update(shared);
    mac.finalize().into_bytes().to_vec()
}

fn bundle_for(identity: &IdentityKey, signed: [u8; 32], onetime: Option<[u8; 32]>) -> PreKeyBundle {
    PreKeyBundle {
        identity_key: identity.public.clone(),
        identity_signing_key: identity.signing_public_key().unwrap(),
        signed_prekey: SignedPreKey::from_secret(1, identity, &signed),
        onetime_prekey: onetime.map(|s| OneTimePreKey::from_secret(1, &s)),
    }
}

#[test]
fn identity_key_from_secret_is_x25519() {
    let secret = [5u8; 32];
    let key = IdentityKey::from_secret(&secret);
    assert_eq!(key.public_key(), &public_of(secret)[..]);
    assert_eq!(key.secret_key(), &secret[..]);
}

#[test]
fn signed_prekey_is_signed_with_ed25519_by_the_identity() {
    let identity = IdentityKey::from_secret(&[1u8; 32]);
    let prekey = SignedPreKey::from_secret(7, &identity, &[2u8; 32]);
    assert_eq!(prekey.id, 7);
    assert_eq!(prekey.public, public_of([2u8; 32]).to_vec());
    let signing = SigningKey::from_bytes(&[1u8; 32]);
    let verifying = signing.verifying_key();
    assert_eq!(identity.signing_public_key().unwrap(), verifying.to_bytes().to_vec());
    let sig: [u8; 64] = prekey.signature.clone().try_into().unwrap();
    assert!(verifying.verify(&prekey.public, &Signature::from_bytes(&sig)).is_ok());
    let other = SigningKey::from_bytes(&[9u8; 32]).verifying_key();
    assert!(other.verify(&prekey.public, &Signature::from_bytes(&sig)).is_err());
}

#[test]
fn bundle_signatures_are_checked() {
    let mut protocol = SignalProtocol::new().unwrap();
    let identity = protocol.generate_identity().unwrap();
    let bundle = protocol.generate_prekey_bundle(&identity).unwrap();
    assert!(bundle.verify_signature());
    assert_eq!(bundle.identity_signing_key, identity.signing_public_key().unwrap());
    let mut forged = bundle.clone();
    forged.signed_prekey.public[0] ^= 1;
    assert!(!forged.verify_signature());
    let mut wrong_key = bundle.clone();
    wrong_key.identity_signing_key = IdentityKey::from_secret(&[4u8; 32]).signing_public_key().unwrap();
    assert!(!wrong_key.verify_signature());
    let mut short = bundle.clone();
    short.signed_prekey.signature.truncate(10);
    assert!(!short.verify_signature());
}

#[test]
fn onetime_prekey_from_secret() {
    let k = OneTimePreKey::from_secret(3, &[4u8; 32]);
    assert_eq!(k.id, 3);
    assert_eq!(k.public, public_of([4u8; 32]).to_vec());
}

#[test]
fn generated_bundle_has_ids_one() {
    let mut protocol = SignalProtocol::new().unwrap();
    let identity = protocol.generate_identity().unwrap();
    let bundle = protocol.generate_prekey_bundle(&identity).unwrap();
    assert_eq!(bundle.identity_key, identity.public);
    assert_eq!(bundle.signed_prekey.id, 1);
    assert_eq!(bundle.onetime_prekey.as_ref().unwrap().id, 1);
    assert_eq!(bundle.signed_prekey.public.len(), 32);
}

#[test]
fn x3dh_message_matches_manual_derivation() {
    let protocol = SignalProtocol::new().unwrap();
    let identity = IdentityKey::from_secret(&[11u8; 32]);
    let bundle = bundle_for(&identity, [12u8; 32], Some([13u8; 32]));
    let eph = [14u8; 32];
    let nonce = [15u8; 12];
    let msg = protocol.encrypt_with(&bundle, b"hi there", &eph, &nonce).unwrap();
    assert_eq!(msg.ephemeral_public, public_of(eph).to_vec());
    assert_eq!(msg.nonce, nonce.to_vec());

    let mut shared = Vec::new();
    shared.extend_from_slice(&dh(eph, public_of([12u8; 32])));
    shared.extend_from_slice(&dh(eph, identity.public.clone().try_into().unwrap()));
    shared.extend_from_slice(&dh(eph, public_of([13u8; 32])));
    let key = kdf(&shared);
    let cipher = Aes256Gcm::new(Key::<Aes256Gcm>::from_slice(&key));
    let expected = cipher.encrypt(Nonce::from_slice(&nonce), &b"hi there"[..]).unwrap();
    assert_eq!(msg.ciphertext, expected);
}

#[test]
fn x3dh_without_onetime_prekey_uses_two_agreements() {
    let protocol = SignalProtocol::new().unwrap();
    let identity = IdentityKey::from_secret(&[21u8; 32]);
    let bundle = bundle_for(&identity, [22u8; 32], None);
    let eph = [23u8; 32];
    let nonce = [24u8; 12];
    let msg = protocol.encrypt_with(&bundle, b"x", &eph, &nonce).unwrap();
    let mut shared = Vec::new();
    shared.extend_from_slice(&dh(eph, public_of([22u8; 32])));
    shared.extend_from_slice(&dh(eph, public_of([21u8; 32])));
    let key = kdf(&shared);
    let cipher = Aes256Gcm::new(Key::<Aes256Gcm>::from_slice(&key));
    let plain = cipher.decrypt(Nonce::from_slice(&nonce), msg.ciphertext.as_slice()).unwrap();
    assert_eq!(plain, b"x".to_vec());
}

#[test]
fn malformed_bundles_are_refused_in_order() {
    let protocol = SignalProtocol::new().unwrap();
    let identity = IdentityKey::from_secret(&[1u8; 32]);
    let eph = [2u8; 32];
    let nonce = [3u8; 12];

    let mut b = bundle_for(&identity, [4u8; 32], Some([5u8; 32]));
    b.identity_key = vec![0u8; 31];
    b.signed_prekey.public = vec![0u8; 3];
    assert_eq!(protocol.encrypt_with(&b, b"m", &eph, &nonce).err(), Some(EncryptionError::InvalidIdentityKey));

    let mut b = bundle_for(&identity, [4u8; 32], Some([5u8; 32]));
    b.signed_prekey.public = vec![0u8; 33];
    assert_eq!(protocol.encrypt_with(&b, b"m", &eph, &nonce).err(), Some(EncryptionError::InvalidSignedPreKey));

    let mut b = bundle_for(&identity, [4u8; 32], Some([5u8; 32]));
    b.onetime_prekey.as_mut().unwrap().public = Vec::new();
    assert_eq!(protocol.encrypt_with(&b, b"m", &eph, &nonce).err(), Some(EncryptionError::InvalidOneTimePreKey));
}

#[test]
fn decrypt_errors() {
    let mut protocol = SignalProtocol::new().unwrap();
    let identity = protocol.generate_identity().unwrap();
    let stranger = IdentityKey::from_secret(&[9u8; 32]);
    let bundle = protocol.generate_prekey_bundle(&identity).unwrap();
    let msg = protocol.encrypt(&bundle, b"payload").unwrap();

    let short = EncryptedMessage { ephemeral_public: vec![1u8; 5], ciphertext: msg.ciphertext.clone(), nonce: msg.nonce.clone() };
    assert_eq!(protocol.decrypt(&identity, &short), Err(EncryptionError::InvalidEphemeralKey));

    assert_eq!(protocol.decrypt(&stranger, &msg), Err(EncryptionError::UnknownPreKeys));

    let mut tampered = msg.clone();
    tampered.ciphertext[0] ^= 1;
    assert_eq!(protocol.decrypt(&identity, &tampered), Err(EncryptionError::Decryption));

    assert_eq!(protocol.decrypt(&identity, &msg).unwrap(), b"payload".to_vec());
}

#[test]
fn message_to_older_bundle_fails_after_new_bundle() {
    let mut protocol = SignalProtocol::new().unwrap();
    let identity = protocol.generate_identity().unwrap();
    let old_bundle = protocol.generate_prekey_bundle(&identity).unwrap();
    let old_msg = protocol.encrypt(&old_bundle, b"old").unwrap();
    let new_bundle = protocol.generate_prekey_bundle(&identity).unwrap();
    let new_msg = protocol.encrypt(&new_bundle, b"new").unwrap();
    assert_eq!(protocol.decrypt(&identity, &new_msg).unwrap(), b"new".to_vec());
    assert_eq!(protocol.decrypt(&identity, &old_msg), Err(EncryptionError::Decryption));
}

#[test]
fn empty_plaintext_round_trips() {
    let mut protocol = SignalProtocol::new().unwrap();
    let identity = protocol.generate_identity().unwrap();
    let bundle = protocol.generate_prekey_bundle(&identity).unwrap();
    let msg = protocol.encrypt(&bundle, b"").unwrap();
    assert_eq!(msg.ciphertext.len(), 16);
    assert_eq!(protocol.decrypt(&identity, &msg).unwrap(), Vec::<u8>::new());
}

#[test]
fn group_nonce_is_counter_then_suffix() {
    let key = vec![8u8; 32];
    let mut session = GroupSession::from_key("g".to_string(), key.clone());
    let first = session.encrypt_with_suffix(b"one", &[0xAA; 8]).unwrap();
    let second = session.encrypt_with_suffix(b"two", &[0xBB; 8]).unwrap();
    assert_eq!(&first[..4], &[0, 0, 0, 0]);
    assert_eq!(&first[4..12], &[0xAA; 8]);
    assert_eq!(&second[..4], &[1, 0, 0, 0]);
    assert_eq!(&second[4..12], &[0xBB; 8]);
    let cipher = Aes256Gcm::new(Key::<Aes256Gcm>::from_slice(&key));
    let plain = cipher.decrypt(Nonce::from_slice(&second[..12]), &second[12..]).unwrap();
    assert_eq!(plain, b"two".to_vec());
    assert_eq!(session.decrypt(&first).unwrap(), b"one".to_vec());
    assert_eq!(session.id(), "g");
}

#[test]
fn group_session_errors() {
    let mut bad_key = GroupSession::from_key("g".to_string(), vec![1u8; 16]);
    assert_eq!(bad_key.encrypt(b"m"), Err(EncryptionError::InvalidSessionKey));
    assert_eq!(bad_key.decrypt(&[0u8; 40]), Err(EncryptionError::InvalidSessionKey));
    let mut session = GroupSession::new("g".to_string()).unwrap();
    assert_eq!(session.decrypt(&[0u8; 11]), Err(EncryptionError::InvalidEncryptedData));
    assert_eq!(session.decrypt(&[0u8; 12]), Err(EncryptionError::Decryption));
    let mut data = session.encrypt(b"m").unwrap();
    let last = data.len() - 1;
    data[last] ^= 0x80;
    assert_eq!(session.decrypt(&data), Err(EncryptionError::Decryption));
}

#[test]
fn group_session_duplicate_shares_key() {
    let mut session = GroupSession::new("team".to_string()).unwrap();
    let mut copy = session.duplicate();
    let data = session.encrypt(b"hello").unwrap();
    assert_eq!(copy.decrypt(&data).unwrap(), b"hello".to_vec());
}

#[test]
fn service_unknown_group() {
    let mut service = EncryptionService::new().unwrap();
    assert_eq!(service.encrypt_group_message("nope", b"m"), Err(EncryptionError::GroupSessionNotFound));
    assert_eq!(service.decrypt_group_message("nope", b"m"), Err(EncryptionError::GroupSessionNotFound));
}

#[test]
fn service_create_replaces_session() {
    let mut service = EncryptionService::default();
    let first = service.create_group_session("g".to_string()).unwrap();
    let data = service.encrypt_group_message("g", b"before").unwrap();
    let second = service.create_group_session("g".to_string()).unwrap();
    assert_eq!(first.id(), "g");
    assert_eq!(second.id(), "g");
    assert_eq!(service.decrypt_group_message("g", &data), Err(EncryptionError::Decryption));
    let data = service.encrypt_group_message("g", b"after").unwrap();
    assert_eq!(&data[..4], &[0, 0, 0, 0]);
    assert_eq!(service.decrypt_group_message("g", &data).unwrap(), b"after".to_vec());
}

#[test]
fn service_group_counter_advances() {
    let mut service = EncryptionService::new().unwrap();
    let mut copy = service.create_group_session("g".to_string()).unwrap();
    service.create_group_session("h".to_string()).unwrap();
    let a = service.encrypt_group_message("g", b"a").unwrap();
    let b = service.encrypt_group_message("g", b"b").unwrap();
    let c = service.encrypt_group_message("h", b"c").unwrap();
    assert_eq!(&a[..4], &[0, 0, 0, 0]);
    assert_eq!(&b[..4], &[1, 0, 0, 0]);
    assert_eq!(&c[..4], &[0, 0, 0, 0]);
    assert_eq!(copy.decrypt(&b).unwrap(), b"b".to_vec());
    assert_eq!(service.decrypt_group_message("g", &c), Err(EncryptionError::Decryption));
}

#[test]
fn service_one_to_one_errors() {
    let mut alice = EncryptionService::new().unwrap();
    let mut bob = EncryptionService::new().unwrap();
    let bob_identity = bob.generate_identity().unwrap();
    let bundle = bob.generate_prekey_bundle(&bob_identity).unwrap();
    let msg = alice.encrypt_message(&bundle, b"to bob").unwrap();
    assert_eq!(alice.decrypt_message(&bob_identity, &msg), Err(EncryptionError::UnknownPreKeys));
    assert_eq!(bob.decrypt_message(&bob_identity, &msg).unwrap(), b"to bob".to_vec());
}

#[test]
fn replayed_group_message_is_refused() {
    let mut sender = GroupSession::from_key("g".to_string(), vec![3u8; 32]);
    let mut receiver = sender.duplicate();
    let first = sender.encrypt(b"one").unwrap();
    let second = sender.encrypt(b"two").unwrap();
    assert_eq!(receiver.decrypt(&first).unwrap(), b"one".to_vec());
    assert_eq!(receiver.decrypt(&first), Err(EncryptionError::ReplayedMessage));
    assert_eq!(receiver.decrypt(&second).unwrap(), b"two".to_vec());
    assert_eq!(receiver.decrypt(&first), Err(EncryptionError::ReplayedMessage));
    assert_eq!(receiver.decrypt(&second), Err(EncryptionError::ReplayedMessage));
}

#[test]
fn failed_decryption_records_nothing() {
    let mut sender = GroupSession::from_key("g".to_string(), vec![3u8; 32]);
    let mut receiver = sender.duplicate();
    let _ = sender.encrypt(b"zero").unwrap();
    let one = sender.encrypt(b"one").unwrap();
    let mut forged = one.clone();
    forged[13] ^= 1;
    assert_eq!(receiver.decrypt(&forged), Err(EncryptionError::Decryption));
    assert_eq!(receiver.decrypt(&one).unwrap(), b"one".to_vec());
}

#[test]
fn service_refuses_replayed_group_messages() {
    let mut service = EncryptionService::new().unwrap();
    service.create_group_session("g".to_string()).unwrap();
    let data = service.encrypt_group_message("g", b"hi").unwrap();
    assert_eq!(data.len(), 2 + 28);
    assert_eq!(service.decrypt_group_message("g", &data).unwrap(), b"hi".to_vec());
    assert_eq!(service.decrypt_group_message("g", &data), Err(EncryptionError::ReplayedMessage));
}

#[test]
fn message_and_key_lengths() {
    let mut protocol = SignalProtocol::new().unwrap();
    let identity = protocol.generate_identity().unwrap();
    assert_eq!(identity.public_key().len(), 32);
    let bundle = protocol.generate_prekey_bundle(&identity).unwrap();
    assert_eq!(bundle.signed_prekey.public_key().len(), 32);
    assert_eq!(bundle.signed_prekey.signature().len(), 64);
    assert_eq!(bundle.onetime_prekey.as_ref().unwrap().public_key().len(), 32);
    let msg = protocol.encrypt(&bundle, b"abcde").unwrap();
    assert_eq!(msg.ciphertext.len(), 5 + 16);
    assert_eq!(msg.nonce.len(), 12);
}

#[test]
fn group_messages_out_of_order_and_from_other_members_are_accepted() {
    let mut alice = GroupSession::from_key("g".to_string(), vec![4u8; 32]);
    let mut bob = alice.duplicate();
    let mut carol = alice.duplicate();
    let a0 = alice.encrypt(b"a0").unwrap();
    let a1 = alice.encrypt(b"a1").unwrap();
    let b0 = bob.encrypt(b"b0").unwrap();
    assert_eq!(&a0[..4], &[0, 0, 0, 0]);
    assert_eq!(&b0[..4], &[0, 0, 0, 0]);
    assert_eq!(carol.decrypt(&a1).unwrap(), b"a1".to_vec());
    assert_eq!(carol.decrypt(&a0).unwrap(), b"a0".to_vec());
    assert_eq!(carol.decrypt(&b0).unwrap(), b"b0".to_vec());
    assert_eq!(carol.decrypt(&a0), Err(EncryptionError::ReplayedMessage));
    assert_eq!(carol.decrypt(&b0), Err(EncryptionError::ReplayedMessage));
}

#[test]
fn group_session_parts_round_trip() {
    let mut s = GroupSession::from_parts("g".to_string(), vec![8u8; 32], 5);
    assert_eq!(s.session_key(), &[8u8; 32][..]);
    assert_eq!(s.message_count(), 5);
    let data = s.encrypt(b"x").unwrap();
    assert_eq!(&data[..4], &[5, 0, 0, 0]);
    assert_eq!(s.message_count(), 6);
}

#[test]
fn published_prekeys_carry_public_parts() {
    let identity = IdentityKey::from_secret(&[21u8; 32]);
    let full = SignedPreKey::from_secret(7, &identity, &[22u8; 32]);
    let public = SignedPreKey::from_public(full.key_id(), full.public.clone(), full.signature.clone());
    assert_eq!(public.key_id(), 7);
    assert_eq!(public.public_key(), full.public_key());
    assert_eq!(public.signature(), full.signature());
    let onetime = OneTimePreKey::from_public(9, public_of([23u8; 32]).to_vec());
    assert_eq!(onetime.key_id(), 9);
    assert_eq!(onetime.public_key(), &public_of([23u8; 32])[..]);
}
