use dis::encryption::EncryptionService;
use dis::signal_protocol::{GroupSession, IdentityKey, SignalProtocol};

#[test]
fn test_one_to_one_encryption() {
    let mut alice = EncryptionService::new().unwrap();
    let mut bob = EncryptionService::new().unwrap();

    // Generate keys
    let _alice_identity = alice.generate_identity().unwrap();
    let bob_identity = bob.generate_identity().unwrap();

    // Generate pre-key bundles
    let bob_bundle = bob.generate_prekey_bundle(&bob_identity).unwrap();

    // Alice encrypts message to Bob
    let plaintext = b"Hello Bob!";
    let encrypted = alice.encrypt_message(&bob_bundle, plaintext).unwrap();

    // Bob decrypts message from Alice
    let decrypted = bob.decrypt_message(&bob_identity, &encrypted).unwrap();

    assert_eq!(plaintext, decrypted.as_slice());
}

#[test]
fn test_group_encryption() {
    let mut service = EncryptionService::new().unwrap();
    let group_id = "test-group-123".to_string();

    // Create group session
    service.create_group_session(group_id.clone()).unwrap();

    // Encrypt message
    let plaintext = b"Hello everyone!";
    let encrypted = service.encrypt_group_message(&group_id, plaintext).unwrap();

    // Decrypt message
    let decrypted = service.decrypt_group_message(&group_id, &encrypted).unwrap();

    assert_eq!(plaintext, decrypted.as_slice());
}

#[test]
fn test_identity_key_generation() {
    let key = IdentityKey::generate().unwrap();
    assert_eq!(key.public.len(), 32);
    assert_eq!(key.secret_key().len(), 32);
}

#[test]
fn test_signal_protocol_encryption() {
    let mut protocol = SignalProtocol::new().unwrap();

    // Generate keys for Bob
    let bob_identity = protocol.generate_identity().unwrap();
    let bob_bundle = protocol.generate_prekey_bundle(&bob_identity).unwrap();

    // Alice encrypts to Bob
    let plaintext = b"Secret message";
    let encrypted = protocol.encrypt(&bob_bundle, plaintext).unwrap();

    // Bob decrypts
    let decrypted = protocol.decrypt(&bob_identity, &encrypted).unwrap();

    assert_eq!(plaintext, decrypted.as_slice());
}

#[test]
fn test_group_session() {
    let mut session = GroupSession::new("test-group".to_string()).unwrap();

    let plaintext = b"Group message";
    let encrypted = session.encrypt(plaintext).unwrap();
    let decrypted = session.decrypt(&encrypted).unwrap();

    assert_eq!(plaintext, decrypted.as_slice());
}
