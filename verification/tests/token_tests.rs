use dis::anonymous_token::{AnonymousRegistration, TokenGenerator, TOKEN_LIFETIME_SECONDS};
use dis::error::AuthError;
use dis::token_format::{claims_from_json, claims_to_json, split_on_dots, JwtClaims};
use hmac::{Hmac, Mac};
use sha2::Sha256;
use aes_gcm::aead::{Aead, KeyInit};
use aes_gcm::{Aes256Gcm, Key, Nonce};
use argon2::password_hash::{PasswordHasher, SaltString};
use argon2::Argon2;

fn hmac_b64(key: &[u8], message: &[u8]) -> String {
    let mut mac = <Hmac<Sha256> as Mac>::new_from_slice(key).unwrap();
    mac.update(message);
    base64::encode_config(mac.finalize().into_bytes(), base64::URL_SAFE_NO_PAD)
}

fn signed_token(key: &[u8], header_b64: &str, payload_b64: &str) -> String {
    let message = format!("{}.{}", header_b64, payload_b64);
    let sig = hmac_b64(key, message.as_bytes());
    format!("{}.{}", message, sig)
}

#[test]
fn token_layout_is_a_standard_jwt() {
    let g = TokenGenerator::new("k3y").unwrap();
    let t = g.generate_at("alice", 100, "id-1");
    assert_eq!(t.user_id, "alice");
    assert_eq!(t.expires_at, 100 + 2_592_000);
    assert_eq!(TOKEN_LIFETIME_SECONDS, 30 * 24 * 3600);
    let parts: Vec<&str> = t.token.split('.').collect();
    assert_eq!(parts.len(), 3);
    assert_eq!(parts[0], "eyJhbGciOiJIUzI1NiIsInR5cCI6IkpXVCJ9");
    let header = base64::decode_config(parts[0], base64::URL_SAFE_NO_PAD).unwrap();
    assert_eq!(header, br#"{"alg":"HS256","typ":"JWT"}"#.to_vec());
    let payload = base64::decode_config(parts[1], base64::URL_SAFE_NO_PAD).unwrap();
    assert_eq!(payload, br#"{"sub":"alice","iat":100,"exp":2592100,"jti":"id-1"}"#.to_vec());
    let value: serde_json::Value = serde_json::from_slice(&payload).unwrap();
    assert_eq!(value["sub"], "alice");
    assert_eq!(value["exp"], 2592100);
    let expected_sig = hmac_b64(b"k3y", format!("{}.{}", parts[0], parts[1]).as_bytes());
    assert_eq!(parts[2], expected_sig);
}

#[test]
fn token_verifies_until_it_expires() {
    let g = TokenGenerator::new("secret").unwrap();
    let t = g.generate_at("bob", 1_000, "tid");
    assert_eq!(g.verify_at(&t.token, 1_000).unwrap(), "bob");
    assert_eq!(g.verify_at(&t.token, t.expires_at).unwrap(), "bob");
    assert_eq!(g.verify_at(&t.token, t.expires_at + 1), Err(AuthError::TokenExpired));
}

#[test]
fn token_with_special_characters_round_trips() {
    let g = TokenGenerator::new("secret").unwrap();
    let user = "a\"b\\c\n\t\u{1}\u{8}\u{c}\r\u{1f}é/中\u{7f}";
    let t = g.generate_at(user, 5, "j");
    assert_eq!(g.verify_at(&t.token, 6).unwrap(), user);
    let parts: Vec<&str> = t.token.split('.').collect();
    let payload = base64::decode_config(parts[1], base64::URL_SAFE_NO_PAD).unwrap();
    let expected = format!(
        "{{\"sub\":{},\"iat\":5,\"exp\":2592005,\"jti\":\"j\"}}",
        serde_json::to_string(user).unwrap()
    );
    assert_eq!(String::from_utf8(payload).unwrap(), expected);
}

#[test]
fn token_with_negative_issue_time() {
    let g = TokenGenerator::new("s").unwrap();
    let t = g.generate_at("neg", -5, "x");
    let parts: Vec<&str> = t.token.split('.').collect();
    let payload = base64::decode_config(parts[1], base64::URL_SAFE_NO_PAD).unwrap();
    assert_eq!(payload, br#"{"sub":"neg","iat":-5,"exp":2591995,"jti":"x"}"#.to_vec());
    assert_eq!(g.verify_at(&t.token, 0).unwrap(), "neg");
}

#[test]
fn token_with_wrong_shape_is_rejected() {
    let g = TokenGenerator::new("s").unwrap();
    assert_eq!(g.verify_at("abc", 0), Err(AuthError::InvalidTokenFormat));
    assert_eq!(g.verify_at("a.b", 0), Err(AuthError::InvalidTokenFormat));
    assert_eq!(g.verify_at("a.b.c.d", 0), Err(AuthError::InvalidTokenFormat));
    assert_eq!(g.verify_at("", 0), Err(AuthError::InvalidTokenFormat));
}

#[test]
fn token_with_bad_signature_is_rejected() {
    let g = TokenGenerator::new("s").unwrap();
    let other = TokenGenerator::new("other").unwrap();
    let t = g.generate_at("carol", 0, "x");
    assert_eq!(other.verify_at(&t.token, 0), Err(AuthError::InvalidTokenSignature));
    let mut tampered = t.token.clone();
    tampered.push('A');
    assert_eq!(g.verify_at(&tampered, 0), Err(AuthError::InvalidTokenSignature));
}

#[test]
fn token_with_undecodable_payload_is_rejected() {
    let token = signed_token(b"s", "eyJhbGciOiJIUzI1NiIsInR5cCI6IkpXVCJ9", "!!!");
    let g = TokenGenerator::new("s").unwrap();
    assert_eq!(g.verify_at(&token, 0), Err(AuthError::PayloadEncoding));
}

#[test]
fn claims_json_round_trips_at_the_integer_limits() {
    let claims = JwtClaims { sub: b"u".to_vec(), iat: i64::MIN, exp: i64::MAX, jti: b"\x00\"".to_vec() };
    let json = claims_to_json(&claims);
    assert_eq!(
        String::from_utf8(json.clone()).unwrap(),
        r#"{"sub":"u","iat":-9223372036854775808,"exp":9223372036854775807,"jti":"\u0000\""}"#
    );
    let back = claims_from_json(&json).unwrap();
    assert_eq!(back.sub, b"u".to_vec());
    assert_eq!(back.iat, i64::MIN);
    assert_eq!(back.exp, i64::MAX);
    assert_eq!(back.jti, b"\x00\"".to_vec());
}

#[test]
fn split_keeps_empty_pieces() {
    let pieces = split_on_dots(b"a..bc.");
    assert_eq!(pieces, vec![b"a".to_vec(), vec![], b"bc".to_vec(), vec![]]);
    assert_eq!(split_on_dots(b""), vec![Vec::<u8>::new()]);
}

#[test]
fn user_ids_are_anon_uuids() {
    let id = TokenGenerator::generate_user_id();
    assert_eq!(id.len(), 41);
    assert!(id.starts_with("anon_"));
    let uuid = &id[5..];
    for (i, c) in uuid.chars().enumerate() {
        if i == 8 || i == 13 || i == 18 || i == 23 {
            assert_eq!(c, '-');
        } else {
            assert!(c.is_ascii_hexdigit() && !c.is_ascii_uppercase());
        }
    }
    assert_eq!(&uuid[14..15], "4");
    assert!(["8", "9", "a", "b"].contains(&&uuid[19..20]));
    assert_ne!(TokenGenerator::generate_user_id(), id);
}

#[test]
fn password_hashes_are_argon2id_phc_strings() {
    let hash = TokenGenerator::hash_password("pw").unwrap();
    assert!(hash.starts_with("$argon2id$v=19$m=65536,t=3,p=4$"));
    let other = TokenGenerator::hash_password("pw").unwrap();
    assert_ne!(hash, other);
    assert!(TokenGenerator::verify_password("pw", &other).unwrap());
    assert_eq!(TokenGenerator::verify_password("pw", "not a hash"), Err(AuthError::InvalidPasswordHash));
}

#[test]
fn email_is_stored_as_nonce_and_ciphertext() {
    let key = [7u8; 32];
    let nonce = [9u8; 12];
    let stored = AnonymousRegistration::encrypt_email_with("user@example.com", &key, &nonce).unwrap();
    let raw = base64::decode(&stored).unwrap();
    assert_eq!(&raw[..12], &nonce);
    assert_eq!(raw.len(), 12 + "user@example.com".len() + 16);
    let cipher = Aes256Gcm::new(Key::<Aes256Gcm>::from_slice(&key));
    let plain = cipher.decrypt(Nonce::from_slice(&nonce), &raw[12..]).unwrap();
    assert_eq!(plain, b"user@example.com".to_vec());
}

#[test]
fn registration_without_email() {
    let reg = AnonymousRegistration::new("pw", None).unwrap();
    assert!(reg.encrypted_email.is_none());
    assert!(TokenGenerator::verify_password("pw", &reg.password_hash).unwrap());
    assert_eq!(reg.user_id.len(), 41);
}

#[test]
fn passwords_verify_against_hashes_with_other_parameters() {
    let salt = SaltString::from_b64("c29tZXNhbHRzb21lc2FsdA").unwrap();
    let hash = Argon2::default().hash_password(b"pw", &salt).unwrap().to_string();
    assert!(TokenGenerator::verify_password("pw", &hash).unwrap());
    assert!(!TokenGenerator::verify_password("px", &hash).unwrap());
}

#[test]
fn registration_email_is_recoverable_with_the_email_key() {
    let key = [5u8; 32];
    let reg = AnonymousRegistration::new_with_email_key("pw", Some("me@example.org"), &key).unwrap();
    let raw = base64::decode(reg.encrypted_email.as_ref().unwrap()).unwrap();
    assert_eq!(raw.len(), 12 + "me@example.org".len() + 16);
    let cipher = Aes256Gcm::new(Key::<Aes256Gcm>::from_slice(&key));
    let plain = cipher.decrypt(Nonce::from_slice(&raw[..12]), &raw[12..]).unwrap();
    assert_eq!(plain, b"me@example.org".to_vec());
    let single = AnonymousRegistration::encrypt_email_with_key("x@y.z", &key).unwrap();
    assert_eq!(base64::decode(&single).unwrap().len(), 12 + 5 + 16);
}

#[test]
fn recover_email_opens_what_registration_sealed() {
    let key = [5u8; 32];
    let reg = AnonymousRegistration::new_with_email_key("pw", Some("me@example.org"), &key).unwrap();
    let stored = reg.encrypted_email.unwrap();
    assert_eq!(AnonymousRegistration::recover_email(&stored, &key), Some("me@example.org".to_string()));
    assert_eq!(AnonymousRegistration::recover_email(&stored, &[6u8; 32]), None);
    assert_eq!(AnonymousRegistration::recover_email("not base64!", &key), None);
    assert_eq!(AnonymousRegistration::recover_email("AAAA", &key), None);
    let fixed = AnonymousRegistration::encrypt_email_with("a@b.c", &key, &[1u8; 12]).unwrap();
    assert_eq!(AnonymousRegistration::recover_email(&fixed, &key), Some("a@b.c".to_string()));
}

#[test]
fn hash_with_too_many_lanes_matches_no_password() {
    let hash = "$argon2id$v=19$m=65536,t=3,p=536870912$c29tZXNhbHRzb21lc2FsdA$aGFzaGhhc2hoYXNoaGFzaGhhc2hoYXNoaGFzaGhhc2g";
    assert_eq!(TokenGenerator::verify_password("pw", hash), Ok(false));
    let broken = "$argon2id$v=19$m=65536,t=3,p=536870912$";
    assert_eq!(TokenGenerator::verify_password("pw", broken), Err(AuthError::InvalidPasswordHash));
}

#[test]
fn wrong_password_gets_an_answer_not_an_error() {
    let hash = TokenGenerator::hash_password("secure-password-123").unwrap();
    assert_eq!(TokenGenerator::verify_password("wrong-password", &hash), Ok(false));
    assert_eq!(TokenGenerator::verify_password("secure-password-123", &hash), Ok(true));
}
