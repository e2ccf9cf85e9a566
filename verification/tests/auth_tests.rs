use dis::anonymous_token::{AnonymousRegistration, TokenGenerator};
use dis::auth::AuthService;
use dis::captcha::{CaptchaRateLimiter, CaptchaVerifier};

#[test]
fn test_user_id_generation() {
    let id = TokenGenerator::generate_user_id();
    assert!(id.starts_with("anon_"));
}

#[test]
fn test_password_hashing() {
    let password = "secure-password-123";
    let hash = TokenGenerator::hash_password(password).unwrap();
    assert!(TokenGenerator::verify_password(password, &hash).unwrap());
    assert!(!TokenGenerator::verify_password("wrong-password", &hash).unwrap());
}

#[test]
fn test_token_generation_and_verification() {
    let generator = TokenGenerator::new("test-secret-key").unwrap();
    let user_id = "anon_test_user";

    let token = generator.generate(user_id).unwrap();
    let verified_id = generator.verify(&token.token).unwrap();

    assert_eq!(verified_id, user_id);
}

#[test]
fn test_anonymous_registration() {
    let reg = AnonymousRegistration::new("password123", Some("user@example.com")).unwrap();
    assert!(reg.user_id.starts_with("anon_"));
    assert!(reg.encrypted_email.is_some());
}

#[test]
fn test_challenge_generation() {
    let verifier = CaptchaVerifier::new(4);
    let challenge = verifier.generate_challenge().unwrap();
    assert!(!challenge.challenge.is_empty());
    assert_eq!(challenge.difficulty, 4);
}

#[test]
fn test_difficulty_checking() {
    let verifier = CaptchaVerifier::new(4);

    // Hash with leading zeros
    let hash_with_zeros = vec![0u8, 0u8, 0u8, 0u8, 0xFF];
    assert!(verifier.check_difficulty(&hash_with_zeros));

    // Hash without enough leading zeros
    let hash_without_zeros = vec![0xFF, 0xFF, 0xFF, 0xFF];
    assert!(!verifier.check_difficulty(&hash_without_zeros));
}

#[test]
fn test_proof_of_work() {
    let verifier = CaptchaVerifier::new(2); // Low difficulty for testing
    let challenge = verifier.generate_challenge().unwrap();

    // Try to solve (with low difficulty)
    let solution = verifier.solve(&challenge.challenge).unwrap();

    // Verify solution
    assert!(verifier.verify(&challenge.challenge, solution).unwrap());
}

#[test]
fn test_rate_limiter() {
    let mut limiter = CaptchaRateLimiter::new(5, 60);
    let ip_hash = "test-ip-hash";

    assert!(limiter.is_allowed(ip_hash));
    limiter.record_attempt(ip_hash).unwrap();
}

#[test]
fn test_auth_service() {
    let service = AuthService::new("test-secret-key", 4).unwrap();
    let user_id = "anonymous-user-123";

    // Generate token
    let token = service.generate_token(user_id).unwrap();
    assert!(!token.token.is_empty());

    // Verify token
    let verified_id = service.verify_token(&token.token).unwrap();
    assert_eq!(verified_id, user_id);
}

#[test]
fn test_captcha_flow() {
    let service = AuthService::new("test-secret-key", 4).unwrap();

    // Generate challenge
    let challenge = service.generate_captcha().unwrap();
    assert!(!challenge.challenge.is_empty());
}
