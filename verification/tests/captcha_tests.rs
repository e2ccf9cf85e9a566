use dis::auth::AuthService;
use dis::captcha::{CaptchaVerifier, ProofOfWork, SOLVE_LIMIT};
use dis::hex::encode;
use sha2::{Digest, Sha256};

fn digest(challenge: &str, solution: u64) -> Vec<u8> {
    let mut h = Sha256::new();
    h.update(challenge.as_bytes());
    h.update(solution.to_le_bytes());
    h.finalize().to_vec()
}

fn zero_bits(b: &[u8]) -> u32 {
    let mut n = 0;
    for &x in b {
        if x == 0 {
            n += 8;
        } else {
            n += x.leading_zeros();
            break;
        }
    }
    n
}

#[test]
fn hex_encoding_is_lower_case() {
    assert_eq!(encode(&[0x00, 0x0f, 0xab, 0xff]), "000fabff");
    assert_eq!(encode(&[]), "");
}

#[test]
fn leading_zero_bits_are_counted_across_bytes() {
    let v = CaptchaVerifier::new(15);
    assert_eq!(v.count_leading_zeros(&[0x00, 0x01]), 15);
    assert_eq!(v.count_leading_zeros(&[0x80]), 0);
    assert_eq!(v.count_leading_zeros(&[0x10, 0x00]), 3);
    assert_eq!(v.count_leading_zeros(&[]), 0);
    assert_eq!(v.count_leading_zeros(&[0, 0]), 16);
    assert!(v.check_difficulty(&[0x00, 0x01]));
    assert!(!CaptchaVerifier::new(16).check_difficulty(&[0x00, 0x01]));
    assert!(CaptchaVerifier::new(0).check_difficulty(&[0xff]));
}

#[test]
fn counter_limit_is_reported() {
    let mut almost = vec![0u8; 31];
    almost.push(1);
    assert!(CaptchaVerifier::countable(&almost));
    assert_eq!(CaptchaVerifier::new(1).count_leading_zeros(&almost), 255);
    assert!(!CaptchaVerifier::countable(&[0u8; 32]));
    assert!(!CaptchaVerifier::countable(&[0u8; 40]));
    assert!(CaptchaVerifier::countable(&[0u8; 31]));
}

#[test]
fn pow_digest_is_sha256_of_challenge_and_le_solution() {
    let v = CaptchaVerifier::new(1);
    let pow = ProofOfWork { challenge: "c0ffee".to_string(), solution: 0x0102030405060708 };
    assert_eq!(v.compute_hash(&pow), digest("c0ffee", 0x0102030405060708));
}

#[test]
fn verify_matches_the_digest() {
    let v = CaptchaVerifier::new(5);
    for s in 0..50u64 {
        let expected = zero_bits(&digest("abc", s)) >= 5;
        assert_eq!(v.verify("abc", s).unwrap(), expected);
        assert_eq!(v.try_verify("abc", s), Some(expected));
        assert!(v.solution_countable("abc", s));
    }
}

#[test]
fn solve_finds_the_smallest_solution() {
    let v = CaptchaVerifier::new(6);
    let s = v.solve("challenge-x").unwrap();
    assert!(s <= SOLVE_LIMIT);
    assert!(zero_bits(&digest("challenge-x", s)) >= 6);
    for t in 0..s {
        assert!(zero_bits(&digest("challenge-x", t)) < 6);
    }
}

#[test]
fn challenge_from_parts_is_hex_of_the_bytes() {
    let v = CaptchaVerifier::new(3);
    let c = v.challenge_from_parts(&[0xde, 0xad, 0xbe, 0xef], 42);
    assert_eq!(c.challenge, "deadbeef");
    assert_eq!(c.difficulty, 3);
    assert_eq!(c.timestamp, 42);
    let g = v.generate_challenge().unwrap();
    assert_eq!(g.challenge.len(), 64);
    assert!(g.timestamp > 1_600_000_000);
}

#[test]
fn service_checks_captchas_like_the_verifier() {
    let service = AuthService::new("k", 3).unwrap();
    let v = CaptchaVerifier::new(3);
    let s = v.solve("xyz").unwrap();
    assert!(service.verify_captcha("xyz", s).unwrap());
    assert_eq!(service.try_verify_captcha("xyz", s), Some(true));
    let c = service.generate_captcha().unwrap();
    assert_eq!(c.difficulty, 3);
}

#[test]
fn rate_limiter_counts_attempts_in_the_window() {
    let mut limiter = dis::captcha::CaptchaRateLimiter::new(2, 60);
    assert!(limiter.is_allowed_at("ip-a", 100));
    limiter.record_attempt_at("ip-a", 100).unwrap();
    assert!(limiter.is_allowed_at("ip-a", 101));
    limiter.record_attempt_at("ip-a", 130).unwrap();
    assert!(!limiter.is_allowed_at("ip-a", 131));
    assert!(limiter.is_allowed_at("ip-b", 131));
    assert!(!limiter.is_allowed_at("ip-a", 159));
    assert!(limiter.is_allowed_at("ip-a", 160));
    assert!(limiter.is_allowed_at("ip-a", 99));
}

#[test]
fn rate_limiter_with_the_clock() {
    let mut limiter = dis::captcha::CaptchaRateLimiter::new(1, 3600);
    assert!(limiter.is_allowed("h"));
    limiter.record_attempt("h").unwrap();
    assert!(!limiter.is_allowed("h"));
    assert!(limiter.is_allowed("other"));
    let mut none = dis::captcha::CaptchaRateLimiter::new(0, 60);
    assert!(!none.is_allowed("h"));
    none.record_attempt("h").unwrap();
}
