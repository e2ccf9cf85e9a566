//! The authentication service: anonymous tokens and proof-of-work CAPTCHAs
//! behind one front.
use vstd::prelude::*;
use vstd::utf8::encode_utf8;

use crate::anonymous_token::{
    claims_for, issued_token, outcome_agrees, token_bytes, token_check, verified_at, AnonymousToken,
    TokenGenerator, TOKEN_LIFETIME_SECONDS,
};
use crate::captcha::{pow_countable, pow_solves, CaptchaChallenge, CaptchaVerifier};
use crate::entropy::{clock_reading, is_v4_uuid};
use crate::error::AuthError;
use crate::hex::hex_encoding;
use crate::text::ascii_chars;

verus! {

/// Issues and checks anonymous tokens and CAPTCHAs.
pub struct AuthService {
    token_generator: TokenGenerator,
    captcha_verifier: CaptchaVerifier,
}

impl AuthService {
    /// The key tokens are signed with.
    pub closed spec fn secret(&self) -> Seq<u8> {
        self.token_generator.secret()
    }

    /// The proof-of-work difficulty.
    pub closed spec fn difficulty(&self) -> u8 {
        self.captcha_verifier.difficulty_spec()
    }

    /// Creates the service with a token secret and a CAPTCHA difficulty.
    pub fn new(jwt_secret: &str, pow_difficulty: u8) -> (r: Result<Self, AuthError>)
        ensures
            r matches Ok(s) && s.secret() == encode_utf8(jwt_secret@) && s.difficulty() == pow_difficulty,
    {
        let token_generator = match TokenGenerator::new(jwt_secret) {
            Ok(g) => g,
            Err(e) => {
                return Err(e);
            },
        };
        Ok(Self { token_generator, captcha_verifier: CaptchaVerifier::new(pow_difficulty) })
    }

    /// Issues a token to `user_id` now (the clock's reading during the
    /// call), with a fresh random token id.
    pub fn generate_token(&self, user_id: &str) -> (r: Result<AnonymousToken, AuthError>)
        ensures
            r matches Ok(t) && t.user_id@ == user_id@ && exists|now: i64, token_id: Seq<char>|
                0 <= now <= 9_000_000_000_000 && is_v4_uuid(token_id) && t.token@
                    == ascii_chars(token_bytes(self.secret(), claims_for(user_id@, now, token_id)))
                    && t.expires_at == now + TOKEN_LIFETIME_SECONDS,
            r matches Ok(t) && exists|now: i64| clock_reading(now) && issued_token(self.secret(), user_id@, now, t),
    {
        self.token_generator.generate(user_id)
    }

    /// Checks a token at the current time (the clock's reading during the
    /// call) and returns the user id it carries; a genuine token whose expiry
    /// is before that reading is refused as expired.
    pub fn verify_token(&self, token: &str) -> (r: Result<String, AuthError>)
        ensures
            exists|now: i64|
                0 <= now <= 9_000_000_000_000 && outcome_agrees(
                    r,
                    token_check(self.secret(), encode_utf8(token@), now),
                ),
            exists|now: i64| clock_reading(now) && verified_at(self.secret(), encode_utf8(token@), now, r),
    {
        let r = self.token_generator.verify(token);
        proof {
            let w = choose|now: i64|
                0 <= now <= 9_000_000_000_000 && outcome_agrees(
                    r,
                    token_check(self.token_generator.secret(), encode_utf8(token@), now),
                );
            assert(0 <= w <= 9_000_000_000_000 && outcome_agrees(
                r,
                token_check(self.secret(), encode_utf8(token@), w),
            ));
            let v = choose|now: i64|
                clock_reading(now) && verified_at(self.token_generator.secret(), encode_utf8(token@), now, r);
            assert(clock_reading(v) && verified_at(self.secret(), encode_utf8(token@), v, r));
        }
        r
    }

    /// Generates a CAPTCHA challenge stamped with the clock's reading.
    pub fn generate_captcha(&self) -> (r: Result<CaptchaChallenge, AuthError>)
        ensures
            r matches Ok(c) && c.difficulty == self.difficulty() && c.timestamp >= 0 && exists|b: Seq<u8>|
                b.len() == 32 && c.challenge@ == hex_encoding(b),
            r matches Ok(c) && clock_reading(c.timestamp),
    {
        match self.captcha_verifier.generate_challenge() {
            Ok(c) => Ok(c),
            Err(e) => Err(AuthError::Captcha(e)),
        }
    }

    /// Verifies a CAPTCHA solution.
    pub fn verify_captcha(&self, challenge: &str, solution: u64) -> (r: Result<bool, AuthError>)
        requires
            pow_countable(challenge@, solution),
        ensures
            r == Ok::<bool, AuthError>(pow_solves(challenge@, solution, self.difficulty())),
    {
        match self.captcha_verifier.verify(challenge, solution) {
            Ok(b) => Ok(b),
            Err(e) => Err(AuthError::Captcha(e)),
        }
    }

    /// `verify_captcha` where the one-byte counter can count the candidate's
    /// digest, `None` where it cannot.
    pub fn try_verify_captcha(&self, challenge: &str, solution: u64) -> (r: Option<bool>)
        ensures
            r == (if pow_countable(challenge@, solution) {
                Some(pow_solves(challenge@, solution, self.difficulty()))
            } else {
                None
            }),
    {
        if !self.captcha_verifier.solution_countable(challenge, solution) {
            return None;
        }
        match self.verify_captcha(challenge, solution) {
            Ok(b) => Some(b),
            Err(_) => None,
        }
    }
}

} // verus!
