//! Anonymous tokens: HMAC-SHA256 signed JWTs that carry an anonymous user id
//! and expire after thirty days; Argon2 password hashing; anonymous
//! registration.
use vstd::prelude::*;
use vstd::utf8::*;

use crate::b64::{
    b64_encode, b64_standard_decoding, b64_url_decoding, base64_standard_decode, base64_standard_encode,
    base64_url_decode, base64_url_encode, lemma_b64_ascii,
};
use crate::bytes::{append_bytes, bytes_equal, bytes_to_vec};
use crate::entropy::{
    clock_reading, is_v4_uuid, random_bytes_12, random_bytes_32, clock_now, uuid_v4_string,
};
use crate::error::AuthError;
use crate::primitives::{
    aes256gcm_decrypt, aes256gcm_encrypt, aes256gcm_open, aes256gcm_seal, argon2_check, argon2_hash_succeeds, argon2_phc_hash, argon2_salt,
    argon2id_hash, b64_salt, digit_run_value, lanes_param_at, phc_lanes_bounded, phc_parse_ok,
    phc_parses, argon2_verify, hmac_sha256, hmac_sha256_tag, AES_GCM_MAX_PLAINTEXT,
};
use crate::text::{all_ascii, ascii_chars, ascii_string, lemma_ascii_encode_utf8, string_from_utf8};
use crate::json_claims::{lemma_parse_claims_json, lemma_parse_claims_utf8, parse_claims};
use crate::token_format::{
    claims_from_json, claims_json, claims_to_json, header_json, header_to_json, lemma_split_three,
    pieces_view, split_dots, split_on_dots, ClaimsView, JwtClaims,
};

verus! {

broadcast use vstd::utf8::group_utf8_lib;

/// How long a token stays valid: thirty days, in seconds.
pub const TOKEN_LIFETIME_SECONDS: i64 = 2592000;

/// Argon2id memory cost for password hashes, in KiB (64 MiB).
pub const ARGON2_MEMORY_KIB: u32 = 65536;

/// Argon2id passes over the memory for password hashes.
pub const ARGON2_PASSES: u32 = 3;

/// Argon2id lanes for password hashes.
pub const ARGON2_LANES: u32 = 4;

/// Length in bytes of the Argon2id output in password hashes.
pub const ARGON2_OUTPUT_LEN: usize = 32;

/// The PHC string of `password` hashed with Argon2id, the library's
/// parameters and the salt `salt`.
pub open spec fn password_phc(password: Seq<char>, salt: Seq<char>) -> Seq<char> {
    argon2_phc_hash(
        encode_utf8(password),
        salt,
        ARGON2_MEMORY_KIB,
        ARGON2_PASSES,
        ARGON2_LANES,
        ARGON2_OUTPUT_LEN,
    )
}

/// An anonymous token handed to a client.
#[derive(Debug, Clone)]
pub struct AnonymousToken {
    pub token: String,
    pub user_id: String,
    pub expires_at: i64,
}

/// The signed part of a token: the base64 header and claims joined by a dot.
pub open spec fn signing_input(c: ClaimsView) -> Seq<u8> {
    b64_encode(header_json(), true, false) + seq![46u8] + b64_encode(claims_json(c), true, false)
}

/// The bytes of the token for the claims `c` signed with `secret`.
pub open spec fn token_bytes(secret: Seq<u8>, c: ClaimsView) -> Seq<u8> {
    signing_input(c) + seq![46u8] + b64_encode(hmac_sha256_tag(secret, signing_input(c)), true, false)
}

/// The claims of a token issued at `now` to `user_id` with the id `token_id`.
pub open spec fn claims_for(user_id: Seq<char>, now: i64, token_id: Seq<char>) -> ClaimsView {
    (encode_utf8(user_id), now, (now + TOKEN_LIFETIME_SECONDS) as i64, encode_utf8(token_id))
}

/// Claims whose subject and token id are UTF-8 text.
pub open spec fn text_claims(c: ClaimsView) -> bool {
    valid_utf8(c.0) && valid_utf8(c.3)
}

/// What checking the token bytes `token` against `secret` at time `now`
/// gives: the subject's bytes, or the first check that fails.
pub open spec fn token_check(secret: Seq<u8>, token: Seq<u8>, now: i64) -> Result<Seq<u8>, AuthError> {
    let parts = split_dots(token);
    if parts.len() != 3 {
        Err(AuthError::InvalidTokenFormat)
    } else if parts[2] != b64_encode(
        hmac_sha256_tag(secret, parts[0] + seq![46u8] + parts[1]),
        true,
        false,
    ) {
        Err(AuthError::InvalidTokenSignature)
    } else {
        match b64_url_decoding(parts[1]) {
            None => Err(AuthError::PayloadEncoding),
            Some(json) => match parse_claims(json) {
                None => Err(AuthError::PayloadFormat),
                Some(c) => if c.2 < now {
                    Err(AuthError::TokenExpired)
                } else {
                    Ok(c.0)
                },
            },
        }
    }
}

/// Whether `token` is the token for the claims `c` signed with `secret`, with
/// UTF-8 strings.
pub open spec fn genuine(secret: Seq<u8>, token: Seq<u8>, c: ClaimsView) -> bool {
    token_bytes(secret, c) == token && text_claims(c)
}

/// Whether `token` is the token for the claims `c` signed with `secret`, with
/// UTF-8 strings and not yet expired at `now`.
pub open spec fn issued_by(secret: Seq<u8>, token: Seq<u8>, now: i64, c: ClaimsView) -> bool {
    genuine(secret, token, c) && now <= c.2
}

/// Whether a returned subject string or error agrees with a checked outcome.
pub open spec fn outcome_agrees(r: Result<String, AuthError>, check: Result<Seq<u8>, AuthError>) -> bool {
    match (r, check) {
        (Ok(s), Ok(b)) => encode_utf8(s@) == b,
        (Err(e1), Err(e2)) => e1 == e2,
        _ => false,
    }
}

/// What checking the token bytes `token` against `secret` at time `now`
/// answers: the checked outcome; the user id of a token issued and not
/// expired at `now`; `TokenExpired` for a genuine token whose expiry is
/// before `now`.
pub open spec fn verified_at(secret: Seq<u8>, token: Seq<u8>, now: i64, r: Result<String, AuthError>) -> bool {
    &&& outcome_agrees(r, token_check(secret, token, now))
    &&& forall|c: ClaimsView|
        #[trigger] issued_by(secret, token, now, c) ==> (r matches Ok(s) && encode_utf8(s@) == c.0)
    &&& forall|c: ClaimsView|
        #[trigger] genuine(secret, token, c) && c.2 < now ==> r == Err::<String, AuthError>(AuthError::TokenExpired)
}

/// Whether `t` is a token issued to `user_id` at time `now` with `secret`:
/// its claims carry `now` as the issue time and a random token id, it
/// expires `TOKEN_LIFETIME_SECONDS` later, and it names `user_id`.
pub open spec fn issued_token(secret: Seq<u8>, user_id: Seq<char>, now: i64, t: AnonymousToken) -> bool {
    &&& t.user_id@ == user_id
    &&& t.expires_at == now + TOKEN_LIFETIME_SECONDS
    &&& exists|token_id: Seq<char>|
        is_v4_uuid(token_id) && t.token@ == ascii_chars(token_bytes(secret, claims_for(user_id, now, token_id)))
}

/// A token splits into its base64 header, claims and signature.
pub proof fn lemma_token_parts(secret: Seq<u8>, c: ClaimsView)
    ensures
        split_dots(token_bytes(secret, c)) == seq![
            b64_encode(header_json(), true, false),
            b64_encode(claims_json(c), true, false),
            b64_encode(hmac_sha256_tag(secret, signing_input(c)), true, false),
        ],
        all_ascii(token_bytes(secret, c)),
{
    let h = b64_encode(header_json(), true, false);
    let p = b64_encode(claims_json(c), true, false);
    let s = b64_encode(hmac_sha256_tag(secret, signing_input(c)), true, false);
    lemma_b64_ascii(header_json(), true, false);
    lemma_b64_ascii(claims_json(c), true, false);
    lemma_b64_ascii(hmac_sha256_tag(secret, signing_input(c)), true, false);
    lemma_split_three(h, p, s);
    let t = token_bytes(secret, c);
    assert(t =~= h + seq![46u8] + p + seq![46u8] + s);
    assert forall|i: int| 0 <= i < t.len() implies t[i] < 128 by {
        if i < h.len() {
            assert(t[i] == h[i]);
        } else if i == h.len() {
        } else if i < h.len() + 1 + p.len() {
            assert(t[i] == p[i - h.len() - 1]);
        } else if i == h.len() + 1 + p.len() {
        } else {
            assert(t[i] == s[i - h.len() - 2 - p.len()]);
        }
    }
}

/// A run of decimal digits is worth at least the value carried into it.
proof fn lemma_digit_run_at_least(b: Seq<u8>, i: int, acc: nat)
    ensures
        digit_run_value(b, i, acc) >= acc,
    decreases b.len() - i,
{
    if 0 <= i < b.len() && 48 <= b[i] <= 57 {
        lemma_digit_run_at_least(b, i + 1, acc * 10 + (b[i] - 48) as nat);
    }
}

/// Whether every lanes parameter written in the PHC text `b` is below 2^29.
fn lanes_within_bound(b: &[u8]) -> (r: bool)
    ensures
        r == phc_lanes_bounded(b@),
{
    let n = b.len();
    if n < 2 {
        return true;
    }
    let mut i: usize = 1;
    while i < n - 1
        invariant
            n == b.len(),
            2 <= n,
            1 <= i <= n - 1,
            forall|j: int| 1 <= j < i && #[trigger] lanes_param_at(b@, j) ==> digit_run_value(b@, j + 2, 0) < 0x2000_0000,
        decreases n - i,
    {
        if (b[i - 1] == 44 || b[i - 1] == 36) && b[i] == 112 && b[i + 1] == 61 {
            let mut k: usize = i + 2;
            let mut acc: u64 = 0;
            while k < n && 48 <= b[k] && b[k] <= 57
                invariant
                    n == b.len(),
                    1 <= i < n - 1,
                    lanes_param_at(b@, i as int),
                    i + 2 <= k <= n,
                    acc < 0x2000_0000,
                    digit_run_value(b@, k as int, acc as nat) == digit_run_value(b@, i + 2, 0),
                decreases n - k,
            {
                acc = acc * 10 + (b[k] - 48) as u64;
                if acc >= 0x2000_0000 {
                    proof {
                        lemma_digit_run_at_least(b@, k + 1, acc as nat);
                        assert(lanes_param_at(b@, i as int));
                    }
                    return false;
                }
                k = k + 1;
            }
            assert(digit_run_value(b@, i + 2, 0) < 0x2000_0000);
        }
        i = i + 1;
    }
    true
}

/// The token `generate_at` issues at `now`, read back as UTF-8 bytes, is the
/// genuine token for its claims, which hold UTF-8 strings and expire
/// `TOKEN_LIFETIME_SECONDS` after `now`. So at any time `t` up to and
/// including the expiry it is issued and unexpired, and `verify_at` gives
/// back the user id (only the user id has those subject bytes); at any later
/// time it is genuine but expired, and `verify_at` answers `TokenExpired`.
pub proof fn lemma_generated_token_is_issued(
    secret: Seq<u8>,
    user_id: Seq<char>,
    now: i64,
    token_id: Seq<char>,
    t: i64,
)
    requires
        now <= i64::MAX - TOKEN_LIFETIME_SECONDS,
    ensures
        genuine(
            secret,
            encode_utf8(ascii_chars(token_bytes(secret, claims_for(user_id, now, token_id)))),
            claims_for(user_id, now, token_id),
        ),
        claims_for(user_id, now, token_id).2 == now + TOKEN_LIFETIME_SECONDS,
        t <= now + TOKEN_LIFETIME_SECONDS ==> issued_by(
            secret,
            encode_utf8(ascii_chars(token_bytes(secret, claims_for(user_id, now, token_id)))),
            t,
            claims_for(user_id, now, token_id),
        ),
        now + TOKEN_LIFETIME_SECONDS < t ==> claims_for(user_id, now, token_id).2 < t,
        forall|s: Seq<char>| encode_utf8(s) == claims_for(user_id, now, token_id).0 ==> s == user_id,
{
    let c = claims_for(user_id, now, token_id);
    lemma_token_parts(secret, c);
    lemma_ascii_encode_utf8(token_bytes(secret, c));
    assert forall|s: Seq<char>| encode_utf8(s) == c.0 implies s == user_id by {
        encode_utf8_decode_utf8(s);
        encode_utf8_decode_utf8(user_id);
    }
}

/// A token issued at `issued` expires `TOKEN_LIFETIME_SECONDS` later, and
/// checking it at a time `now` answers by that expiry: up to and including
/// it, the user id it was issued to; after it, `TokenExpired`.
pub proof fn lemma_issued_token_checked_at(
    secret: Seq<u8>,
    user_id: Seq<char>,
    issued: i64,
    t: AnonymousToken,
    now: i64,
    r: Result<String, AuthError>,
)
    requires
        issued <= i64::MAX - TOKEN_LIFETIME_SECONDS,
        issued_token(secret, user_id, issued, t),
        verified_at(secret, encode_utf8(t.token@), now, r),
    ensures
        t.expires_at == issued + TOKEN_LIFETIME_SECONDS,
        now <= t.expires_at ==> (r matches Ok(s) && s@ == user_id),
        t.expires_at < now ==> r == Err::<String, AuthError>(AuthError::TokenExpired),
{
    let token_id = choose|token_id: Seq<char>|
        is_v4_uuid(token_id) && t.token@ == ascii_chars(token_bytes(secret, claims_for(user_id, issued, token_id)));
    let c = claims_for(user_id, issued, token_id);
    lemma_generated_token_is_issued(secret, user_id, issued, token_id, now);
    if now <= t.expires_at {
        assert(issued_by(secret, encode_utf8(t.token@), now, c));
    } else {
        assert(genuine(secret, encode_utf8(t.token@), c));
    }
}

/// Issues and checks anonymous tokens with one HMAC secret.
pub struct TokenGenerator {
    jwt_secret: Vec<u8>,
}

impl TokenGenerator {
    /// The HMAC key.
    pub closed spec fn secret(&self) -> Seq<u8> {
        self.jwt_secret@
    }

    /// Creates a generator whose key is the UTF-8 bytes of `secret`.
    pub fn new(secret: &str) -> (r: Result<Self, AuthError>)
        ensures
            r matches Ok(g) && g.secret() == encode_utf8(secret@),
    {
        Ok(Self { jwt_secret: bytes_to_vec(secret.as_bytes()) })
    }

    /// Signs `message` with HMAC-SHA256 under the generator's key.
    fn sign(&self, message: &[u8]) -> (r: Vec<u8>)
        ensures
            r@ == hmac_sha256_tag(self.secret(), message@),
            r@.len() == 32,
    {
        hmac_sha256(self.jwt_secret.as_slice(), message)
    }

    /// The token issued at `now` to `user_id`, with the token id `token_id`.
    pub fn generate_at(&self, user_id: &str, now: i64, token_id: &str) -> (r: AnonymousToken)
        requires
            now <= i64::MAX - TOKEN_LIFETIME_SECONDS,
        ensures
            r.token@ == ascii_chars(token_bytes(self.secret(), claims_for(user_id@, now, token_id@))),
            r.user_id@ == user_id@,
            r.expires_at == now + TOKEN_LIFETIME_SECONDS,
    {
        let expires_at = now + TOKEN_LIFETIME_SECONDS;
        let claims = JwtClaims {
            sub: bytes_to_vec(user_id.as_bytes()),
            iat: now,
            exp: expires_at,
            jti: bytes_to_vec(token_id.as_bytes()),
        };
        let ghost c = claims_for(user_id@, now, token_id@);
        assert(claims@ == c);
        let header = header_to_json();
        let payload = claims_to_json(&claims);
        let mut token = base64_url_encode(header.as_slice());
        token.push(46);
        let payload_b64 = base64_url_encode(payload.as_slice());
        append_bytes(&mut token, payload_b64.as_slice());
        assert(token@ == signing_input(c));
        let signature = self.sign(token.as_slice());
        let signature_b64 = base64_url_encode(signature.as_slice());
        token.push(46);
        append_bytes(&mut token, signature_b64.as_slice());
        assert(token@ == token_bytes(self.secret(), c));
        proof {
            lemma_token_parts(self.secret(), c);
        }
        AnonymousToken { token: ascii_string(token), user_id: user_id.to_owned(), expires_at }
    }

    /// Issues a token to `user_id` now, with a fresh random token id: its
    /// issue time is the clock's reading during the call and it expires
    /// `TOKEN_LIFETIME_SECONDS` later.
    pub fn generate(&self, user_id: &str) -> (r: Result<AnonymousToken, AuthError>)
        ensures
            r matches Ok(t) && t.user_id@ == user_id@ && exists|now: i64, token_id: Seq<char>|
                0 <= now <= 9_000_000_000_000 && is_v4_uuid(token_id) && t.token@
                    == ascii_chars(token_bytes(self.secret(), claims_for(user_id@, now, token_id)))
                    && t.expires_at == now + TOKEN_LIFETIME_SECONDS,
            r matches Ok(t) && exists|now: i64| clock_reading(now) && issued_token(self.secret(), user_id@, now, t),
    {
        let now = clock_now();
        let token_id = uuid_v4_string();
        let t = self.generate_at(user_id, now, token_id.as_str());
        assert(0 <= now <= 9_000_000_000_000 && is_v4_uuid(token_id@) && t.token@
            == ascii_chars(token_bytes(self.secret(), claims_for(user_id@, now, token_id@)))
            && t.expires_at == now + TOKEN_LIFETIME_SECONDS);
        assert(clock_reading(now) && issued_token(self.secret(), user_id@, now, t));
        Ok(t)
    }

    /// Checks `token` at time `now` and returns the user id it carries.
    /// A token that `generate_at` issued with this generator's key gives back
    /// its user id until it expires.
    pub fn verify_at(&self, token: &str, now: i64) -> (r: Result<String, AuthError>)
        ensures
            outcome_agrees(r, token_check(self.secret(), encode_utf8(token@), now)),
            forall|c: ClaimsView|
                #[trigger] issued_by(self.secret(), encode_utf8(token@), now, c) ==> (r matches Ok(s)
                    && encode_utf8(s@) == c.0),
            forall|c: ClaimsView|
                #[trigger] genuine(self.secret(), encode_utf8(token@), c) && c.2 < now ==> r
                    == Err::<String, AuthError>(AuthError::TokenExpired),
    {
        let bytes = token.as_bytes();
        let ghost tb = bytes@;
        let ghost secret = self.secret();
        let parts = split_on_dots(bytes);
        let ghost pv = pieces_view(parts@);
        assert(pv == split_dots(tb));
        if parts.len() != 3 {
            proof {
                assert forall|c: ClaimsView| !genuine(secret, tb, c) by {
                    lemma_token_parts(secret, c);
                }
            }
            return Err(AuthError::InvalidTokenFormat);
        }
        assert(parts[0]@ == pv[0] && parts[1]@ == pv[1] && parts[2]@ == pv[2]);
        let mut message: Vec<u8> = Vec::new();
        append_bytes(&mut message, parts[0].as_slice());
        message.push(46);
        append_bytes(&mut message, parts[1].as_slice());
        assert(message@ =~= pv[0] + seq![46u8] + pv[1]);
        let expected = base64_url_encode(self.sign(message.as_slice()).as_slice());
        if !bytes_equal(parts[2].as_slice(), expected.as_slice()) {
            proof {
                assert forall|c: ClaimsView| !genuine(secret, tb, c) by {
                    lemma_token_parts(secret, c);
                    if token_bytes(secret, c) == tb {
                        assert(message@ == signing_input(c));
                    }
                }
            }
            return Err(AuthError::InvalidTokenSignature);
        }
        let json = match base64_url_decode(parts[1].as_slice()) {
            Some(j) => j,
            None => {
                proof {
                    assert forall|c: ClaimsView| !genuine(secret, tb, c) by {
                        lemma_token_parts(secret, c);
                    }
                }
                return Err(AuthError::PayloadEncoding);
            },
        };
        assert(b64_url_decoding(pv[1]) == Some(json@));
        proof {
            assert forall|c: ClaimsView| genuine(secret, tb, c) implies json@ == claims_json(c) by {
                lemma_token_parts(secret, c);
            }
        }
        let claims = match claims_from_json(json.as_slice()) {
            Some(c) => c,
            None => {
                proof {
                    assert forall|c: ClaimsView| !genuine(secret, tb, c) by {
                        if genuine(secret, tb, c) {
                            lemma_parse_claims_json(c);
                        }
                    }
                }
                return Err(AuthError::PayloadFormat);
            },
        };
        let ghost cv = claims@;
        proof {
            lemma_parse_claims_utf8(json@);
            assert forall|c: ClaimsView| genuine(secret, tb, c) implies c == cv by {
                lemma_parse_claims_json(c);
            }
        }
        let exp = claims.exp;
        let sub = match string_from_utf8(claims.sub) {
            Some(s) => s,
            None => {
                proof {
                    assert(false);
                }
                return Err(AuthError::PayloadFormat);
            },
        };
        assert(parse_claims(json@) == Some(cv));
        if exp < now {
            return Err(AuthError::TokenExpired);
        }
        proof {
            decode_utf8_encode_utf8(cv.0);
        }
        Ok(sub)
    }

    /// A new anonymous user id: `anon_` followed by a random UUID.
    pub fn generate_user_id() -> (r: String)
        ensures
            exists|u: Seq<char>| is_v4_uuid(u) && r@ == anon_prefix() + u,
    {
        let uuid = uuid_v4_string();
        let mut id = "anon_".to_owned();
        proof {
            reveal_strlit("anon_");
            assert("anon_"@ =~= anon_prefix());
        }
        id.append(uuid.as_str());
        assert(is_v4_uuid(uuid@) && id@ == anon_prefix() + uuid@);
        id
    }

    /// Hashes a password with Argon2id (64 MiB, three passes, four lanes,
    /// 32-byte output) and a fresh random 16-byte salt, giving a PHC string.
    /// It fails only for a password longer than Argon2 accepts (2^32 - 1
    /// bytes).
    pub fn hash_password(password: &str) -> (r: Result<String, AuthError>)
        ensures
            match r {
                Ok(h) => encode_utf8(password@).len() <= 0xFFFF_FFFF && (exists|salt: Seq<char>|
                    b64_salt(salt, 16, 16) && h@ == password_phc(password@, salt)) && phc_parses(h@)
                    && phc_lanes_bounded(encode_utf8(h@)),
                Err(e) => e == AuthError::PasswordHashing && encode_utf8(password@).len() > 0xFFFF_FFFF,
            },
    {
        let salt = argon2_salt();
        let ghost pw = encode_utf8(password@);
        assert(pw.len() <= 0xFFFF_FFFF ==> argon2_hash_succeeds(
            pw.len(),
            salt@,
            ARGON2_MEMORY_KIB,
            ARGON2_PASSES,
            ARGON2_LANES,
            ARGON2_OUTPUT_LEN,
        )) by {
            let b = choose|b: Seq<u8>| 16 <= b.len() <= 16 && salt@ == ascii_chars(b64_encode(b, false, false));
            assert(8 <= b.len() <= 48 && salt@ == ascii_chars(b64_encode(b, false, false)));
        }
        match argon2id_hash(
            password.as_bytes(),
            salt.as_str(),
            ARGON2_MEMORY_KIB,
            ARGON2_PASSES,
            ARGON2_LANES,
            ARGON2_OUTPUT_LEN,
        ) {
            Some(h) => {
                assert(b64_salt(salt@, 16, 16) && h@ == password_phc(password@, salt@));
                Ok(h)
            },
            None => Err(AuthError::PasswordHashing),
        }
    }

    /// Whether `password` matches the Argon2 PHC string `hash`; an error when
    /// `hash` does not parse. A password always matches a hash that hashing
    /// it produced, whatever the parameters the hash was made with. A hash
    /// that parses but names 2^29 lanes or more is refused by Argon2's
    /// parameter checks and matches no password.
    pub fn verify_password(password: &str, hash: &str) -> (r: Result<bool, AuthError>)
        ensures
            !phc_parses(hash@) ==> r == Err::<bool, AuthError>(AuthError::InvalidPasswordHash),
            phc_parses(hash@) ==> r is Ok,
            phc_parses(hash@) && !phc_lanes_bounded(encode_utf8(hash@)) ==> r == Ok::<bool, AuthError>(false),
            phc_lanes_bounded(encode_utf8(hash@)) ==> match argon2_check(encode_utf8(password@), hash@) {
                Some(b) => r == Ok::<bool, AuthError>(b),
                None => r == Err::<bool, AuthError>(AuthError::InvalidPasswordHash),
            },
            forall|salt: Seq<char>, m_cost: u32, t_cost: u32, p_cost: u32, output_len: usize|
                #[trigger] argon2_phc_hash(encode_utf8(password@), salt, m_cost, t_cost, p_cost, output_len)
                    == hash@ && phc_lanes_bounded(encode_utf8(hash@)) && argon2_hash_succeeds(
                    encode_utf8(password@).len(),
                    salt,
                    m_cost,
                    t_cost,
                    p_cost,
                    output_len,
                ) ==> r == Ok::<bool, AuthError>(true),
    {
        if !lanes_within_bound(hash.as_bytes()) {
            if phc_parse_ok(hash) {
                return Ok(false);
            }
            return Err(AuthError::InvalidPasswordHash);
        }
        match argon2_verify(password.as_bytes(), hash) {
            Some(b) => Ok(b),
            None => Err(AuthError::InvalidPasswordHash),
        }
    }

    /// Checks `token` at the current time, the clock's reading during the
    /// call, and returns the user id it carries: a genuine token whose
    /// expiry is before that reading is refused as expired.
    pub fn verify(&self, token: &str) -> (r: Result<String, AuthError>)
        ensures
            exists|now: i64|
                0 <= now <= 9_000_000_000_000 && outcome_agrees(
                    r,
                    token_check(self.secret(), encode_utf8(token@), now),
                ),
            exists|now: i64| clock_reading(now) && verified_at(self.secret(), encode_utf8(token@), now, r),
    {
        let now = clock_now();
        let r = self.verify_at(token, now);
        assert(clock_reading(now) && verified_at(self.secret(), encode_utf8(token@), now, r));
        r
    }
}

/// `anon_`
pub open spec fn anon_prefix() -> Seq<char> {
    seq!['a', 'n', 'o', 'n', '_']
}

/// The stored form of an encrypted email address: the standard base64 text
/// of the nonce followed by the AES-256-GCM ciphertext of the address.
pub open spec fn sealed_email(email: Seq<char>, key: Seq<u8>, nonce: Seq<u8>) -> Seq<char> {
    ascii_chars(b64_encode(nonce + aes256gcm_seal(key, nonce, encode_utf8(email)), false, true))
}

/// What an anonymous user registers: a random id, the password's Argon2
/// hash and, optionally, the encrypted email address.
#[derive(Debug, Clone)]
pub struct AnonymousRegistration {
    pub user_id: String,
    pub password_hash: String,
    pub encrypted_email: Option<String>,
}

/// Whether Argon2 accepts the password's length.
pub open spec fn password_fits(password: Seq<char>) -> bool {
    encode_utf8(password).len() <= 0xFFFF_FFFF
}

/// Whether AES-256-GCM accepts the email address's length (or there is no
/// address).
pub open spec fn email_fits(email: Option<&str>) -> bool {
    match email {
        Some(e) => encode_utf8(e@).len() <= AES_GCM_MAX_PLAINTEXT,
        None => true,
    }
}

/// The user id of a registration is `anon_` followed by a random UUID, and
/// its password hash is the PHC string of `password` with a random 16-byte
/// salt, a string that parses again and names a lanes count Argon2 accepts.
pub open spec fn registration_of(reg: AnonymousRegistration, password: Seq<char>) -> bool {
    &&& exists|u: Seq<char>| is_v4_uuid(u) && reg.user_id@ == anon_prefix() + u
    &&& exists|salt: Seq<char>| b64_salt(salt, 16, 16) && reg.password_hash@ == password_phc(password, salt)
    &&& phc_parses(reg.password_hash@)
    &&& phc_lanes_bounded(encode_utf8(reg.password_hash@))
}

/// `s` is the email address sealed under `key` with some 12-byte nonce; the
/// address is one AES-256-GCM accepts and the ciphertext is 16 bytes longer.
pub open spec fn sealed_email_under(s: Seq<char>, email: Seq<char>, key: Seq<u8>) -> bool {
    exists|n: Seq<u8>|
        n.len() == 12 && s == sealed_email(email, key, n) && aes256gcm_seal(key, n, encode_utf8(email)).len()
            == encode_utf8(email).len() + 16 && encode_utf8(email).len() <= AES_GCM_MAX_PLAINTEXT
}

/// What the stored text `stored` gives back under `key`: its standard base64
/// decoding, whose first 12 bytes are the nonce and the rest the AES-256-GCM
/// ciphertext, opened and read as UTF-8; `None` when a step fails.
pub open spec fn recovered_email(stored: Seq<char>, key: Seq<u8>) -> Option<Seq<char>> {
    match b64_standard_decoding(encode_utf8(stored)) {
        None => None,
        Some(b) => if b.len() < 12 {
            None
        } else {
            match aes256gcm_open(key, b.take(12), b.skip(12)) {
                None => None,
                Some(p) => if valid_utf8(p) {
                    Some(decode_utf8(p))
                } else {
                    None
                },
            }
        },
    }
}

/// Why registering fails: hashing fails only on a password Argon2 cannot
/// take; the email encryption only on an address AES-256-GCM cannot take.
pub open spec fn registration_error(err: AuthError, password: Seq<char>, email: Option<&str>) -> bool {
    ||| err == AuthError::PasswordHashing && !password_fits(password)
    ||| err == AuthError::EmailEncryption && password_fits(password) && !email_fits(email)
}

impl AnonymousRegistration {
    /// Registers a new anonymous user; the email address, if given, is sealed
    /// under a fresh random key that is not kept.
    pub fn new(password: &str, email: Option<&str>) -> (r: Result<Self, AuthError>)
        ensures
            password_fits(password@) && email_fits(email) ==> r is Ok,
            match r {
                Ok(reg) => registration_of(reg, password@) && match email {
                    None => reg.encrypted_email is None,
                    Some(e) => reg.encrypted_email matches Some(x) && exists|k: Seq<u8>|
                        k.len() == 32 && sealed_email_under(x@, e@, k),
                },
                Err(err) => registration_error(err, password@, email),
            },
    {
        let key = random_bytes_32();
        let r = Self::new_with_email_key(password, email, key.as_slice());
        proof {
            if r is Ok && email is Some {
                let x = r->Ok_0.encrypted_email->Some_0;
                assert(key@.len() == 32 && sealed_email_under(x@, email->Some_0@, key@));
            }
        }
        r
    }

    /// Registers a new anonymous user whose email address, if given, is
    /// sealed under `email_key`, so that the holder of the key can recover it.
    pub fn new_with_email_key(password: &str, email: Option<&str>, email_key: &[u8]) -> (r: Result<Self, AuthError>)
        requires
            email_key@.len() == 32,
        ensures
            password_fits(password@) && email_fits(email) ==> r is Ok,
            match r {
                Ok(reg) => registration_of(reg, password@) && match email {
                    None => reg.encrypted_email is None,
                    Some(e) => reg.encrypted_email matches Some(x) && sealed_email_under(x@, e@, email_key@),
                },
                Err(err) => registration_error(err, password@, email),
            },
    {
        let user_id = TokenGenerator::generate_user_id();
        let password_hash = match TokenGenerator::hash_password(password) {
            Ok(h) => h,
            Err(e) => {
                return Err(e);
            },
        };
        let encrypted_email = match email {
            Some(e) => match Self::encrypt_email_with_key(e, email_key) {
                Ok(x) => Some(x),
                Err(err) => {
                    return Err(err);
                },
            },
            None => None,
        };
        Ok(Self { user_id, password_hash, encrypted_email })
    }

    /// Encrypts an email address under the given key and nonce and encodes
    /// the nonce and ciphertext in standard base64.
    pub fn encrypt_email_with(email: &str, key: &[u8], nonce: &[u8]) -> (r: Result<String, AuthError>)
        requires
            key@.len() == 32,
            nonce@.len() == 12,
        ensures
            match r {
                Ok(s) => encode_utf8(email@).len() <= AES_GCM_MAX_PLAINTEXT && s@ == sealed_email(
                    email@,
                    key@,
                    nonce@,
                ) && aes256gcm_seal(key@, nonce@, encode_utf8(email@)).len() == encode_utf8(email@).len()
                    + 16,
                Err(e) => e == AuthError::EmailEncryption && encode_utf8(email@).len()
                    > AES_GCM_MAX_PLAINTEXT,
            },
    {
        let ciphertext = match aes256gcm_encrypt(key, nonce, email.as_bytes()) {
            Some(c) => c,
            None => {
                return Err(AuthError::EmailEncryption);
            },
        };
        let mut combined = bytes_to_vec(nonce);
        append_bytes(&mut combined, ciphertext.as_slice());
        let encoded = base64_standard_encode(combined.as_slice());
        proof {
            lemma_b64_ascii(combined@, false, true);
        }
        Ok(ascii_string(encoded))
    }

    /// Recovers the email address kept encrypted in `stored` with the key it
    /// was sealed under: the standard base64 text is decoded, its first 12
    /// bytes are the nonce and the rest is opened with AES-256-GCM. An address
    /// sealed under `key` (as registration stores it) comes back.
    pub fn recover_email(stored: &str, key: &[u8]) -> (r: Option<String>)
        requires
            key@.len() == 32,
        ensures
            match r {
                Some(e) => recovered_email(stored@, key@) == Some(e@),
                None => recovered_email(stored@, key@) is None,
            },
            forall|email: Seq<char>| #[trigger] sealed_email_under(stored@, email, key@) ==> (r matches Some(e) && e@ == email),
    {
        let decoded = match base64_standard_decode(stored.as_bytes()) {
            Some(d) => d,
            None => {
                proof {
                    assert forall|email: Seq<char>| !#[trigger] sealed_email_under(stored@, email, key@) by {
                        Self::lemma_sealed_email_decodes(stored@, email, key@);
                    }
                }
                return None;
            },
        };
        if decoded.len() < 12 {
            proof {
                assert forall|email: Seq<char>| !#[trigger] sealed_email_under(stored@, email, key@) by {
                    Self::lemma_sealed_email_decodes(stored@, email, key@);
                }
            }
            return None;
        }
        let nonce = crate::bytes::subrange_to_vec(decoded.as_slice(), 0, 12);
        let ciphertext = crate::bytes::subrange_to_vec(decoded.as_slice(), 12, decoded.len());
        assert(nonce@ == decoded@.take(12));
        assert(ciphertext@ == decoded@.skip(12));
        proof {
            assert forall|email: Seq<char>| #[trigger] sealed_email_under(stored@, email, key@) implies aes256gcm_seal(
                key@,
                nonce@,
                encode_utf8(email),
            ) == ciphertext@ && encode_utf8(email).len() <= AES_GCM_MAX_PLAINTEXT by {
                Self::lemma_sealed_email_decodes(stored@, email, key@);
            }
        }
        let plain = match aes256gcm_decrypt(key, nonce.as_slice(), ciphertext.as_slice()) {
            Some(p) => p,
            None => {
                return None;
            },
        };
        let r = string_from_utf8(plain);
        proof {
            assert forall|email: Seq<char>| #[trigger] sealed_email_under(stored@, email, key@) implies r matches Some(
                e,
            ) && e@ == email by {
                encode_utf8_valid_utf8(email);
                encode_utf8_decode_utf8(email);
            }
        }
        r
    }

    /// Stored text that seals an address under `key` decodes to the nonce
    /// followed by the ciphertext of the address's UTF-8 bytes.
    proof fn lemma_sealed_email_decodes(stored: Seq<char>, email: Seq<char>, key: Seq<u8>)
        ensures
            sealed_email_under(stored, email, key) ==> exists|n: Seq<u8>|
                n.len() == 12 && encode_utf8(stored) == b64_encode(
                    n + aes256gcm_seal(key, n, encode_utf8(email)),
                    false,
                    true,
                ) && (n + aes256gcm_seal(key, n, encode_utf8(email))).len() >= 12 && (n + aes256gcm_seal(
                    key,
                    n,
                    encode_utf8(email),
                )).take(12) == n && (n + aes256gcm_seal(key, n, encode_utf8(email))).skip(12) == aes256gcm_seal(
                    key,
                    n,
                    encode_utf8(email),
                ),
    {
        if sealed_email_under(stored, email, key) {
            let n = choose|n: Seq<u8>|
                n.len() == 12 && stored == sealed_email(email, key, n) && aes256gcm_seal(key, n, encode_utf8(email)).len()
                    == encode_utf8(email).len() + 16 && encode_utf8(email).len() <= AES_GCM_MAX_PLAINTEXT;
            let b = n + aes256gcm_seal(key, n, encode_utf8(email));
            lemma_b64_ascii(b, false, true);
            lemma_ascii_encode_utf8(b64_encode(b, false, true));
            assert(b.take(12) =~= n);
            assert(b.skip(12) =~= aes256gcm_seal(key, n, encode_utf8(email)));
        }
    }

    /// Encrypts an email address under the given key with a fresh random
    /// nonce.
    pub fn encrypt_email_with_key(email: &str, key: &[u8]) -> (r: Result<String, AuthError>)
        requires
            key@.len() == 32,
        ensures
            match r {
                Ok(s) => sealed_email_under(s@, email@, key@),
                Err(e) => e == AuthError::EmailEncryption && encode_utf8(email@).len()
                    > AES_GCM_MAX_PLAINTEXT,
            },
    {
        let nonce = random_bytes_12();
        let r = Self::encrypt_email_with(email, key, nonce.as_slice());
        match r {
            Ok(s) => {
                assert(nonce@.len() == 12 && s@ == sealed_email(email@, key@, nonce@));
                Ok(s)
            },
            Err(e) => Err(e),
        }
    }
}

} // verus!
