//! Proof-of-work CAPTCHA: a client must find a number whose SHA-256 digest,
//! taken over the challenge text followed by the number's eight
//! little-endian bytes, starts with at least `difficulty` zero bits.
use vstd::prelude::*;
use vstd::std_specs::bits::axiom_u8_leading_zeros;
use vstd::utf8::{encode_utf8, encode_utf8_decode_utf8};

use crate::bytes::{append_bytes, bytes_equal, le_bytes, le_bytes_exec};
use crate::entropy::{clock_now, clock_reading, random_bytes_32};
use crate::hex::{encode, hex_encoding};
use crate::primitives::{sha256, sha256_digest};

verus! {

broadcast use axiom_u8_leading_zeros;

/// A CAPTCHA challenge handed to a client.
#[derive(Debug, Clone)]
pub struct CaptchaChallenge {
    pub challenge: String,
    pub difficulty: u8,
    pub timestamp: i64,
}

/// A candidate solution to a challenge.
#[derive(Debug, Clone)]
pub struct ProofOfWork {
    pub challenge: String,
    pub solution: u64,
}

/// Why a CAPTCHA operation failed.
#[derive(Debug, Clone, Copy, PartialEq, Eq)]
pub enum CaptchaError {
    /// No number up to the search limit solves the challenge.
    Unsolved,
    /// A candidate's digest starts with 256 or more zero bits, more than the
    /// one-byte zero-bit counter can hold.
    DigestOverflow,
}

/// The largest number that `solve` tries.
pub const SOLVE_LIMIT: u64 = 10_000_000;

/// The number of leading zero bits of `b`, read as one long bit string.
pub open spec fn leading_zero_bits(b: Seq<u8>) -> nat
    decreases b.len(),
{
    if b.len() == 0 {
        0
    } else if b[0] == 0 {
        8 + leading_zero_bits(b.drop_first())
    } else {
        b[0].leading_zeros() as nat
    }
}

/// The bytes that are hashed for a candidate: the UTF-8 bytes of the
/// challenge followed by the eight little-endian bytes of the solution.
pub open spec fn pow_message(challenge: Seq<char>, solution: u64) -> Seq<u8> {
    encode_utf8(challenge) + le_bytes(solution as nat, 8)
}

/// The digest of a candidate.
pub open spec fn pow_digest(challenge: Seq<char>, solution: u64) -> Seq<u8> {
    sha256_digest(pow_message(challenge, solution))
}

/// Whether the one-byte zero-bit counter can count the digest of a candidate
/// (fewer than 256 leading zero bits).
pub open spec fn pow_countable(challenge: Seq<char>, solution: u64) -> bool {
    leading_zero_bits(pow_digest(challenge, solution)) < 256
}

/// Whether a candidate meets the difficulty.
pub open spec fn pow_solves(challenge: Seq<char>, solution: u64, difficulty: u8) -> bool {
    leading_zero_bits(pow_digest(challenge, solution)) >= difficulty
}

/// A candidate that the counter can count and that misses the difficulty.
pub open spec fn pow_rejected(challenge: Seq<char>, solution: u64, difficulty: u8) -> bool {
    pow_countable(challenge, solution) && !pow_solves(challenge, solution, difficulty)
}

/// When the first `i` bytes of `b` are zero, they contribute `8 * i` leading
/// zero bits and the count goes on in the rest.
pub proof fn lemma_leading_zero_bits_prefix(b: Seq<u8>, i: int)
    requires
        0 <= i <= b.len(),
        forall|j: int| 0 <= j < i ==> b[j] == 0,
    ensures
        leading_zero_bits(b) == 8 * i + leading_zero_bits(b.skip(i)),
    decreases i,
{
    if i > 0 {
        lemma_leading_zero_bits_prefix(b.drop_first(), i - 1);
        assert(b.drop_first().skip(i - 1) =~= b.skip(i));
    } else {
        assert(b.skip(0) =~= b);
    }
}

/// A byte string with fewer than 256 leading zero bits is exactly one whose
/// first 32 bytes (or all of it, when shorter) are not all zero.
proof fn lemma_countable_iff(b: Seq<u8>)
    ensures
        leading_zero_bits(b) < 256 <==> (b.len() < 32 && (forall|j: int| 0 <= j < b.len() ==> b[j] == 0))
            || (exists|j: int| 0 <= j < b.len() && j < 32 && b[j] != 0),
{
    if exists|j: int| 0 <= j < b.len() && j < 32 && b[j] != 0 {
        lemma_first_nonzero(b);
        let f = choose|j: int| 0 <= j < b.len() && b[j] != 0 && forall|l: int| 0 <= l < j ==> b[l] == 0;
        lemma_leading_zero_bits_prefix(b, f);
        assert(b.skip(f)[0] == b[f]);
        assert(f < 32) by {
            if f >= 32 {
                let j0 = choose|j: int| 0 <= j < b.len() && j < 32 && b[j] != 0;
                assert(b[j0] == 0);
            }
        }
    } else {
        let m = if b.len() < 32 { b.len() as int } else { 32 };
        lemma_leading_zero_bits_prefix(b, m);
        if b.len() < 32 {
            assert(b.skip(m).len() == 0);
        }
    }
}

/// A byte string with a nonzero byte has a first nonzero byte.
proof fn lemma_first_nonzero(b: Seq<u8>)
    requires
        exists|j: int| 0 <= j < b.len() && b[j] != 0,
    ensures
        exists|j: int| 0 <= j < b.len() && b[j] != 0 && forall|l: int| 0 <= l < j ==> b[l] == 0,
    decreases b.len(),
{
    if b[0] != 0 {
        assert(forall|l: int| 0 <= l < 0 ==> b[l] == 0);
    } else {
        let j0 = choose|j: int| 0 <= j < b.len() && b[j] != 0;
        assert(b.drop_first()[j0 - 1] != 0);
        lemma_first_nonzero(b.drop_first());
        let k = choose|j: int| 0 <= j < b.drop_first().len() && b.drop_first()[j] != 0 && forall|l: int| 0 <= l < j ==> b.drop_first()[l] == 0;
        assert(b[k + 1] != 0);
        assert forall|l: int| 0 <= l < k + 1 implies b[l] == 0 by {
            if l > 0 {
                assert(b[l] == b.drop_first()[l - 1]);
            }
        }
    }
}

/// Verifies proof-of-work solutions against a fixed difficulty.
pub struct CaptchaVerifier {
    difficulty: u8,
}

impl CaptchaVerifier {
    /// The number of leading zero bits a solution must reach.
    pub closed spec fn difficulty_spec(&self) -> u8 {
        self.difficulty
    }

    /// Creates a verifier for the given difficulty.
    pub fn new(difficulty: u8) -> (r: Self)
        ensures
            r.difficulty_spec() == difficulty,
    {
        Self { difficulty }
    }

    /// A challenge built from 32 random bytes and a timestamp: the bytes in
    /// hexadecimal and this verifier's difficulty.
    pub fn challenge_from_parts(&self, random_bytes: &[u8], timestamp: i64) -> (r: CaptchaChallenge)
        ensures
            r.challenge@ == hex_encoding(random_bytes@),
            r.difficulty == self.difficulty_spec(),
            r.timestamp == timestamp,
    {
        CaptchaChallenge { challenge: encode(random_bytes), difficulty: self.difficulty, timestamp }
    }

    /// Generates a new challenge from 32 random bytes and the current time:
    /// its timestamp is the clock's reading (Unix seconds) during the call.
    pub fn generate_challenge(&self) -> (r: Result<CaptchaChallenge, CaptchaError>)
        ensures
            r matches Ok(c) && c.difficulty == self.difficulty_spec() && c.timestamp >= 0
                && exists|b: Seq<u8>| b.len() == 32 && c.challenge@ == hex_encoding(b),
            r matches Ok(c) && clock_reading(c.timestamp),
    {
        let random_bytes = random_bytes_32();
        let timestamp = clock_now();
        let c = self.challenge_from_parts(random_bytes.as_slice(), timestamp);
        assert(random_bytes@.len() == 32 && c.challenge@ == hex_encoding(random_bytes@));
        Ok(c)
    }

    /// The digest of a candidate solution.
    pub fn compute_hash(&self, pow: &ProofOfWork) -> (h: Vec<u8>)
        ensures
            h@ == pow_digest(pow.challenge@, pow.solution),
            h@.len() == 32,
    {
        let mut message: Vec<u8> = Vec::new();
        append_bytes(&mut message, pow.challenge.as_str().as_bytes());
        let suffix = le_bytes_exec(pow.solution, 8);
        append_bytes(&mut message, suffix.as_slice());
        assert(message@ =~= pow_message(pow.challenge@, pow.solution));
        sha256(message.as_slice())
    }

    /// Counts the leading zero bits of `hash` in one byte.
    pub fn count_leading_zeros(&self, hash: &[u8]) -> (count: u8)
        requires
            leading_zero_bits(hash@) < 256,
        ensures
            count == leading_zero_bits(hash@),
    {
        let mut count: u8 = 0;
        let n = hash.len();
        let mut i: usize = 0;
        while i < n
            invariant
                n == hash@.len(),
                i <= n,
                leading_zero_bits(hash@) < 256,
                forall|j: int| 0 <= j < i ==> hash@[j] == 0,
                count == 8 * i,
            decreases n - i,
        {
            proof {
                lemma_leading_zero_bits_prefix(hash@, i as int);
                assert(hash@.skip(i as int)[0] == hash@[i as int]);
                assert(hash@.skip(i as int).drop_first() =~= hash@.skip(i + 1));
            }
            let byte = hash[i];
            if byte == 0 {
                count = count + 8;
            } else {
                let lz = byte.leading_zeros();
                count = count + lz as u8;
                return count;
            }
            i = i + 1;
        }
        proof {
            lemma_leading_zero_bits_prefix(hash@, n as int);
            assert(hash@.skip(n as int).len() == 0);
        }
        count
    }

    /// Whether `hash` has at least as many leading zero bits as the
    /// difficulty asks.
    pub fn check_difficulty(&self, hash: &[u8]) -> (r: bool)
        requires
            leading_zero_bits(hash@) < 256,
        ensures
            r == (leading_zero_bits(hash@) >= self.difficulty_spec()),
    {
        let leading_zeros = self.count_leading_zeros(hash);
        leading_zeros >= self.difficulty
    }

    /// Whether the one-byte counter can count the leading zero bits of `hash`.
    pub fn countable(hash: &[u8]) -> (r: bool)
        ensures
            r == (leading_zero_bits(hash@) < 256),
    {
        proof {
            lemma_countable_iff(hash@);
        }
        let n = hash.len();
        let mut i: usize = 0;
        while i < n && i < 32
            invariant
                n == hash@.len(),
                i <= n,
                i <= 32,
                forall|j: int| 0 <= j < i ==> hash@[j] == 0,
            decreases n - i,
        {
            if hash[i] != 0 {
                proof {
                    lemma_countable_iff(hash@);
                    assert(0 <= i < hash@.len() && i < 32 && hash@[i as int] != 0);
                }
                return true;
            }
            i = i + 1;
        }
        n < 32
    }

    /// Whether the one-byte counter can count the leading zero bits of the
    /// digest of a candidate.
    pub fn solution_countable(&self, challenge: &str, solution: u64) -> (r: bool)
        ensures
            r == pow_countable(challenge@, solution),
    {
        let pow = ProofOfWork { challenge: challenge.to_owned(), solution };
        let hash = self.compute_hash(&pow);
        Self::countable(hash.as_slice())
    }

    /// Verifies a proof-of-work solution: whether the digest of the
    /// challenge and the solution meets the difficulty.
    pub fn verify(&self, challenge: &str, solution: u64) -> (r: Result<bool, CaptchaError>)
        requires
            pow_countable(challenge@, solution),
        ensures
            r == Ok::<bool, CaptchaError>(pow_solves(challenge@, solution, self.difficulty_spec())),
    {
        let pow = ProofOfWork { challenge: challenge.to_owned(), solution };
        let hash = self.compute_hash(&pow);
        Ok(self.check_difficulty(hash.as_slice()))
    }

    /// `verify` where the counter can count the candidate's digest, `None`
    /// where it cannot.
    pub fn try_verify(&self, challenge: &str, solution: u64) -> (r: Option<bool>)
        ensures
            r == (if pow_countable(challenge@, solution) {
                Some(pow_solves(challenge@, solution, self.difficulty_spec()))
            } else {
                None
            }),
    {
        if !self.solution_countable(challenge, solution) {
            return None;
        }
        match self.verify(challenge, solution) {
            Ok(b) => Some(b),
            Err(_) => None,
        }
    }

    /// Searches for the smallest solution up to `SOLVE_LIMIT`.
    pub fn solve(&self, challenge: &str) -> (r: Result<u64, CaptchaError>)
        ensures
            match r {
                Ok(s) => s <= SOLVE_LIMIT && pow_countable(challenge@, s) && pow_solves(
                    challenge@,
                    s,
                    self.difficulty_spec(),
                ) && forall|t: u64|
                    t < s ==> #[trigger] pow_rejected(challenge@, t, self.difficulty_spec()),
                Err(CaptchaError::Unsolved) => forall|t: u64|
                    t <= SOLVE_LIMIT ==> #[trigger] pow_rejected(challenge@, t, self.difficulty_spec()),
                Err(CaptchaError::DigestOverflow) => exists|s: u64|
                    s <= SOLVE_LIMIT && !pow_countable(challenge@, s) && forall|t: u64|
                        t < s ==> #[trigger] pow_rejected(challenge@, t, self.difficulty_spec()),
            },
    {
        let mut solution: u64 = 0;
        loop
            invariant
                solution <= SOLVE_LIMIT,
                forall|t: u64| t < solution ==> #[trigger] pow_rejected(challenge@, t, self.difficulty_spec()),
            decreases SOLVE_LIMIT - solution,
        {
            match self.try_verify(challenge, solution) {
                None => {
                    return Err(CaptchaError::DigestOverflow);
                },
                Some(true) => {
                    return Ok(solution);
                },
                Some(false) => {},
            }
            assert(pow_rejected(challenge@, solution, self.difficulty_spec()));
            solution = solution + 1;
            if solution > SOLVE_LIMIT {
                return Err(CaptchaError::Unsolved);
            }
        }
    }
}

/// Whether an attempt made at time `t` falls in the window of `window`
/// seconds that ends at `now`.
pub open spec fn in_window(t: u64, now: u64, window: u64) -> bool {
    t <= now && now - t < window
}

/// The number of attempts recorded for `ip` in the window of `window`
/// seconds that ends at `now`.
pub open spec fn recent_attempts(attempts: Seq<(Seq<char>, u64)>, ip: Seq<char>, now: u64, window: u64) -> nat
    decreases attempts.len(),
{
    if attempts.len() == 0 {
        0
    } else {
        recent_attempts(attempts.drop_last(), ip, now, window) + if attempts.last().0 == ip && in_window(
            attempts.last().1,
            now,
            window,
        ) {
            1nat
        } else {
            0nat
        }
    }
}

/// Recording attempts of `ip`, each inside the window of `window` seconds
/// that ends at `now`, after any earlier attempts raises the count of `ip` in
/// that window by the number recorded and leaves the count of every other
/// address as it was. So once `max_attempts` of them are recorded `ip` is
/// refused at `now`, while an address with fewer attempts in the window is
/// still allowed.
pub proof fn lemma_attempts_in_window(
    before: Seq<(Seq<char>, u64)>,
    added: Seq<(Seq<char>, u64)>,
    ip: Seq<char>,
    other: Seq<char>,
    now: u64,
    window: u64,
)
    requires
        forall|i: int| 0 <= i < added.len() ==> (#[trigger] added[i]).0 == ip && in_window(added[i].1, now, window),
    ensures
        recent_attempts(before + added, ip, now, window) == recent_attempts(before, ip, now, window) + added.len(),
        other != ip ==> recent_attempts(before + added, other, now, window) == recent_attempts(
            before,
            other,
            now,
            window,
        ),
    decreases added.len(),
{
    if added.len() == 0 {
        assert(before + added =~= before);
    } else {
        let rest = added.drop_last();
        assert forall|i: int| 0 <= i < rest.len() implies (#[trigger] rest[i]).0 == ip && in_window(
            rest[i].1,
            now,
            window,
        ) by {
            assert(rest[i] == added[i]);
        }
        lemma_attempts_in_window(before, rest, ip, other, now, window);
        assert((before + added).drop_last() =~= before + rest);
        assert((before + added).last() == added[added.len() - 1]);
    }
}

/// Attempts of `ip` recorded `window` seconds or more before `now` (or after
/// it) do not count: an address all of whose attempts lie outside the window
/// that ends at `now` has none counted, so it is allowed whenever
/// `max_attempts` is at least one.
pub proof fn lemma_stale_attempts_not_counted(
    attempts: Seq<(Seq<char>, u64)>,
    ip: Seq<char>,
    now: u64,
    window: u64,
)
    requires
        forall|i: int|
            0 <= i < attempts.len() && (#[trigger] attempts[i]).0 == ip ==> !in_window(attempts[i].1, now, window),
    ensures
        recent_attempts(attempts, ip, now, window) == 0,
    decreases attempts.len(),
{
    if attempts.len() > 0 {
        let rest = attempts.drop_last();
        assert forall|i: int| 0 <= i < rest.len() && (#[trigger] rest[i]).0 == ip implies !in_window(
            rest[i].1,
            now,
            window,
        ) by {
            assert(rest[i] == attempts[i]);
        }
        lemma_stale_attempts_not_counted(rest, ip, now, window);
        assert(attempts.last() == attempts[attempts.len() - 1]);
    }
}

/// Rate limiter for CAPTCHA attempts: an address (given by its hash) may
/// attempt while fewer than `max_attempts` of its attempts fall in the last
/// `window_seconds` seconds.
pub struct CaptchaRateLimiter {
    max_attempts: u32,
    window_seconds: u64,
    attempts: Vec<(String, u64)>,
}

impl CaptchaRateLimiter {
    /// The number of attempts allowed per window.
    pub closed spec fn max_attempts_spec(&self) -> u32 {
        self.max_attempts
    }

    /// The length of a window in seconds.
    pub closed spec fn window_seconds_spec(&self) -> u64 {
        self.window_seconds
    }

    /// The recorded attempts, oldest first: address hash and time.
    pub closed spec fn attempts_spec(&self) -> Seq<(Seq<char>, u64)> {
        self.attempts@.map_values(|p: (String, u64)| (p.0@, p.1))
    }

    /// Creates a rate limiter with no attempts recorded.
    pub fn new(max_attempts: u32, window_seconds: u64) -> (r: Self)
        ensures
            r.max_attempts_spec() == max_attempts,
            r.window_seconds_spec() == window_seconds,
            r.attempts_spec() == Seq::<(Seq<char>, u64)>::empty(),
    {
        let r = Self { max_attempts, window_seconds, attempts: Vec::new() };
        assert(r.attempts_spec() =~= Seq::<(Seq<char>, u64)>::empty());
        r
    }

    /// Whether the address with the given hash may attempt a CAPTCHA at time
    /// `now`: fewer than `max_attempts` of its attempts fall in the window.
    pub fn is_allowed_at(&self, ip_hash: &str, now: u64) -> (r: bool)
        ensures
            r == (recent_attempts(self.attempts_spec(), ip_hash@, now, self.window_seconds_spec())
                < self.max_attempts_spec()),
    {
        let ghost all = self.attempts_spec();
        let n = self.attempts.len();
        let mut count: usize = 0;
        let mut i: usize = 0;
        while i < n
            invariant
                n == self.attempts@.len(),
                all == self.attempts_spec(),
                all.len() == n,
                i <= n,
                count <= i,
                count == recent_attempts(all.take(i as int), ip_hash@, now, self.window_seconds),
            decreases n - i,
        {
            let entry = &self.attempts[i];
            let same = bytes_equal(entry.0.as_str().as_bytes(), ip_hash.as_bytes());
            proof {
                encode_utf8_decode_utf8(entry.0@);
                encode_utf8_decode_utf8(ip_hash@);
                assert(same == (entry.0@ == ip_hash@));
                assert(all.take(i + 1).drop_last() =~= all.take(i as int));
                assert(all.take(i + 1).last() == all[i as int]);
                assert(all[i as int] == (entry.0@, entry.1));
            }
            if same && entry.1 <= now && now - entry.1 < self.window_seconds {
                count = count + 1;
            }
            i = i + 1;
        }
        assert(all.take(n as int) =~= all);
        (count as u64) < (self.max_attempts as u64)
    }

    /// Records an attempt from the address with the given hash at time `now`.
    pub fn record_attempt_at(&mut self, ip_hash: &str, now: u64) -> (r: Result<(), CaptchaError>)
        ensures
            r is Ok,
            final(self).attempts_spec() == old(self).attempts_spec().push((ip_hash@, now)),
            final(self).max_attempts_spec() == old(self).max_attempts_spec(),
            final(self).window_seconds_spec() == old(self).window_seconds_spec(),
    {
        let ghost before = self.attempts_spec();
        self.attempts.push((ip_hash.to_owned(), now));
        assert(self.attempts_spec() =~= before.push((ip_hash@, now)));
        Ok(())
    }

    /// Whether the address with the given hash may attempt a CAPTCHA now, at
    /// the clock's reading during the call.
    pub fn is_allowed(&self, ip_hash: &str) -> (r: bool)
        ensures
            exists|now: u64|
                now <= 9_000_000_000_000 && r == (recent_attempts(
                    self.attempts_spec(),
                    ip_hash@,
                    now,
                    self.window_seconds_spec(),
                ) < self.max_attempts_spec()),
            exists|now: u64|
                clock_reading(now as i64) && r == (recent_attempts(
                    self.attempts_spec(),
                    ip_hash@,
                    now,
                    self.window_seconds_spec(),
                ) < self.max_attempts_spec()),
    {
        let clock = clock_now();
        let now = clock as u64;
        let r = self.is_allowed_at(ip_hash, now);
        assert(now as i64 == clock);
        r
    }

    /// Records an attempt from the address with the given hash now, at the
    /// clock's reading during the call.
    pub fn record_attempt(&mut self, ip_hash: &str) -> (r: Result<(), CaptchaError>)
        ensures
            r is Ok,
            exists|now: u64|
                now <= 9_000_000_000_000 && final(self).attempts_spec() == old(self).attempts_spec().push(
                    (ip_hash@, now),
                ),
            exists|now: u64|
                clock_reading(now as i64) && final(self).attempts_spec() == old(self).attempts_spec().push(
                    (ip_hash@, now),
                ),
            final(self).max_attempts_spec() == old(self).max_attempts_spec(),
            final(self).window_seconds_spec() == old(self).window_seconds_spec(),
    {
        let clock = clock_now();
        let now = clock as u64;
        let r = self.record_attempt_at(ip_hash, now);
        assert(now as i64 == clock);
        r
    }
}

} // verus!
