//! Trusted entry points for what depends on chance or on the clock: random
//! bytes (rand), the current time (chrono) and random identifiers (uuid).
//! Two calls may return different values; their contracts state only what
//! holds of every outcome.
use vstd::prelude::*;

use rand::Rng;

verus! {

/// `rand::thread_rng().gen::<[u8; 32]>()`: 32 random bytes. (`thread_rng`
/// panics only when the operating system's generator fails.)
#[verifier::external_body]
pub(crate) fn random_bytes_32() -> (r: Vec<u8>)
    ensures
        r@.len() == 32,
{
    rand::thread_rng().gen::<[u8; 32]>().to_vec()
}

/// `rand::thread_rng().gen::<[u8; 12]>()`: 12 random bytes.
#[verifier::external_body]
pub(crate) fn random_bytes_12() -> (r: Vec<u8>)
    ensures
        r@.len() == 12,
{
    rand::thread_rng().gen::<[u8; 12]>().to_vec()
}

/// `rand::thread_rng().gen::<[u8; 8]>()`: 8 random bytes.
#[verifier::external_body]
pub(crate) fn random_bytes_8() -> (r: Vec<u8>)
    ensures
        r@.len() == 8,
{
    rand::thread_rng().gen::<[u8; 8]>().to_vec()
}

/// `chrono::Utc::now().timestamp()`: the current Unix time in seconds.
/// chrono's `Utc::now` panics when the system clock reads a time before the
/// Unix epoch or past its last representable year (262142); whenever it
/// returns, the value lies in the range stated here.
#[verifier::external_body]
pub(crate) fn unix_timestamp_now() -> (r: i64)
    ensures
        0 <= r <= 9_000_000_000_000,
{
    chrono::Utc::now().timestamp()
}

/// Whether `t` is a value `unix_timestamp_now` can return: the current Unix
/// time in seconds at some moment it is read.
pub closed spec fn clock_reading(t: i64) -> bool {
    call_ensures(unix_timestamp_now, (), t)
}

/// The current Unix time in seconds: a clock reading.
pub(crate) fn clock_now() -> (r: i64)
    ensures
        clock_reading(r),
        0 <= r <= 9_000_000_000_000,
{
    unix_timestamp_now()
}

/// A clock reading is a Unix time in seconds within the range the clock's
/// contract states.
pub proof fn lemma_clock_reading_range(t: i64)
    requires
        clock_reading(t),
    ensures
        0 <= t <= 9_000_000_000_000,
{
}

/// Whether `c` is a lower-case hexadecimal digit.
pub open spec fn is_lower_hex_char(c: char) -> bool {
    ('0' <= c <= '9') || ('a' <= c <= 'f')
}

/// The shape of a hyphenated UUID string: 36 characters, hyphens at positions
/// 8, 13, 18 and 23, lower-case hex digits elsewhere.
pub open spec fn is_hyphenated_uuid(s: Seq<char>) -> bool {
    &&& s.len() == 36
    &&& forall|i: int|
        0 <= i < 36 ==> if i == 8 || i == 13 || i == 18 || i == 23 {
            s[i] == '-'
        } else {
            is_lower_hex_char(#[trigger] s[i])
        }
}

/// A hyphenated random (version 4, RFC 4122 variant) UUID: the version digit
/// is `4` and the variant digit one of `8`, `9`, `a`, `b`.
pub open spec fn is_v4_uuid(s: Seq<char>) -> bool {
    &&& is_hyphenated_uuid(s)
    &&& s[14] == '4'
    &&& (s[19] == '8' || s[19] == '9' || s[19] == 'a' || s[19] == 'b')
}

/// `uuid::Uuid::new_v4().to_string()`: a random version-4 UUID in the
/// hyphenated lower-case form that `Uuid`'s `Display` writes (`new_v4` sets
/// the version and variant bits).
#[verifier::external_body]
pub(crate) fn uuid_v4_string() -> (r: String)
    ensures
        is_v4_uuid(r@),
{
    uuid::Uuid::new_v4().to_string()
}

} // verus!
