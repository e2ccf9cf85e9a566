//! Reading token claims from JSON text the way serde_json reads it into a
//! struct with the fields `sub` and `jti` (strings) and `iat` and `exp`
//! (`i64`): an object holding those four members in any order, with
//! whitespace between tokens, members with other keys skipped (their values
//! must still be JSON), no field twice; or an array of the four values in
//! that order. Strings may use every JSON escape, surrogate pairs included,
//! and must be UTF-8.
use vstd::prelude::*;
use vstd::utf8::{encode_scalar, encode_utf8_valid_utf8, valid_utf8};

use crate::json_number::{
    decimal, is_digit, lemma_nat_digits_are_digits, lemma_scan_decimal, nat_digits, no_digit_first, scan_int,
    scan_int_spec,
};
use crate::json_string::{escape_byte, escape_json};
use crate::token_format::{claims_exp_key, claims_iat_key, claims_jti_key, claims_json, claims_open};
use crate::bytes::bytes_equal;
use crate::text::{ascii_chars, lemma_ascii_encode_utf8, string_from_utf8};

verus! {

/// Whether `c` is JSON whitespace.
pub open spec fn is_ws(c: u8) -> bool {
    c == 32 || c == 9 || c == 10 || c == 13
}

/// Whether `b` holds the byte `c` at `i`.
pub open spec fn at(b: Seq<u8>, i: int, c: u8) -> bool {
    0 <= i < b.len() && b[i] == c
}

/// Whether `b` holds a decimal digit at `i`.
pub open spec fn digit_at(b: Seq<u8>, i: int) -> bool {
    0 <= i < b.len() && is_digit(b[i])
}

/// The first position from `i` on that is not whitespace.
pub open spec fn skip_ws(b: Seq<u8>, i: int) -> int
    decreases b.len() - i,
{
    if 0 <= i < b.len() && is_ws(b[i]) {
        skip_ws(b, i + 1)
    } else {
        i
    }
}

/// The first position from `i` on that is not a digit.
pub open spec fn digits_end(b: Seq<u8>, i: int) -> int
    decreases b.len() - i,
{
    if digit_at(b, i) {
        digits_end(b, i + 1)
    } else {
        i
    }
}

/// The value of a hexadecimal digit, either case.
pub open spec fn hex_value(c: u8) -> Option<u32> {
    if 48 <= c <= 57 {
        Some((c - 48) as u32)
    } else if 97 <= c <= 102 {
        Some((c - 87) as u32)
    } else if 65 <= c <= 70 {
        Some((c - 55) as u32)
    } else {
        None
    }
}

/// The value of the four hexadecimal digits at `i`.
pub open spec fn hex4(b: Seq<u8>, i: int) -> Option<u32> {
    if 0 <= i && i + 4 <= b.len() {
        match (hex_value(b[i]), hex_value(b[i + 1]), hex_value(b[i + 2]), hex_value(b[i + 3])) {
            (Some(w), Some(x), Some(y), Some(z)) => Some((w * 4096 + x * 256 + y * 16 + z) as u32),
            _ => None,
        }
    } else {
        None
    }
}

/// The byte a one-letter escape stands for.
pub open spec fn simple_escape(c: u8) -> Option<u8> {
    if c == 34 {
        Some(34u8)
    } else if c == 92 {
        Some(92u8)
    } else if c == 47 {
        Some(47u8)
    } else if c == 98 {
        Some(8u8)
    } else if c == 102 {
        Some(12u8)
    } else if c == 110 {
        Some(10u8)
    } else if c == 114 {
        Some(13u8)
    } else if c == 116 {
        Some(9u8)
    } else {
        None
    }
}

/// The UTF-8 bytes of the escape whose letter is at `i` (just after the
/// backslash) and the position after it. A `\u` escape of a leading surrogate
/// must be followed by a `\u` escape of a trailing one; a lone surrogate is
/// refused.
pub open spec fn escape_spec(b: Seq<u8>, i: int) -> Option<(Seq<u8>, int)> {
    if !(0 <= i < b.len()) {
        None
    } else if simple_escape(b[i]) is Some {
        Some((seq![simple_escape(b[i])->0], i + 1))
    } else if b[i] == 117 {
        match hex4(b, i + 1) {
            None => None,
            Some(n) => if 0xDC00 <= n <= 0xDFFF {
                None
            } else if n < 0xD800 || n > 0xDBFF {
                Some((encode_scalar(n), i + 5))
            } else if at(b, i + 5, 92) && at(b, i + 6, 117) {
                match hex4(b, i + 7) {
                    Some(n2) => if 0xDC00 <= n2 <= 0xDFFF {
                        Some(
                            (
                                encode_scalar(((n - 0xD800) * 1024 + (n2 - 0xDC00) + 0x10000) as u32),
                                i + 11,
                            ),
                        )
                    } else {
                        None
                    },
                    None => None,
                }
            } else {
                None
            },
        }
    } else {
        None
    }
}

/// The bytes of the string whose body starts at `i` (just after the opening
/// quote), with escapes undone, and the position after the closing quote.
/// Control bytes must be escaped.
pub open spec fn string_spec(b: Seq<u8>, i: int) -> Option<(Seq<u8>, int)>
    decreases b.len() - i,
{
    if !(0 <= i < b.len()) {
        None
    } else if b[i] == 34 {
        Some((seq![], i + 1))
    } else if b[i] == 92 {
        match escape_spec(b, i + 1) {
            None => None,
            Some((e, j)) => if j <= i {
                None
            } else {
                match string_spec(b, j) {
                    None => None,
                    Some((s, k)) => Some((e + s, k)),
                }
            },
        }
    } else if b[i] < 32 {
        None
    } else {
        match string_spec(b, i + 1) {
            None => None,
            Some((s, k)) => Some((seq![b[i]] + s, k)),
        }
    }
}

/// The position after an escape whose letter is at `i`, in a string whose
/// value is not kept (a `\u` escape needs only four hex digits).
pub open spec fn skip_escape(b: Seq<u8>, i: int) -> Option<int> {
    if !(0 <= i < b.len()) {
        None
    } else if simple_escape(b[i]) is Some {
        Some(i + 1)
    } else if b[i] == 117 && hex4(b, i + 1) is Some {
        Some(i + 5)
    } else {
        None
    }
}

/// The position after the closing quote of a string whose body starts at
/// `i` and whose value is not kept.
pub open spec fn skip_string(b: Seq<u8>, i: int) -> Option<int>
    decreases b.len() - i,
{
    if !(0 <= i < b.len()) {
        None
    } else if b[i] == 34 {
        Some(i + 1)
    } else if b[i] == 92 {
        match skip_escape(b, i + 1) {
            None => None,
            Some(j) => if j <= i {
                None
            } else {
                skip_string(b, j)
            },
        }
    } else if b[i] < 32 {
        None
    } else {
        skip_string(b, i + 1)
    }
}

/// The position after the number starting at `i`: an optional minus, `0` or
/// a digit run not starting with `0`, an optional fraction and an optional
/// exponent.
pub open spec fn skip_number(b: Seq<u8>, i: int) -> Option<int> {
    let d = if at(b, i, 45) {
        i + 1
    } else {
        i
    };
    if !digit_at(b, d) {
        None
    } else if b[d] == 48 && digit_at(b, d + 1) {
        None
    } else {
        let e1 = if b[d] == 48 {
            d + 1
        } else {
            digits_end(b, d)
        };
        if at(b, e1, 46) && !digit_at(b, e1 + 1) {
            None
        } else {
            let e2 = if at(b, e1, 46) {
                digits_end(b, e1 + 1)
            } else {
                e1
            };
            if at(b, e2, 101) || at(b, e2, 69) {
                let s = if at(b, e2 + 1, 43) || at(b, e2 + 1, 45) {
                    e2 + 2
                } else {
                    e2 + 1
                };
                if digit_at(b, s) {
                    Some(digits_end(b, s))
                } else {
                    None
                }
            } else {
                Some(e2)
            }
        }
    }
}

/// The position after the literal `word` if it stands at `i`.
pub open spec fn skip_literal(b: Seq<u8>, i: int, word: Seq<u8>) -> Option<int> {
    if 0 <= i && i + word.len() <= b.len() && b.subrange(i, i + word.len()) == word {
        Some(i + word.len())
    } else {
        None
    }
}

/// `null`
pub open spec fn null_word() -> Seq<u8> {
    seq![110u8, 117, 108, 108]
}

/// `true`
pub open spec fn true_word() -> Seq<u8> {
    seq![116u8, 114, 117, 101]
}

/// `false`
pub open spec fn false_word() -> Seq<u8> {
    seq![102u8, 97, 108, 115, 101]
}

/// The position after the JSON value starting at `i`, whose value is not
/// kept.
pub open spec fn skip_value(b: Seq<u8>, i: int) -> Option<int>
    decreases b.len() - i, 0int,
{
    if !(0 <= i < b.len()) {
        None
    } else if b[i] == 110 {
        skip_literal(b, i, null_word())
    } else if b[i] == 116 {
        skip_literal(b, i, true_word())
    } else if b[i] == 102 {
        skip_literal(b, i, false_word())
    } else if b[i] == 34 {
        skip_string(b, i + 1)
    } else if b[i] == 45 || is_digit(b[i]) {
        skip_number(b, i)
    } else if b[i] == 91 {
        let j = skip_ws(b, i + 1);
        if j <= i || j >= b.len() {
            None
        } else if at(b, j, 93) {
            Some(j + 1)
        } else {
            skip_items(b, j)
        }
    } else if b[i] == 123 {
        let j = skip_ws(b, i + 1);
        if j <= i || j >= b.len() {
            None
        } else if at(b, j, 125) {
            Some(j + 1)
        } else {
            skip_members(b, j)
        }
    } else {
        None
    }
}

/// The position after the closing bracket of an array whose next element
/// starts at `j`.
pub open spec fn skip_items(b: Seq<u8>, j: int) -> Option<int>
    decreases b.len() - j, 1int,
{
    if !(0 <= j < b.len()) {
        None
    } else {
    match skip_value(b, j) {
        None => None,
        Some(v) => {
            let n = skip_ws(b, v);
            if at(b, n, 44) {
                let next = skip_ws(b, n + 1);
                if next <= j || next >= b.len() {
                    None
                } else {
                    skip_items(b, next)
                }
            } else if at(b, n, 93) {
                Some(n + 1)
            } else {
                None
            }
        },
    }
}
}

/// The position after the closing brace of an object whose next member
/// starts at `j`.
pub open spec fn skip_members(b: Seq<u8>, j: int) -> Option<int>
    decreases b.len() - j, 1int,
{
    if !at(b, j, 34) {
        None
    } else {
        match skip_string(b, j + 1) {
            None => None,
            Some(k) => {
                let m = skip_ws(b, k);
                let v0 = skip_ws(b, m + 1);
                if !at(b, m, 58) || v0 <= j || v0 >= b.len() {
                    None
                } else {
                    match skip_value(b, v0) {
                        None => None,
                        Some(v) => {
                            let n = skip_ws(b, v);
                            if at(b, n, 44) {
                                let next = skip_ws(b, n + 1);
                                if next <= j || next >= b.len() {
                                    None
                                } else {
                                    skip_members(b, next)
                                }
                            } else if at(b, n, 125) {
                                Some(n + 1)
                            } else {
                                None
                            }
                        },
                    }
                }
            },
        }
    }
}

/// The UTF-8 string value starting at `i` (at its opening quote) and the
/// position after it.
pub open spec fn string_value(b: Seq<u8>, i: int) -> Option<(Seq<u8>, int)> {
    if at(b, i, 34) {
        match string_spec(b, i + 1) {
            Some((s, e)) => if valid_utf8(s) {
                Some((s, e))
            } else {
                None
            },
            None => None,
        }
    } else {
        None
    }
}

/// The `i64` value starting at `i` and the position after it: an optional
/// minus and a digit run without a leading zero, not followed by a fraction
/// or an exponent, within the `i64` range, and not `-0`.
pub open spec fn int_value(b: Seq<u8>, i: int) -> Option<(i64, int)> {
    let (v, k) = scan_int_spec(b.skip(i));
    let neg = at(b, i, 45);
    let d = if neg {
        i + 1
    } else {
        i
    };
    let e = i + k;
    if !(0 <= i <= b.len()) || e <= d || (b[d] == 48 && e > d + 1) || at(b, e, 46) || at(b, e, 101)
        || at(b, e, 69) || (neg && v == 0) || !(i64::MIN <= v <= i64::MAX) {
        None
    } else {
        Some((v as i64, e))
    }
}

/// The fields read so far: subject, issue time, expiry time, token id.
pub type Fields = (Option<Seq<u8>>, Option<i64>, Option<i64>, Option<Seq<u8>>);

/// `sub`
pub open spec fn sub_key() -> Seq<u8> {
    seq![115u8, 117, 98]
}

/// `iat`
pub open spec fn iat_key() -> Seq<u8> {
    seq![105u8, 97, 116]
}

/// `exp`
pub open spec fn exp_key() -> Seq<u8> {
    seq![101u8, 120, 112]
}

/// `jti`
pub open spec fn jti_key() -> Seq<u8> {
    seq![106u8, 116, 105]
}

/// The fields after reading the value of the member with key `key` that
/// starts at `v0`, and the position after the value; `None` for a field read
/// twice or a value of the wrong kind.
pub open spec fn member_value(b: Seq<u8>, key: Seq<u8>, v0: int, f: Fields) -> Option<(Fields, int)> {
    if key == sub_key() {
        if f.0 is Some {
            None
        } else {
            match string_value(b, v0) {
                Some((s, e)) => Some(((Some(s), f.1, f.2, f.3), e)),
                None => None,
            }
        }
    } else if key == iat_key() {
        if f.1 is Some {
            None
        } else {
            match int_value(b, v0) {
                Some((x, e)) => Some(((f.0, Some(x), f.2, f.3), e)),
                None => None,
            }
        }
    } else if key == exp_key() {
        if f.2 is Some {
            None
        } else {
            match int_value(b, v0) {
                Some((x, e)) => Some(((f.0, f.1, Some(x), f.3), e)),
                None => None,
            }
        }
    } else if key == jti_key() {
        if f.3 is Some {
            None
        } else {
            match string_value(b, v0) {
                Some((s, e)) => Some(((f.0, f.1, f.2, Some(s)), e)),
                None => None,
            }
        }
    } else {
        match skip_value(b, v0) {
            Some(e) => Some((f, e)),
            None => None,
        }
    }
}

/// The fields after reading the members of the claims object from the one
/// starting at `j` to the closing brace, and the position after the brace.
pub open spec fn claim_members(b: Seq<u8>, j: int, f: Fields) -> Option<(Fields, int)>
    decreases b.len() - j,
{
    match string_value(b, j) {
        None => None,
        Some((key, k)) => {
            let m = skip_ws(b, k);
            if !at(b, m, 58) {
                None
            } else {
                match member_value(b, key, skip_ws(b, m + 1), f) {
                    None => None,
                    Some((f2, e)) => {
                        let n = skip_ws(b, e);
                        if at(b, n, 44) {
                            let next = skip_ws(b, n + 1);
                            if next <= j || next >= b.len() {
                                None
                            } else {
                                claim_members(b, next, f2)
                            }
                        } else if at(b, n, 125) {
                            Some((f2, n + 1))
                        } else {
                            None
                        }
                    },
                }
            }
        },
    }
}

/// No field read yet.
pub open spec fn no_fields() -> Fields {
    (None, None, None, None)
}

/// The claims of an object whose first member (or closing brace) starts at
/// `j`, when all four fields are there, and the position after the brace.
pub open spec fn claims_object(b: Seq<u8>, j: int) -> Option<((Seq<u8>, i64, i64, Seq<u8>), int)> {
    let m = if at(b, j, 125) {
        Some((no_fields(), j + 1))
    } else {
        claim_members(b, j, no_fields())
    };
    match m {
        Some(((Some(s), Some(a), Some(x), Some(t)), e)) => Some(((s, a, x, t), e)),
        _ => None,
    }
}

/// The claims of an array of the four values whose first element starts at
/// `j`, and the position after the closing bracket.
pub open spec fn claims_array(b: Seq<u8>, j: int) -> Option<((Seq<u8>, i64, i64, Seq<u8>), int)> {
    match string_value(b, j) {
        None => None,
        Some((s, e0)) => {
            let c0 = skip_ws(b, e0);
            if !at(b, c0, 44) {
                None
            } else {
                match int_value(b, skip_ws(b, c0 + 1)) {
                    None => None,
                    Some((a, e1)) => {
                        let c1 = skip_ws(b, e1);
                        if !at(b, c1, 44) {
                            None
                        } else {
                            match int_value(b, skip_ws(b, c1 + 1)) {
                                None => None,
                                Some((x, e2)) => {
                                    let c2 = skip_ws(b, e2);
                                    if !at(b, c2, 44) {
                                        None
                                    } else {
                                        match string_value(b, skip_ws(b, c2 + 1)) {
                                            None => None,
                                            Some((t, e3)) => {
                                                let c3 = skip_ws(b, e3);
                                                if at(b, c3, 93) {
                                                    Some(((s, a, x, t), c3 + 1))
                                                } else {
                                                    None
                                                }
                                            },
                                        }
                                    }
                                },
                            }
                        }
                    },
                }
            }
        },
    }
}

/// The claims that the JSON text `b` holds, read as serde_json reads them.
pub closed spec fn parse_claims(b: Seq<u8>) -> Option<(Seq<u8>, i64, i64, Seq<u8>)> {
    let i = skip_ws(b, 0);
    let r = if at(b, i, 123) {
        claims_object(b, skip_ws(b, i + 1))
    } else if at(b, i, 91) {
        claims_array(b, skip_ws(b, i + 1))
    } else {
        None
    };
    match r {
        Some((c, e)) => if skip_ws(b, e) == b.len() {
            Some(c)
        } else {
            None
        },
        None => None,
    }
}

/// `skip_ws` and `digits_end` stay within `i..=b.len()`.
pub proof fn lemma_skip_bounds(b: Seq<u8>, i: int)
    requires
        0 <= i <= b.len(),
    ensures
        i <= skip_ws(b, i) <= b.len(),
        i <= digits_end(b, i) <= b.len(),
    decreases b.len() - i,
{
    if i < b.len() {
        lemma_skip_bounds(b, i + 1);
    }
}

/// The first position from `i` on that is not whitespace.
fn skip_ws_exec(b: &[u8], i: usize) -> (r: usize)
    requires
        i <= b@.len(),
    ensures
        r == skip_ws(b@, i as int),
        i <= r <= b@.len(),
{
    let mut j = i;
    while j < b.len() && (b[j] == 32 || b[j] == 9 || b[j] == 10 || b[j] == 13)
        invariant
            i <= j <= b@.len(),
            skip_ws(b@, j as int) == skip_ws(b@, i as int),
        decreases b@.len() - j,
    {
        j = j + 1;
    }
    j
}

/// The first position from `i` on that is not a digit.
fn digits_end_exec(b: &[u8], i: usize) -> (r: usize)
    requires
        i <= b@.len(),
    ensures
        r == digits_end(b@, i as int),
        i <= r <= b@.len(),
{
    let mut j = i;
    while j < b.len() && 48 <= b[j] && b[j] <= 57
        invariant
            i <= j <= b@.len(),
            digits_end(b@, j as int) == digits_end(b@, i as int),
        decreases b@.len() - j,
    {
        j = j + 1;
    }
    j
}

/// Whether `b` holds the byte `c` at `i`.
fn at_exec(b: &[u8], i: usize, c: u8) -> (r: bool)
    ensures
        r == at(b@, i as int, c),
        r ==> i < usize::MAX,
{
    i < b.len() && b[i] == c
}

/// Whether `b` holds a digit at `i`.
fn digit_at_exec(b: &[u8], i: usize) -> (r: bool)
    ensures
        r == digit_at(b@, i as int),
{
    i < b.len() && 48 <= b[i] && b[i] <= 57
}

/// The value of a hexadecimal digit.
fn hex_value_exec(c: u8) -> (r: Option<u32>)
    ensures
        r == hex_value(c),
{
    if 48 <= c && c <= 57 {
        Some((c - 48) as u32)
    } else if 97 <= c && c <= 102 {
        Some((c - 87) as u32)
    } else if 65 <= c && c <= 70 {
        Some((c - 55) as u32)
    } else {
        None
    }
}

/// The value of the four hexadecimal digits at `i`.
fn hex4_exec(b: &[u8], i: usize) -> (r: Option<u32>)
    ensures
        r == hex4(b@, i as int),
{
    if i > b.len() || b.len() - i < 4 {
        return None;
    }
    match (hex_value_exec(b[i]), hex_value_exec(b[i + 1]), hex_value_exec(b[i + 2]), hex_value_exec(b[i + 3])) {
        (Some(w), Some(x), Some(y), Some(z)) => Some(w * 4096 + x * 256 + y * 16 + z),
        _ => None,
    }
}

/// The byte a one-letter escape stands for.
fn simple_escape_exec(c: u8) -> (r: Option<u8>)
    ensures
        r == simple_escape(c),
{
    if c == 34 {
        Some(34u8)
    } else if c == 92 {
        Some(92u8)
    } else if c == 47 {
        Some(47u8)
    } else if c == 98 {
        Some(8u8)
    } else if c == 102 {
        Some(12u8)
    } else if c == 110 {
        Some(10u8)
    } else if c == 114 {
        Some(13u8)
    } else if c == 116 {
        Some(9u8)
    } else {
        None
    }
}

/// Appends the UTF-8 encoding of `v` (as `encode_scalar` gives it).
fn push_scalar(out: &mut Vec<u8>, v: u32)
    ensures
        final(out)@ == old(out)@ + encode_scalar(v),
{
    if v <= 0x7F {
        out.push((v & 0x7F) as u8);
    } else if 0x80 <= v && v <= 0x7FF {
        out.push(0xC0 | ((v >> 6) & 0x1F) as u8);
        out.push(0x80 | (v & 0x3F) as u8);
    } else if 0x800 <= v && v <= 0xFFFF && !(0xD800 <= v && v <= 0xDFFF) {
        out.push(0xE0 | ((v >> 12) & 0x0F) as u8);
        out.push(0x80 | ((v >> 6) & 0x3F) as u8);
        out.push(0x80 | (v & 0x3F) as u8);
    } else {
        out.push(0xF0 | ((v >> 18) & 0x7) as u8);
        out.push(0x80 | ((v >> 12) & 0x3F) as u8);
        out.push(0x80 | ((v >> 6) & 0x3F) as u8);
        out.push(0x80 | (v & 0x3F) as u8);
    }
}

/// Appends the bytes of the escape whose letter is at `i` to `out` and
/// returns the position after it (see `escape_spec`).
fn escape_exec(b: &[u8], i: usize, out: &mut Vec<u8>) -> (r: Option<usize>)
    ensures
        match escape_spec(b@, i as int) {
            Some((e, j)) => r == Some(j as usize) && final(out)@ == old(out)@ + e,
            None => r is None,
        },
{
    if i >= b.len() {
        return None;
    }
    match simple_escape_exec(b[i]) {
        Some(c) => {
            out.push(c);
            return Some(i + 1);
        },
        None => {},
    }
    if b[i] != 117 {
        return None;
    }
    let n = match hex4_exec(b, i + 1) {
        Some(n) => n,
        None => {
            return None;
        },
    };
    if 0xDC00 <= n && n <= 0xDFFF {
        return None;
    }
    if n < 0xD800 || n > 0xDBFF {
        push_scalar(out, n);
        return Some(i + 5);
    }
    if !(at_exec(b, i + 5, 92) && at_exec(b, i + 6, 117)) {
        return None;
    }
    match hex4_exec(b, i + 7) {
        Some(n2) => {
            if 0xDC00 <= n2 && n2 <= 0xDFFF {
                push_scalar(out, (n - 0xD800) * 1024 + (n2 - 0xDC00) + 0x10000);
                Some(i + 11)
            } else {
                None
            }
        },
        None => None,
    }
}

/// A scanned string with `p` in front of its bytes.
pub open spec fn prefixed(r: Option<(Seq<u8>, int)>, p: Seq<u8>) -> Option<(Seq<u8>, int)> {
    match r {
        Some((s, k)) => Some((p + s, k)),
        None => None,
    }
}

/// The bytes of the string whose body starts at `i`, and the position after
/// the closing quote (see `string_spec`).
fn string_exec(b: &[u8], i: usize) -> (r: Option<(Vec<u8>, usize)>)
    requires
        i <= b@.len(),
    ensures
        match r {
            Some((v, e)) => string_spec(b@, i as int) == Some((v@, e as int)),
            None => string_spec(b@, i as int) is None,
        },
{
    let mut out: Vec<u8> = Vec::new();
    let mut j = i;
    assert(prefixed(string_spec(b@, j as int), out@) == string_spec(b@, i as int)) by {
        match string_spec(b@, j as int) {
            Some((s, k)) => {
                assert(out@ + s =~= s);
            },
            None => {},
        }
    }
    loop
        invariant
            i <= j <= b@.len(),
            prefixed(string_spec(b@, j as int), out@) == string_spec(b@, i as int),
        decreases b@.len() - j,
    {
        if j >= b.len() {
            return None;
        }
        let c = b[j];
        if c == 34 {
            assert(out@ + seq![] =~= out@);
            return Some((out, j + 1));
        } else if c == 92 {
            let ghost before = out@;
            match escape_exec(b, j + 1, &mut out) {
                None => {
                    return None;
                },
                Some(k) => {
                    proof {
                        let e = escape_spec(b@, j + 1)->Some_0.0;
                        assert(out@ == before + e);
                        match string_spec(b@, k as int) {
                            Some((s, m)) => {
                                assert(before + (e + s) =~= out@ + s);
                            },
                            None => {},
                        }
                    }
                    j = k;
                },
            }
        } else if c < 32 {
            return None;
        } else {
            let ghost before = out@;
            out.push(c);
            proof {
                match string_spec(b@, j + 1) {
                    Some((s, m)) => {
                        assert(before + (seq![c] + s) =~= out@ + s);
                    },
                    None => {},
                }
            }
            j = j + 1;
        }
    }
}

/// The position after an escape whose value is not kept (see `skip_escape`).
fn skip_escape_exec(b: &[u8], i: usize) -> (r: Option<usize>)
    ensures
        match r {
            Some(j) => skip_escape(b@, i as int) == Some(j as int) && j <= b@.len(),
            None => skip_escape(b@, i as int) is None,
        },
{
    if i >= b.len() {
        return None;
    }
    if simple_escape_exec(b[i]).is_some() {
        return Some(i + 1);
    }
    if b[i] == 117 && hex4_exec(b, i + 1).is_some() {
        Some(i + 5)
    } else {
        None
    }
}

/// The position after a string whose value is not kept (see `skip_string`).
fn skip_string_exec(b: &[u8], i: usize) -> (r: Option<usize>)
    requires
        i <= b@.len(),
    ensures
        match r {
            Some(j) => skip_string(b@, i as int) == Some(j as int) && j <= b@.len(),
            None => skip_string(b@, i as int) is None,
        },
{
    let mut j = i;
    loop
        invariant
            i <= j <= b@.len(),
            skip_string(b@, j as int) == skip_string(b@, i as int),
        decreases b@.len() - j,
    {
        if j >= b.len() {
            return None;
        }
        let c = b[j];
        if c == 34 {
            return Some(j + 1);
        } else if c == 92 {
            match skip_escape_exec(b, j + 1) {
                None => {
                    return None;
                },
                Some(k) => {
                    j = k;
                },
            }
        } else if c < 32 {
            return None;
        } else {
            j = j + 1;
        }
    }
}

/// The position after a number (see `skip_number`).
fn skip_number_exec(b: &[u8], i: usize) -> (r: Option<usize>)
    requires
        i <= b@.len(),
    ensures
        match r {
            Some(j) => skip_number(b@, i as int) == Some(j as int) && j <= b@.len(),
            None => skip_number(b@, i as int) is None,
        },
{
    let d = if i < b.len() && b[i] == 45 {
        i + 1
    } else {
        i
    };
    if !digit_at_exec(b, d) {
        return None;
    }
    if b[d] == 48 && digit_at_exec(b, d + 1) {
        return None;
    }
    let e1 = if b[d] == 48 {
        d + 1
    } else {
        digits_end_exec(b, d)
    };
    if at_exec(b, e1, 46) && !digit_at_exec(b, e1 + 1) {
        return None;
    }
    let e2 = if at_exec(b, e1, 46) {
        digits_end_exec(b, e1 + 1)
    } else {
        e1
    };
    if at_exec(b, e2, 101) || at_exec(b, e2, 69) {
        let s = if at_exec(b, e2 + 1, 43) || at_exec(b, e2 + 1, 45) {
            e2 + 2
        } else {
            e2 + 1
        };
        if digit_at_exec(b, s) {
            Some(digits_end_exec(b, s))
        } else {
            None
        }
    } else {
        Some(e2)
    }
}

/// The position after the literal `word` if it stands at `i`.
fn skip_literal_exec(b: &[u8], i: usize, word: &[u8]) -> (r: Option<usize>)
    requires
        i <= b@.len(),
    ensures
        match r {
            Some(j) => skip_literal(b@, i as int, word@) == Some(j as int) && j <= b@.len(),
            None => skip_literal(b@, i as int, word@) is None,
        },
{
    if b.len() - i < word.len() {
        return None;
    }
    let n = b.len();
    let mut k: usize = 0;
    while k < word.len()
        invariant
            n == b@.len(),
            i <= b@.len(),
            i + word@.len() <= b@.len(),
            k <= word@.len(),
            forall|t: int| 0 <= t < k ==> b@[i + t] == word@[t],
        decreases word@.len() - k,
    {
        assert(i + k < n);
        if b[i + k] != word[k] {
            assert(b@.subrange(i as int, i + word@.len())[k as int] != word@[k as int]);
            return None;
        }
        k = k + 1;
    }
    assert(b@.subrange(i as int, i + word@.len()) =~= word@);
    Some(i + word.len())
}

/// The position after a JSON value whose value is not kept (see
/// `skip_value`).
fn skip_value_exec(b: &[u8], i: usize) -> (r: Option<usize>)
    requires
        i <= b@.len(),
    ensures
        match r {
            Some(j) => skip_value(b@, i as int) == Some(j as int) && j <= b@.len(),
            None => skip_value(b@, i as int) is None,
        },
    decreases b@.len() - i, 0int,
{
    if i >= b.len() {
        return None;
    }
    let c = b[i];
    if c == 110 {
        let w: Vec<u8> = vec![110u8, 117, 108, 108];
        assert(w@ =~= null_word());
        skip_literal_exec(b, i, w.as_slice())
    } else if c == 116 {
        let w: Vec<u8> = vec![116u8, 114, 117, 101];
        assert(w@ =~= true_word());
        skip_literal_exec(b, i, w.as_slice())
    } else if c == 102 {
        let w: Vec<u8> = vec![102u8, 97, 108, 115, 101];
        assert(w@ =~= false_word());
        skip_literal_exec(b, i, w.as_slice())
    } else if c == 34 {
        skip_string_exec(b, i + 1)
    } else if c == 45 || (48 <= c && c <= 57) {
        skip_number_exec(b, i)
    } else if c == 91 {
        let j = skip_ws_exec(b, i + 1);
        if j <= i || j >= b.len() {
            None
        } else if b[j] == 93 {
            Some(j + 1)
        } else {
            skip_items_exec(b, j)
        }
    } else if c == 123 {
        let j = skip_ws_exec(b, i + 1);
        if j <= i || j >= b.len() {
            None
        } else if b[j] == 125 {
            Some(j + 1)
        } else {
            skip_members_exec(b, j)
        }
    } else {
        None
    }
}

/// The position after the closing bracket of an array whose next element
/// starts at `j0` (see `skip_items`).
fn skip_items_exec(b: &[u8], j0: usize) -> (r: Option<usize>)
    requires
        j0 <= b@.len(),
    ensures
        match r {
            Some(e) => skip_items(b@, j0 as int) == Some(e as int) && e <= b@.len(),
            None => skip_items(b@, j0 as int) is None,
        },
    decreases b@.len() - j0, 1int,
{
    let mut j = j0;
    loop
        invariant
            j0 <= j <= b@.len(),
            skip_items(b@, j as int) == skip_items(b@, j0 as int),
        decreases b@.len() - j,
    {
        if j >= b.len() {
            return None;
        }
        let v = match skip_value_exec(b, j) {
            Some(v) => v,
            None => {
                return None;
            },
        };
        let n = skip_ws_exec(b, v);
        if at_exec(b, n, 44) {
            let next = skip_ws_exec(b, n + 1);
            if next <= j || next >= b.len() {
                return None;
            }
            j = next;
        } else if at_exec(b, n, 93) {
            return Some(n + 1);
        } else {
            return None;
        }
    }
}

/// The position after the closing brace of an object whose next member
/// starts at `j0` (see `skip_members`).
fn skip_members_exec(b: &[u8], j0: usize) -> (r: Option<usize>)
    requires
        j0 <= b@.len(),
    ensures
        match r {
            Some(e) => skip_members(b@, j0 as int) == Some(e as int) && e <= b@.len(),
            None => skip_members(b@, j0 as int) is None,
        },
    decreases b@.len() - j0, 1int,
{
    let mut j = j0;
    loop
        invariant
            j0 <= j <= b@.len(),
            skip_members(b@, j as int) == skip_members(b@, j0 as int),
        decreases b@.len() - j,
    {
        if !at_exec(b, j, 34) {
            return None;
        }
        let k = match skip_string_exec(b, j + 1) {
            Some(k) => k,
            None => {
                return None;
            },
        };
        let m = skip_ws_exec(b, k);
        if !at_exec(b, m, 58) {
            return None;
        }
        let v0 = skip_ws_exec(b, m + 1);
        if v0 <= j || v0 >= b.len() {
            return None;
        }
        let v = match skip_value_exec(b, v0) {
            Some(v) => v,
            None => {
                return None;
            },
        };
        let n = skip_ws_exec(b, v);
        if at_exec(b, n, 44) {
            let next = skip_ws_exec(b, n + 1);
            if next <= j || next >= b.len() {
                return None;
            }
            j = next;
        } else if at_exec(b, n, 125) {
            return Some(n + 1);
        } else {
            return None;
        }
    }
}

/// The UTF-8 string value starting at `i` (see `string_value`).
fn string_value_exec(b: &[u8], i: usize) -> (r: Option<(Vec<u8>, usize)>)
    requires
        i <= b@.len(),
    ensures
        match r {
            Some((v, e)) => string_value(b@, i as int) == Some((v@, e as int)) && e <= b@.len(),
            None => string_value(b@, i as int) is None,
        },
{
    if !at_exec(b, i, 34) {
        return None;
    }
    match string_exec(b, i + 1) {
        Some((v, e)) => {
            proof {
                lemma_string_end(b@, i + 1);
            }
            let copy = crate::bytes::bytes_to_vec(v.as_slice());
            match string_from_utf8(copy) {
                Some(_) => Some((v, e)),
                None => None,
            }
        },
        None => None,
    }
}

/// `string_spec` ends within the text.
pub proof fn lemma_string_end(b: Seq<u8>, i: int)
    ensures
        string_spec(b, i) matches Some((s, e)) ==> i < e <= b.len(),
    decreases b.len() - i,
{
    if 0 <= i < b.len() && b[i] != 34 {
        if b[i] == 92 {
            match escape_spec(b, i + 1) {
                Some((e, j)) => {
                    if j > i {
                        lemma_string_end(b, j);
                    }
                },
                None => {},
            }
        } else if b[i] >= 32 {
            lemma_string_end(b, i + 1);
        }
    }
}

/// The `i64` value starting at `i` (see `int_value`).
fn int_value_exec(b: &[u8], i: usize) -> (r: Option<(i64, usize)>)
    requires
        i <= b@.len(),
    ensures
        match r {
            Some((x, e)) => int_value(b@, i as int) == Some((x, e as int)) && e <= b@.len(),
            None => int_value(b@, i as int) is None,
        },
{
    let neg = at_exec(b, i, 45);
    let d = if neg {
        i + 1
    } else {
        i
    };
    let (v, e) = match scan_int(b, i) {
        Some(x) => x,
        None => {
            return None;
        },
    };
    if e <= d || (b[d] == 48 && e > d + 1) || at_exec(b, e, 46) || at_exec(b, e, 101) || at_exec(b, e, 69)
        || (neg && v == 0) {
        return None;
    }
    Some((v, e))
}

/// The fields read so far, as plain values.
pub open spec fn fields_view(f: (Option<Vec<u8>>, Option<i64>, Option<i64>, Option<Vec<u8>>)) -> Fields {
    (
        match f.0 {
            Some(v) => Some(v@),
            None => None,
        },
        f.1,
        f.2,
        match f.3 {
            Some(v) => Some(v@),
            None => None,
        },
    )
}

/// Reads the value of the member with key `key` starting at `v0` (see
/// `member_value`).
fn member_value_exec(
    b: &[u8],
    key: &[u8],
    v0: usize,
    f: (Option<Vec<u8>>, Option<i64>, Option<i64>, Option<Vec<u8>>),
) -> (r: Option<((Option<Vec<u8>>, Option<i64>, Option<i64>, Option<Vec<u8>>), usize)>)
    requires
        v0 <= b@.len(),
    ensures
        match r {
            Some((g, e)) => member_value(b@, key@, v0 as int, fields_view(f)) == Some((fields_view(g), e as int))
                && e <= b@.len(),
            None => member_value(b@, key@, v0 as int, fields_view(f)) is None,
        },
{
    let sub: Vec<u8> = vec![115u8, 117, 98];
    let iat: Vec<u8> = vec![105u8, 97, 116];
    let exp: Vec<u8> = vec![101u8, 120, 112];
    let jti: Vec<u8> = vec![106u8, 116, 105];
    assert(sub@ =~= sub_key() && iat@ =~= iat_key() && exp@ =~= exp_key() && jti@ =~= jti_key());
    let (f0, f1, f2, f3) = f;
    if bytes_equal(key, sub.as_slice()) {
        if f0.is_some() {
            return None;
        }
        match string_value_exec(b, v0) {
            Some((s, e)) => Some(((Some(s), f1, f2, f3), e)),
            None => None,
        }
    } else if bytes_equal(key, iat.as_slice()) {
        if f1.is_some() {
            return None;
        }
        match int_value_exec(b, v0) {
            Some((x, e)) => Some(((f0, Some(x), f2, f3), e)),
            None => None,
        }
    } else if bytes_equal(key, exp.as_slice()) {
        if f2.is_some() {
            return None;
        }
        match int_value_exec(b, v0) {
            Some((x, e)) => Some(((f0, f1, Some(x), f3), e)),
            None => None,
        }
    } else if bytes_equal(key, jti.as_slice()) {
        if f3.is_some() {
            return None;
        }
        match string_value_exec(b, v0) {
            Some((s, e)) => Some(((f0, f1, f2, Some(s)), e)),
            None => None,
        }
    } else {
        match skip_value_exec(b, v0) {
            Some(e) => Some(((f0, f1, f2, f3), e)),
            None => None,
        }
    }
}

/// Reads the members of the claims object from `j0` to the closing brace
/// (see `claim_members`).
fn claim_members_exec(
    b: &[u8],
    j0: usize,
    f0: (Option<Vec<u8>>, Option<i64>, Option<i64>, Option<Vec<u8>>),
) -> (r: Option<((Option<Vec<u8>>, Option<i64>, Option<i64>, Option<Vec<u8>>), usize)>)
    requires
        j0 <= b@.len(),
    ensures
        match r {
            Some((g, e)) => claim_members(b@, j0 as int, fields_view(f0)) == Some((fields_view(g), e as int))
                && e <= b@.len(),
            None => claim_members(b@, j0 as int, fields_view(f0)) is None,
        },
{
    let mut j = j0;
    let mut f = f0;
    loop
        invariant
            j0 <= j <= b@.len(),
            claim_members(b@, j as int, fields_view(f)) == claim_members(b@, j0 as int, fields_view(f0)),
        decreases b@.len() - j,
    {
        let (key, k) = match string_value_exec(b, j) {
            Some(x) => x,
            None => {
                return None;
            },
        };
        let m = skip_ws_exec(b, k);
        if !at_exec(b, m, 58) {
            return None;
        }
        let v0 = skip_ws_exec(b, m + 1);
        let (g, e) = match member_value_exec(b, key.as_slice(), v0, f) {
            Some(x) => x,
            None => {
                return None;
            },
        };
        let n = skip_ws_exec(b, e);
        if at_exec(b, n, 44) {
            let next = skip_ws_exec(b, n + 1);
            if next <= j || next >= b.len() {
                return None;
            }
            j = next;
            f = g;
        } else if at_exec(b, n, 125) {
            return Some((g, n + 1));
        } else {
            return None;
        }
    }
}

/// The claims of an object whose first member or closing brace is at `j`
/// (see `claims_object`).
fn claims_object_exec(b: &[u8], j: usize) -> (r: Option<((Vec<u8>, i64, i64, Vec<u8>), usize)>)
    requires
        j <= b@.len(),
    ensures
        match r {
            Some((c, e)) => claims_object(b@, j as int) == Some(((c.0@, c.1, c.2, c.3@), e as int))
                && e <= b@.len(),
            None => claims_object(b@, j as int) is None,
        },
{
    if at_exec(b, j, 125) {
        return None;
    }
    match claim_members_exec(b, j, (None, None, None, None)) {
        Some(((Some(s), Some(a), Some(x), Some(t)), e)) => Some(((s, a, x, t), e)),
        _ => None,
    }
}

/// The claims of an array of the four values whose first element is at `j`
/// (see `claims_array`).
fn claims_array_exec(b: &[u8], j: usize) -> (r: Option<((Vec<u8>, i64, i64, Vec<u8>), usize)>)
    requires
        j <= b@.len(),
    ensures
        match r {
            Some((c, e)) => claims_array(b@, j as int) == Some(((c.0@, c.1, c.2, c.3@), e as int))
                && e <= b@.len(),
            None => claims_array(b@, j as int) is None,
        },
{
    let (s, e0) = match string_value_exec(b, j) {
        Some(x) => x,
        None => {
            return None;
        },
    };
    let c0 = skip_ws_exec(b, e0);
    if !at_exec(b, c0, 44) {
        return None;
    }
    let p1 = skip_ws_exec(b, c0 + 1);
    let (a, e1) = match int_value_exec(b, p1) {
        Some(x) => x,
        None => {
            return None;
        },
    };
    let c1 = skip_ws_exec(b, e1);
    if !at_exec(b, c1, 44) {
        return None;
    }
    let p2 = skip_ws_exec(b, c1 + 1);
    let (x, e2) = match int_value_exec(b, p2) {
        Some(x) => x,
        None => {
            return None;
        },
    };
    let c2 = skip_ws_exec(b, e2);
    if !at_exec(b, c2, 44) {
        return None;
    }
    let p3 = skip_ws_exec(b, c2 + 1);
    let (t, e3) = match string_value_exec(b, p3) {
        Some(x) => x,
        None => {
            return None;
        },
    };
    let c3 = skip_ws_exec(b, e3);
    if at_exec(b, c3, 93) {
        Some(((s, a, x, t), c3 + 1))
    } else {
        None
    }
}

/// Reads claims from JSON text as serde_json reads them (see
/// `parse_claims`): subject, issue time, expiry time and token id.
pub fn parse_claims_exec(b: &[u8]) -> (r: Option<(Vec<u8>, i64, i64, Vec<u8>)>)
    ensures
        match r {
            Some(c) => parse_claims(b@) == Some((c.0@, c.1, c.2, c.3@)),
            None => parse_claims(b@) is None,
        },
{
    let i = skip_ws_exec(b, 0);
    let r = if at_exec(b, i, 123) {
        let j = skip_ws_exec(b, i + 1);
        claims_object_exec(b, j)
    } else if at_exec(b, i, 91) {
        let j = skip_ws_exec(b, i + 1);
        claims_array_exec(b, j)
    } else {
        None
    };
    match r {
        Some((c, e)) => if skip_ws_exec(b, e) == b.len() {
            Some(c)
        } else {
            None
        },
        None => None,
    }
}

/// The strings of claims read from JSON text are UTF-8.
pub proof fn lemma_parse_claims_utf8(b: Seq<u8>)
    ensures
        parse_claims(b) matches Some(c) ==> valid_utf8(c.0) && valid_utf8(c.3),
{
    let i = skip_ws(b, 0);
    if at(b, i, 123) {
        let j = skip_ws(b, i + 1);
        if !at(b, j, 125) {
            lemma_claim_members_utf8(b, j, no_fields());
        }
    }
}

/// Reading members keeps the strings read UTF-8.
proof fn lemma_claim_members_utf8(b: Seq<u8>, j: int, f: Fields)
    ensures
        (f.0 matches Some(s) ==> valid_utf8(s)) && (f.3 matches Some(t) ==> valid_utf8(t))
            ==> (claim_members(b, j, f) matches Some((g, e)) ==> (g.0 matches Some(s) ==> valid_utf8(s))
            && (g.3 matches Some(t) ==> valid_utf8(t))),
    decreases b.len() - j,
{
    match string_value(b, j) {
        None => {},
        Some((key, k)) => {
            let m = skip_ws(b, k);
            if at(b, m, 58) {
                match member_value(b, key, skip_ws(b, m + 1), f) {
                    None => {},
                    Some((f2, e)) => {
                        let n = skip_ws(b, e);
                        if at(b, n, 44) {
                            let next = skip_ws(b, n + 1);
                            if next > j && next < b.len() {
                                lemma_claim_members_utf8(b, next, f2);
                            }
                        }
                    },
                }
            }
        },
    }
}

/// Whether `b` holds the bytes `s` from position `p` on.
pub open spec fn has_at(b: Seq<u8>, p: int, s: Seq<u8>) -> bool {
    0 <= p && p + s.len() <= b.len() && b.subrange(p, p + s.len()) == s
}

/// The escaped text of a byte string followed by a quote reads back as the
/// byte string.
pub proof fn lemma_string_escaped(b: Seq<u8>, p: int, x: Seq<u8>)
    requires
        has_at(b, p, escape_json(x) + seq![34u8]),
    ensures
        string_spec(b, p) == Some((x, p + escape_json(x).len() + 1)),
    decreases x.len(),
{
    let whole = escape_json(x) + seq![34u8];
    assert forall|t: int| 0 <= t < whole.len() implies b[p + t] == whole[t] by {
        assert(b.subrange(p, p + whole.len())[t] == b[p + t]);
    }
    if x.len() == 0 {
        assert(escape_json(x) =~= seq![]);
        assert(b[p] == whole[0]);
    } else {
        let c = x[0];
        let e = escape_byte(c);
        let rest = x.drop_first();
        assert(escape_json(x) == e + escape_json(rest));
        let tail = escape_json(rest) + seq![34u8];
        assert(whole =~= e + tail);
        let q = p + e.len();
        assert(has_at(b, q, tail)) by {
            assert forall|t: int| 0 <= t < tail.len() implies b.subrange(q, q + tail.len())[t] == tail[t] by {
                assert(b[q + t] == whole[e.len() + t]);
            }
            assert(b.subrange(q, q + tail.len()) =~= tail);
        }
        lemma_string_escaped(b, q, rest);
        assert(x =~= seq![c] + rest);
        assert forall|t: int| 0 <= t < e.len() implies b[p + t] == e[t] by {
            assert(b[p + t] == whole[t]);
            assert(whole[t] == e[t]);
        }
        assert(b[p] == e[0]);
        if c == 34 || c == 92 || c == 8 || c == 12 || c == 10 || c == 13 || c == 9 {
            assert(b[p + 1] == e[1]);
            assert(escape_spec(b, p + 1) == Some((seq![c], p + 2)));
        } else if c < 32 {
            assert(b[p + 1] == e[1] && b[p + 2] == e[2] && b[p + 3] == e[3] && b[p + 4] == e[4] && b[p + 5] == e[5]);
            assert(hex4(b, p + 2) == Some(c as u32));
            assert(encode_scalar(c as u32) == seq![c]) by {
                assert((c as u32) & 0x7F == c as u32) by (bit_vector)
                    requires
                        c < 32,
                ;
            }
            assert(escape_spec(b, p + 1) == Some((seq![c], p + 6)));
        } else {
            assert(e == seq![c]);
        }
    }
}

/// A decimal digit run has no leading zero unless it is `0`.
pub proof fn lemma_nat_digits_first(n: nat)
    ensures
        nat_digits(n).len() >= 1,
        n >= 1 ==> nat_digits(n)[0] != 48,
        n == 0 ==> nat_digits(n) == seq![48u8],
    decreases n,
{
    lemma_nat_digits_are_digits(n);
    if n >= 10 {
        lemma_nat_digits_first(n / 10);
        assert(nat_digits(n)[0] == nat_digits(n / 10)[0]);
    }
}

/// The decimal text of an `i64` followed by a byte that continues no number
/// reads back as the `i64`.
pub proof fn lemma_int_decimal(b: Seq<u8>, p: int, x: i64)
    requires
        has_at(b, p, decimal(x as int)),
        p + decimal(x as int).len() < b.len(),
        b[p + decimal(x as int).len()] == 44 || b[p + decimal(x as int).len()] == 125,
    ensures
        int_value(b, p) == Some((x, p + decimal(x as int).len())),
{
    let d = decimal(x as int);
    let e = p + d.len();
    assert(b.skip(p) =~= d + b.skip(e)) by {
        assert forall|t: int| 0 <= t < d.len() implies b.skip(p)[t] == d[t] by {
            assert(b.subrange(p, e)[t] == b[p + t]);
        }
    }
    assert(no_digit_first(b.skip(e)));
    lemma_scan_decimal(x as int, b.skip(e));
    let m: nat = if x < 0 { (-x) as nat } else { x as nat };
    lemma_nat_digits_first(m);
    assert(b[p] == d[0]) by {
        assert(b.subrange(p, e)[0] == b[p]);
    }
    if x < 0 {
        assert(b[p + 1] == d[1]) by {
            assert(b.subrange(p, e)[1] == b[p + 1]);
        }
        assert(d[1] == nat_digits(m)[0]);
    } else {
        assert(d[0] == nat_digits(m)[0]);
    }
}

/// `s + z` holds `s` at its start.
proof fn lemma_has_at_prefix(s: Seq<u8>, z: Seq<u8>)
    ensures
        has_at(s + z, 0, s),
{
    assert((s + z).subrange(0, s.len() as int) =~= s);
}

/// `x + (y + z)` holds `x + y` at its start.
proof fn lemma_has_at_prefix2(x: Seq<u8>, y: Seq<u8>, z: Seq<u8>)
    ensures
        has_at(x + (y + z), 0, x + y),
{
    assert((x + (y + z)).subrange(0, (x.len() + y.len()) as int) =~= x + y);
}

/// What `x` holds at `p`, `a + x` holds at `a.len() + p`.
proof fn lemma_has_at_shift(a: Seq<u8>, x: Seq<u8>, p: nat, s: Seq<u8>)
    requires
        has_at(x, p as int, s),
    ensures
        has_at(a + x, (a.len() + p) as int, s),
{
    assert((a + x).subrange((a.len() + p) as int, (a.len() + p + s.len()) as int) =~= x.subrange(
        p as int,
        (p + s.len()) as int,
    ));
}

/// Where the pieces of the claims text stand.
#[verifier::rlimit(100)]
proof fn lemma_claims_layout(c: (Seq<u8>, i64, i64, Seq<u8>))
    ensures
        ({
            let b = claims_json(c);
            let e0 = escape_json(c.0);
            let d1 = decimal(c.1 as int);
            let d2 = decimal(c.2 as int);
            let e3 = escape_json(c.3);
            let q: int = 9 + e0.len() as int;
            let q2: int = q + 7 + d1.len() as int;
            let q3: int = q2 + 7 + d2.len() as int;
            &&& b.len() == q3 + 10 + e3.len() as int
            &&& has_at(b, 0, claims_open())
            &&& has_at(b, 8, e0 + seq![34u8])
            &&& has_at(b, q, claims_iat_key())
            &&& has_at(b, q + 7, d1)
            &&& has_at(b, q2, claims_exp_key())
            &&& has_at(b, q2 + 7, d2)
            &&& has_at(b, q3, claims_jti_key())
            &&& has_at(b, q3 + 8, e3 + seq![34u8])
            &&& b[q3 + 9 + e3.len()] == 125
        }),
{
    let b = claims_json(c);
    let o = claims_open();
    let e0 = escape_json(c.0);
    let d1 = decimal(c.1 as int);
    let d2 = decimal(c.2 as int);
    let e3 = escape_json(c.3);
    let ik = claims_iat_key();
    let xk = claims_exp_key();
    let jk = claims_jti_key();
    let qt = seq![34u8];
    let cb = seq![125u8];
    let r9 = qt + cb;
    let r8 = e3 + r9;
    let r7 = jk + r8;
    let r6 = d2 + r7;
    let r5 = xk + r6;
    let r4 = d1 + r5;
    let r3 = ik + r4;
    let r2 = qt + r3;
    let r1 = e0 + r2;
    assert(b == o + r1);
    lemma_has_at_prefix(o, r1);
    lemma_has_at_prefix2(e0, qt, r3);
    lemma_has_at_shift(o, r1, 0, e0 + qt);
    lemma_has_at_prefix(ik, r4);
    lemma_has_at_shift(qt, r3, 0, ik);
    lemma_has_at_shift(e0, r2, qt.len(), ik);
    lemma_has_at_shift(o, r1, e0.len() + qt.len(), ik);
    lemma_has_at_prefix(d1, r5);
    lemma_has_at_shift(ik, r4, 0, d1);
    lemma_has_at_shift(qt, r3, ik.len(), d1);
    lemma_has_at_shift(e0, r2, qt.len() + ik.len(), d1);
    lemma_has_at_shift(o, r1, e0.len() + qt.len() + ik.len(), d1);
    lemma_has_at_prefix(xk, r6);
    lemma_has_at_shift(d1, r5, 0, xk);
    lemma_has_at_shift(ik, r4, d1.len(), xk);
    lemma_has_at_shift(qt, r3, ik.len() + d1.len(), xk);
    lemma_has_at_shift(e0, r2, qt.len() + ik.len() + d1.len(), xk);
    lemma_has_at_shift(o, r1, e0.len() + qt.len() + ik.len() + d1.len(), xk);
    lemma_has_at_prefix(d2, r7);
    lemma_has_at_shift(xk, r6, 0, d2);
    lemma_has_at_shift(d1, r5, xk.len(), d2);
    lemma_has_at_shift(ik, r4, d1.len() + xk.len(), d2);
    lemma_has_at_shift(qt, r3, ik.len() + d1.len() + xk.len(), d2);
    lemma_has_at_shift(e0, r2, qt.len() + ik.len() + d1.len() + xk.len(), d2);
    lemma_has_at_shift(o, r1, e0.len() + qt.len() + ik.len() + d1.len() + xk.len(), d2);
    lemma_has_at_prefix(jk, r8);
    lemma_has_at_shift(d2, r7, 0, jk);
    lemma_has_at_shift(xk, r6, d2.len(), jk);
    lemma_has_at_shift(d1, r5, xk.len() + d2.len(), jk);
    lemma_has_at_shift(ik, r4, d1.len() + xk.len() + d2.len(), jk);
    lemma_has_at_shift(qt, r3, ik.len() + d1.len() + xk.len() + d2.len(), jk);
    lemma_has_at_shift(e0, r2, qt.len() + ik.len() + d1.len() + xk.len() + d2.len(), jk);
    lemma_has_at_shift(o, r1, e0.len() + qt.len() + ik.len() + d1.len() + xk.len() + d2.len(), jk);
    lemma_has_at_prefix2(e3, qt, cb);
    lemma_has_at_shift(jk, r8, 0, e3 + qt);
    lemma_has_at_shift(d2, r7, jk.len(), e3 + qt);
    lemma_has_at_shift(xk, r6, d2.len() + jk.len(), e3 + qt);
    lemma_has_at_shift(d1, r5, xk.len() + d2.len() + jk.len(), e3 + qt);
    lemma_has_at_shift(ik, r4, d1.len() + xk.len() + d2.len() + jk.len(), e3 + qt);
    lemma_has_at_shift(qt, r3, ik.len() + d1.len() + xk.len() + d2.len() + jk.len(), e3 + qt);
    lemma_has_at_shift(e0, r2, qt.len() + ik.len() + d1.len() + xk.len() + d2.len() + jk.len(), e3 + qt);
    lemma_has_at_shift(o, r1, e0.len() + qt.len() + ik.len() + d1.len() + xk.len() + d2.len() + jk.len(), e3 + qt);
    let q3: int = 9 + e0.len() as int + 7 + d1.len() as int + 7 + d2.len() as int;
    assert(b[q3 + 9 + e3.len()] == 125) by {
        let k: int = (o.len() + e0.len() + qt.len() + ik.len() + d1.len() + xk.len() + d2.len() + jk.len() + e3.len() + qt.len()) as int;
        assert(b[k] == r1[k - o.len()]);
        assert(r1[k - o.len()] == r2[k - o.len() - e0.len()]);
        assert(r2[k - o.len() - e0.len()] == r3[k - o.len() - e0.len() - 1]);
        assert(r3[k - o.len() - e0.len() - 1] == r4[k - o.len() - e0.len() - 1 - 7]);
        assert(r4[k - o.len() - e0.len() - 8] == r5[k - o.len() - e0.len() - 8 - d1.len()]);
        assert(r5[k - o.len() - e0.len() - 8 - d1.len()] == r6[k - o.len() - e0.len() - 15 - d1.len()]);
        assert(r6[k - o.len() - e0.len() - 15 - d1.len()] == r7[k - o.len() - e0.len() - 15 - d1.len() - d2.len()]);
        assert(r7[k - o.len() - e0.len() - 15 - d1.len() - d2.len()] == r8[k - o.len() - e0.len() - 23 - d1.len() - d2.len()]);
        assert(r8[k - o.len() - e0.len() - 23 - d1.len() - d2.len()] == r9[k - o.len() - e0.len() - 23 - d1.len() - d2.len() - e3.len()]);
    }
}

/// The bytes of `has_at` one by one.
proof fn lemma_has_at_bytes(b: Seq<u8>, p: int, s: Seq<u8>)
    requires
        has_at(b, p, s),
    ensures
        forall|t: int| 0 <= t < s.len() ==> b[p + t] == #[trigger] s[t],
{
    assert forall|t: int| 0 <= t < s.len() implies b[p + t] == #[trigger] s[t] by {
        assert(b.subrange(p, p + s.len())[t] == b[p + t]);
    }
}

/// A key of three ASCII letters between quotes reads back as itself.
proof fn lemma_key_at(b: Seq<u8>, p: int, key: Seq<u8>)
    requires
        key.len() == 3,
        forall|t: int| 0 <= t < 3 ==> 97 <= #[trigger] key[t] <= 122,
        0 <= p,
        p + 5 <= b.len(),
        b[p] == 34,
        b[p + 1] == key[0],
        b[p + 2] == key[1],
        b[p + 3] == key[2],
        b[p + 4] == 34,
    ensures
        string_value(b, p) == Some((key, p + 5)),
{
    reveal_with_fuel(escape_json, 4);
    assert(escape_json(key) =~= key);
    assert(b.subrange(p + 1, p + 5) =~= escape_json(key) + seq![34u8]);
    lemma_string_escaped(b, p + 1, key);
    lemma_ascii_encode_utf8(key);
    encode_utf8_valid_utf8(ascii_chars(key));
}

/// One member of the claims object: its key at `j`, its value read from
/// `j + 6` (after `"key":`) up to `e`, and what follows.
proof fn lemma_member_step(b: Seq<u8>, j: int, key: Seq<u8>, f: Fields, g: Fields, e: int, rest: Option<(Fields, int)>)
    requires
        0 <= j,
        j + 6 <= b.len(),
        string_value(b, j) == Some((key, j + 5)),
        b[j + 5] == 58,
        !is_ws(b[j + 6]) || j + 6 == b.len(),
        member_value(b, key, j + 6, f) == Some((g, e)),
        j + 6 < e < b.len(),
        b[e] == 44 || b[e] == 125,
        b[e] == 44 ==> e + 1 < b.len() && b[e + 1] == 34 && claim_members(b, e + 1, g) == rest,
        b[e] == 125 ==> rest == Some((g, e + 1)),
    ensures
        claim_members(b, j, f) == rest,
{
}

/// The `sub` member's value.
proof fn lemma_sub_member(b: Seq<u8>, v0: int, x: Seq<u8>, e: int, f: Fields)
    requires
        string_value(b, v0) == Some((x, e)),
        f.0 is None,
    ensures
        member_value(b, sub_key(), v0, f) == Some(((Some(x), f.1, f.2, f.3), e)),
{
}

/// The `iat` member's value.
proof fn lemma_iat_member(b: Seq<u8>, v0: int, x: i64, e: int, f: Fields)
    requires
        int_value(b, v0) == Some((x, e)),
        f.1 is None,
    ensures
        member_value(b, iat_key(), v0, f) == Some(((f.0, Some(x), f.2, f.3), e)),
{
    assert(iat_key()[0] != sub_key()[0]);
}

/// The `exp` member's value.
proof fn lemma_exp_member(b: Seq<u8>, v0: int, x: i64, e: int, f: Fields)
    requires
        int_value(b, v0) == Some((x, e)),
        f.2 is None,
    ensures
        member_value(b, exp_key(), v0, f) == Some(((f.0, f.1, Some(x), f.3), e)),
{
    assert(exp_key()[0] != sub_key()[0]);
    assert(exp_key()[0] != iat_key()[0]);
}

/// The `jti` member's value.
proof fn lemma_jti_member(b: Seq<u8>, v0: int, x: Seq<u8>, e: int, f: Fields)
    requires
        string_value(b, v0) == Some((x, e)),
        f.3 is None,
    ensures
        member_value(b, jti_key(), v0, f) == Some(((f.0, f.1, f.2, Some(x)), e)),
{
    assert(jti_key()[0] != sub_key()[0]);
    assert(jti_key()[0] != iat_key()[0]);
    assert(jti_key()[0] != exp_key()[0]);
}

/// An escaped UTF-8 string between quotes is a string value.
proof fn lemma_string_value_escaped(b: Seq<u8>, p: int, x: Seq<u8>)
    requires
        0 <= p < b.len(),
        b[p] == 34,
        valid_utf8(x),
        has_at(b, p + 1, escape_json(x) + seq![34u8]),
    ensures
        string_value(b, p) == Some((x, p + 2 + escape_json(x).len())),
{
    lemma_string_escaped(b, p + 1, x);
}

/// The claims text laid out as `claims_json` lays it out reads back as the
/// claims.
#[verifier::rlimit(60)]
proof fn lemma_parse_layout(b: Seq<u8>, c: (Seq<u8>, i64, i64, Seq<u8>), q: int, q2: int, q3: int)
    requires
        valid_utf8(c.0),
        valid_utf8(c.3),
        q == 9 + escape_json(c.0).len(),
        q2 == q + 7 + decimal(c.1 as int).len(),
        q3 == q2 + 7 + decimal(c.2 as int).len(),
        b.len() == q3 + 10 + escape_json(c.3).len(),
        has_at(b, 0, claims_open()),
        has_at(b, 8, escape_json(c.0) + seq![34u8]),
        has_at(b, q, claims_iat_key()),
        has_at(b, q + 7, decimal(c.1 as int)),
        has_at(b, q2, claims_exp_key()),
        has_at(b, q2 + 7, decimal(c.2 as int)),
        has_at(b, q3, claims_jti_key()),
        has_at(b, q3 + 8, escape_json(c.3) + seq![34u8]),
        b[q3 + 9 + escape_json(c.3).len()] == 125,
    ensures
        parse_claims(b) == Some(c),
{
    let end: int = b.len() as int;
    lemma_has_at_bytes(b, 0, claims_open());
    lemma_has_at_bytes(b, q, claims_iat_key());
    lemma_has_at_bytes(b, q2, claims_exp_key());
    lemma_has_at_bytes(b, q3, claims_jti_key());
    let o = claims_open();
    let ik = claims_iat_key();
    let xk = claims_exp_key();
    let jk = claims_jti_key();
    assert(b[0] == o[0] && b[1] == o[1] && b[2] == o[2] && b[3] == o[3] && b[4] == o[4] && b[5] == o[5]
        && b[6] == o[6] && b[7] == o[7]);
    assert(b[q] == ik[0] && b[q + 1] == ik[1] && b[q + 2] == ik[2] && b[q + 3] == ik[3] && b[q + 4]
        == ik[4] && b[q + 5] == ik[5] && b[q + 6] == ik[6]);
    assert(b[q2] == xk[0] && b[q2 + 1] == xk[1] && b[q2 + 2] == xk[2] && b[q2 + 3] == xk[3] && b[q2 + 4]
        == xk[4] && b[q2 + 5] == xk[5] && b[q2 + 6] == xk[6]);
    assert(b[q3] == jk[0] && b[q3 + 1] == jk[1] && b[q3 + 2] == jk[2] && b[q3 + 3] == jk[3] && b[q3 + 4]
        == jk[4] && b[q3 + 5] == jk[5] && b[q3 + 6] == jk[6] && b[q3 + 7] == jk[7]);
    lemma_key_at(b, 1, sub_key());
    lemma_key_at(b, q + 1, iat_key());
    lemma_key_at(b, q2 + 1, exp_key());
    lemma_key_at(b, q3 + 1, jti_key());
    lemma_string_value_escaped(b, 7, c.0);
    lemma_string_value_escaped(b, q3 + 7, c.3);
    lemma_int_decimal(b, q + 7, c.1);
    lemma_int_decimal(b, q2 + 7, c.2);
    let f1 = (Some(c.0), None::<i64>, None::<i64>, None::<Seq<u8>>);
    let f2 = (Some(c.0), Some(c.1), None::<i64>, None::<Seq<u8>>);
    let f3 = (Some(c.0), Some(c.1), Some(c.2), None::<Seq<u8>>);
    let f4 = (Some(c.0), Some(c.1), Some(c.2), Some(c.3));
    lemma_jti_member(b, q3 + 7, c.3, end - 1, f3);
    lemma_member_step(b, q3 + 1, jti_key(), f3, f4, end - 1, Some((f4, end)));
    lemma_exp_member(b, q2 + 7, c.2, q3, f2);
    lemma_member_step(b, q2 + 1, exp_key(), f2, f3, q3, Some((f4, end)));
    lemma_iat_member(b, q + 7, c.1, q2, f1);
    lemma_member_step(b, q + 1, iat_key(), f1, f2, q2, Some((f4, end)));
    lemma_sub_member(b, 7, c.0, q, no_fields());
    lemma_member_step(b, 1, sub_key(), no_fields(), f1, q, Some((f4, end)));
}

/// Reading the JSON text that `claims_json` writes gives the claims back,
/// when their strings are UTF-8.
pub proof fn lemma_parse_claims_json(c: (Seq<u8>, i64, i64, Seq<u8>))
    requires
        valid_utf8(c.0),
        valid_utf8(c.3),
    ensures
        parse_claims(claims_json(c)) == Some(c),
{
    lemma_claims_layout(c);
    let q: int = 9 + escape_json(c.0).len() as int;
    let q2: int = q + 7 + decimal(c.1 as int).len() as int;
    let q3: int = q2 + 7 + decimal(c.2 as int).len() as int;
    lemma_parse_layout(claims_json(c), c, q, q2, q3);
}

} // verus!
