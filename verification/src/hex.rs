//! Lower-case hexadecimal encoding.
use vstd::prelude::*;

use crate::text::{ascii_chars, ascii_string, all_ascii};

verus! {

/// The ASCII code of the lower-case hex digit for `v` (`0 <= v < 16`).
pub open spec fn hex_digit(v: int) -> u8 {
    if v < 10 {
        (48 + v) as u8
    } else {
        (87 + v) as u8
    }
}

/// The ASCII bytes of the hex encoding of `b`: two digits per byte, high
/// nibble first.
pub open spec fn hex_bytes(b: Seq<u8>) -> Seq<u8> {
    Seq::new(
        2 * b.len(),
        |i: int|
            if i % 2 == 0 {
                hex_digit((b[i / 2] / 16) as int)
            } else {
                hex_digit((b[i / 2] % 16) as int)
            },
    )
}

/// The hex encoding of `b` as characters.
pub open spec fn hex_encoding(b: Seq<u8>) -> Seq<char> {
    ascii_chars(hex_bytes(b))
}

/// The lower-case hex digit for `v`.
fn hex_digit_exec(v: u8) -> (d: u8)
    requires
        v < 16,
    ensures
        d == hex_digit(v as int),
        d < 128,
{
    if v < 10 {
        48 + v
    } else {
        87 + v
    }
}

/// Encodes `bytes` as lower-case hexadecimal, two digits per byte.
pub fn encode(bytes: &[u8]) -> (s: String)
    ensures
        s@ == hex_encoding(bytes@),
        s@.len() == 2 * bytes@.len(),
{
    let n = bytes.len();
    let mut out: Vec<u8> = Vec::new();
    let mut i: usize = 0;
    while i < n
        invariant
            n == bytes@.len(),
            i <= n,
            out@.len() == 2 * i,
            forall|j: int| 0 <= j < 2 * i ==> out@[j] == #[trigger] hex_bytes(bytes@)[j],
        decreases n - i,
    {
        let b = bytes[i];
        out.push(hex_digit_exec(b / 16));
        out.push(hex_digit_exec(b % 16));
        proof {
            assert(hex_bytes(bytes@)[2 * i as int] == hex_digit((b / 16) as int));
            assert(hex_bytes(bytes@)[2 * i + 1] == hex_digit((b % 16) as int));
        }
        i = i + 1;
    }
    assert(out@ =~= hex_bytes(bytes@));
    assert(all_ascii(out@)) by {
        assert forall|j: int| 0 <= j < out@.len() implies out@[j] < 128 by {
            assert(out@[j] == hex_bytes(bytes@)[j]);
        }
    }
    ascii_string(out)
}

} // verus!
