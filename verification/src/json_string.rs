//! JSON string escaping as serde_json writes it.
//! Escaping works byte by byte: `"` and `\` get a backslash, the control
//! bytes 0x08, 0x09, 0x0A, 0x0C and 0x0D get their one-letter escapes, the
//! other bytes below 0x20 get `\u00XX` with lower-case hex digits, and every
//! other byte stands for itself.
use vstd::prelude::*;

use crate::hex::hex_digit;

verus! {

/// The escaped form of one byte inside a JSON string.
pub open spec fn escape_byte(c: u8) -> Seq<u8> {
    if c == 34 {
        seq![92u8, 34u8]
    } else if c == 92 {
        seq![92u8, 92u8]
    } else if c == 8 {
        seq![92u8, 98u8]
    } else if c == 12 {
        seq![92u8, 102u8]
    } else if c == 10 {
        seq![92u8, 110u8]
    } else if c == 13 {
        seq![92u8, 114u8]
    } else if c == 9 {
        seq![92u8, 116u8]
    } else if c < 32 {
        seq![92u8, 117u8, 48u8, 48u8, hex_digit((c / 16) as int), hex_digit((c % 16) as int)]
    } else {
        seq![c]
    }
}

/// The escaped form of a byte string inside a JSON string.
pub open spec fn escape_json(x: Seq<u8>) -> Seq<u8>
    decreases x.len(),
{
    if x.len() == 0 {
        seq![]
    } else {
        escape_byte(x[0]) + escape_json(x.drop_first())
    }
}

/// Appends the escaped form of `x` to `out`.
pub fn push_escaped(out: &mut Vec<u8>, x: &[u8])
    ensures
        final(out)@ == old(out)@ + escape_json(x@),
{
    let n = x.len();
    let ghost start = out@;
    let mut i: usize = 0;
    assert(x@.skip(0) =~= x@);
    while i < n
        invariant
            n == x@.len(),
            i <= n,
            out@ + escape_json(x@.skip(i as int)) == start + escape_json(x@),
        decreases n - i,
    {
        let c = x[i];
        let ghost before = out@;
        proof {
            assert(x@.skip(i as int)[0] == c);
            assert(x@.skip(i as int).drop_first() =~= x@.skip(i + 1));
        }
        if c == 34 {
            out.push(92);
            out.push(34);
        } else if c == 92 {
            out.push(92);
            out.push(92);
        } else if c == 8 {
            out.push(92);
            out.push(98);
        } else if c == 12 {
            out.push(92);
            out.push(102);
        } else if c == 10 {
            out.push(92);
            out.push(110);
        } else if c == 13 {
            out.push(92);
            out.push(114);
        } else if c == 9 {
            out.push(92);
            out.push(116);
        } else if c < 32 {
            out.push(92);
            out.push(117);
            out.push(48);
            out.push(48);
            out.push(if c / 16 < 10 { 48 + c / 16 } else { 87 + c / 16 });
            out.push(if c % 16 < 10 { 48 + c % 16 } else { 87 + c % 16 });
        } else {
            out.push(c);
        }
        proof {
            assert(out@ =~= before + escape_byte(c));
            assert(escape_json(x@.skip(i as int)) == escape_byte(c) + escape_json(x@.skip(i + 1)));
            assert(out@ + escape_json(x@.skip(i + 1)) =~= before + escape_json(x@.skip(i as int)));
        }
        i = i + 1;
    }
    assert(x@.skip(n as int) =~= seq![]);
    assert(escape_json(x@.skip(n as int)) =~= seq![]);
    assert(out@ =~= out@ + escape_json(x@.skip(n as int)));
}

} // verus!
