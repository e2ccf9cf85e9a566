//! Base64 as the base64 crate writes it: the URL-safe alphabet without
//! padding for tokens, the standard alphabet with padding for stored
//! ciphertexts.
use vstd::prelude::*;

use crate::primitives::opt_bytes;

verus! {

/// The ASCII code of the base64 symbol for `v` (`0 <= v < 64`).
pub open spec fn b64_symbol(v: int, url_safe: bool) -> u8 {
    if v < 26 {
        (65 + v) as u8
    } else if v < 52 {
        (71 + v) as u8
    } else if v < 62 {
        (v - 4) as u8
    } else if v == 62 {
        if url_safe {
            45u8
        } else {
            43u8
        }
    } else {
        if url_safe {
            95u8
        } else {
            47u8
        }
    }
}

/// The base64 text of `b` as ASCII bytes: four symbols for each three bytes;
/// a last group of one or two bytes gives two or three symbols, followed by
/// `=` up to four when `pad` is set.
pub open spec fn b64_encode(b: Seq<u8>, url_safe: bool, pad: bool) -> Seq<u8>
    decreases b.len(),
{
    if b.len() == 0 {
        seq![]
    } else if b.len() == 1 {
        seq![b64_symbol(b[0] as int / 4, url_safe), b64_symbol((b[0] as int % 4) * 16, url_safe)] + if pad {
            seq![61u8, 61u8]
        } else {
            seq![]
        }
    } else if b.len() == 2 {
        seq![
            b64_symbol(b[0] as int / 4, url_safe),
            b64_symbol((b[0] as int % 4) * 16 + b[1] as int / 16, url_safe),
            b64_symbol((b[1] as int % 16) * 4, url_safe),
        ] + if pad {
            seq![61u8]
        } else {
            seq![]
        }
    } else {
        seq![
            b64_symbol(b[0] as int / 4, url_safe),
            b64_symbol((b[0] as int % 4) * 16 + b[1] as int / 16, url_safe),
            b64_symbol((b[1] as int % 16) * 4 + b[2] as int / 64, url_safe),
            b64_symbol(b[2] as int % 64, url_safe),
        ] + b64_encode(b.skip(3), url_safe, pad)
    }
}

/// What the base64 crate decodes `text` to with the URL-safe alphabet, or
/// `None` when it reports an error.
pub uninterp spec fn b64_url_decoding(text: Seq<u8>) -> Option<Seq<u8>>;

/// `base64::encode_config(data, base64::URL_SAFE_NO_PAD)`, as ASCII bytes:
/// the URL-safe base64 text of `data` without padding.
#[verifier::external_body]
pub(crate) fn base64_url_encode(data: &[u8]) -> (r: Vec<u8>)
    ensures
        r@ == b64_encode(data@, true, false),
{
    base64::encode_config(data, base64::URL_SAFE_NO_PAD).into_bytes()
}

/// `base64::encode(data)`, as ASCII bytes: the standard base64 text of `data`
/// with padding.
#[verifier::external_body]
pub(crate) fn base64_standard_encode(data: &[u8]) -> (r: Vec<u8>)
    ensures
        r@ == b64_encode(data@, false, true),
{
    base64::encode(data).into_bytes()
}

/// `base64::decode_config(text, base64::URL_SAFE_NO_PAD)`, with the error
/// turned into `None`. Its result is named by `b64_url_decoding`; the one fact
/// stated beside the name is that decoding the crate's own unpadded URL-safe
/// encoding of some bytes gives those bytes back.
#[verifier::external_body]
pub(crate) fn base64_url_decode(text: &[u8]) -> (r: Option<Vec<u8>>)
    ensures
        opt_bytes(r) == b64_url_decoding(text@),
        forall|b: Seq<u8>|
            #[trigger] b64_encode(b, true, false) == text@ ==> opt_bytes(r) == Some(b),
{
    base64::decode_config(text, base64::URL_SAFE_NO_PAD).ok()
}

/// What the base64 crate decodes `text` to with the standard alphabet and
/// padding, or `None` when it reports an error.
pub uninterp spec fn b64_standard_decoding(text: Seq<u8>) -> Option<Seq<u8>>;

/// `base64::decode(text)` (standard alphabet, padded), with the error turned
/// into `None`. Its result is named by `b64_standard_decoding`; the one fact
/// stated beside the name is that decoding the crate's own padded standard
/// encoding of some bytes gives those bytes back.
#[verifier::external_body]
pub(crate) fn base64_standard_decode(text: &[u8]) -> (r: Option<Vec<u8>>)
    ensures
        opt_bytes(r) == b64_standard_decoding(text@),
        forall|b: Seq<u8>|
            #[trigger] b64_encode(b, false, true) == text@ ==> opt_bytes(r) == Some(b),
{
    base64::decode(text).ok()
}

/// A base64 symbol is ASCII and is neither `.` nor `=`.
proof fn lemma_symbol_range(v: int, url_safe: bool)
    requires
        0 <= v < 64,
    ensures
        b64_symbol(v, url_safe) < 128,
        b64_symbol(v, url_safe) != 46,
        b64_symbol(v, url_safe) != 61,
{
}

/// Base64 text is ASCII, and the URL-safe text without padding holds no dot.
pub proof fn lemma_b64_ascii(b: Seq<u8>, url_safe: bool, pad: bool)
    ensures
        forall|i: int| 0 <= i < b64_encode(b, url_safe, pad).len() ==> #[trigger] b64_encode(b, url_safe, pad)[i] < 128,
        forall|i: int| 0 <= i < b64_encode(b, url_safe, pad).len() ==> #[trigger] b64_encode(b, url_safe, pad)[i] != 46,
    decreases b.len(),
{
    let e = b64_encode(b, url_safe, pad);
    if b.len() == 0 {
    } else if b.len() == 1 {
        lemma_symbol_range(b[0] as int / 4, url_safe);
        lemma_symbol_range((b[0] as int % 4) * 16, url_safe);
    } else if b.len() == 2 {
        lemma_symbol_range(b[0] as int / 4, url_safe);
        lemma_symbol_range((b[0] as int % 4) * 16 + b[1] as int / 16, url_safe);
        lemma_symbol_range((b[1] as int % 16) * 4, url_safe);
    } else {
        lemma_symbol_range(b[0] as int / 4, url_safe);
        lemma_symbol_range((b[0] as int % 4) * 16 + b[1] as int / 16, url_safe);
        lemma_symbol_range((b[1] as int % 16) * 4 + b[2] as int / 64, url_safe);
        lemma_symbol_range(b[2] as int % 64, url_safe);
        lemma_b64_ascii(b.skip(3), url_safe, pad);
        let rest = b64_encode(b.skip(3), url_safe, pad);
        assert forall|i: int| 4 <= i < e.len() implies e[i] == rest[i - 4] by {}
    }
}

} // verus!
