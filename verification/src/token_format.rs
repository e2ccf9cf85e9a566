//! The layout of an anonymous token: a JWT whose header and claims are JSON
//! objects, written in the compact form serde_json writes for them and read
//! as serde_json reads them, joined with the signature by dots.
use vstd::prelude::*;

use crate::bytes::append_bytes;
use crate::json_claims::{parse_claims, parse_claims_exec};
use crate::json_number::{decimal, push_decimal};
use crate::json_string::{escape_json, push_escaped};

verus! {

/// The claims of a token as plain values: subject, issue time, expiry time
/// and token id.
pub type ClaimsView = (Seq<u8>, i64, i64, Seq<u8>);

/// The claims of a token: the subject (user id) and token id as UTF-8 bytes,
/// the issue and expiry times in Unix seconds.
#[derive(Debug, Clone)]
pub struct JwtClaims {
    pub sub: Vec<u8>,
    pub iat: i64,
    pub exp: i64,
    pub jti: Vec<u8>,
}

impl View for JwtClaims {
    type V = ClaimsView;

    open spec fn view(&self) -> ClaimsView {
        (self.sub@, self.iat, self.exp, self.jti@)
    }
}

/// `{"sub":"`
pub open spec fn claims_open() -> Seq<u8> {
    seq![123u8, 34, 115, 117, 98, 34, 58, 34]
}

/// `,"iat":`
pub open spec fn claims_iat_key() -> Seq<u8> {
    seq![44u8, 34, 105, 97, 116, 34, 58]
}

/// `,"exp":`
pub open spec fn claims_exp_key() -> Seq<u8> {
    seq![44u8, 34, 101, 120, 112, 34, 58]
}

/// `,"jti":"`
pub open spec fn claims_jti_key() -> Seq<u8> {
    seq![44u8, 34, 106, 116, 105, 34, 58, 34]
}

/// The JSON text of the claims:
/// `{"sub":<sub>,"iat":<iat>,"exp":<exp>,"jti":<jti>}`.
pub open spec fn claims_json(c: ClaimsView) -> Seq<u8> {
    claims_open() + (escape_json(c.0) + (seq![34u8] + (claims_iat_key() + (decimal(c.1 as int) + (
    claims_exp_key() + (decimal(c.2 as int) + (claims_jti_key() + (escape_json(c.3) + (seq![34u8]
        + seq![125u8])))))))))
}

/// The JSON text of the token header: `{"alg":"HS256","typ":"JWT"}`.
pub open spec fn header_json() -> Seq<u8> {
    seq![
        123u8, 34, 97, 108, 103, 34, 58, 34, 72, 83, 50, 53, 54, 34, 44, 34, 116, 121, 112, 34, 58,
        34, 74, 87, 84, 34, 125,
    ]
}

/// Writes the JSON text of the claims.
#[verifier::rlimit(60)]
pub fn claims_to_json(c: &JwtClaims) -> (r: Vec<u8>)
    ensures
        r@ == claims_json(c@),
{
    let mut out: Vec<u8> = vec![123u8, 34, 115, 117, 98, 34, 58, 34];
    push_escaped(&mut out, c.sub.as_slice());
    let k1: Vec<u8> = vec![34u8, 44, 34, 105, 97, 116, 34, 58];
    append_bytes(&mut out, k1.as_slice());
    push_decimal(&mut out, c.iat);
    let k2: Vec<u8> = vec![44u8, 34, 101, 120, 112, 34, 58];
    append_bytes(&mut out, k2.as_slice());
    push_decimal(&mut out, c.exp);
    let k3: Vec<u8> = vec![44u8, 34, 106, 116, 105, 34, 58, 34];
    append_bytes(&mut out, k3.as_slice());
    push_escaped(&mut out, c.jti.as_slice());
    out.push(34);
    out.push(125);
    assert(out@ =~= claims_json(c@));
    out
}

/// The JSON text of the token header.
pub fn header_to_json() -> (r: Vec<u8>)
    ensures
        r@ == header_json(),
{
    let r: Vec<u8> = vec![
        123u8, 34, 97, 108, 103, 34, 58, 34, 72, 83, 50, 53, 54, 34, 44, 34, 116, 121, 112, 34, 58,
        34, 74, 87, 84, 34, 125,
    ];
    assert(r@ =~= header_json());
    r
}

/// The claims as plain values, if any.
pub open spec fn claims_option_view(o: Option<JwtClaims>) -> Option<ClaimsView> {
    match o {
        Some(c) => Some(c@),
        None => None,
    }
}

/// Reads claims from JSON text as serde_json reads them into the claims
/// struct (see `parse_claims`).
pub fn claims_from_json(b: &[u8]) -> (r: Option<JwtClaims>)
    ensures
        claims_option_view(r) == parse_claims(b@),
{
    match parse_claims_exec(b) {
        Some((sub, iat, exp, jti)) => Some(JwtClaims { sub, iat, exp, jti }),
        None => None,
    }
}

/// The pieces of `b` between dots, as `split('.')` yields them: one more
/// piece than there are dots, empty pieces included.
pub open spec fn split_dots(b: Seq<u8>) -> Seq<Seq<u8>>
    decreases b.len(),
{
    if b.len() == 0 {
        seq![seq![]]
    } else {
        let r = split_dots(b.drop_last());
        if b.last() == 46 {
            r.push(seq![])
        } else {
            r.update(r.len() - 1, r.last().push(b.last()))
        }
    }
}

/// Whether no byte of `b` is a dot.
pub open spec fn dot_free(b: Seq<u8>) -> bool {
    forall|i: int| 0 <= i < b.len() ==> b[i] != 46
}

/// There is always at least one piece.
pub proof fn lemma_split_dots_len(b: Seq<u8>)
    ensures
        split_dots(b).len() >= 1,
    decreases b.len(),
{
    if b.len() > 0 {
        lemma_split_dots_len(b.drop_last());
    }
}

/// Appending dot-free bytes extends the last piece.
pub proof fn lemma_split_append(a: Seq<u8>, x: Seq<u8>)
    requires
        dot_free(x),
    ensures
        split_dots(a + x) == split_dots(a).update(
            split_dots(a).len() - 1,
            split_dots(a).last() + x,
        ),
    decreases x.len(),
{
    lemma_split_dots_len(a);
    let r = split_dots(a);
    if x.len() == 0 {
        assert(a + x =~= a);
        assert(r.last() + x =~= r.last());
        assert(r.update(r.len() - 1, r.last()) =~= r);
    } else {
        let y = x.drop_last();
        assert(dot_free(y)) by {
            assert forall|i: int| 0 <= i < y.len() implies y[i] != 46 by {
                assert(y[i] == x[i]);
            }
        }
        lemma_split_append(a, y);
        assert((a + x).drop_last() =~= a + y);
        assert((a + x).last() == x.last());
        assert(x.last() != 46);
        let ry = split_dots(a + y);
        lemma_split_dots_len(a + y);
        assert(ry.last() == r.last() + y);
        assert((r.last() + y).push(x.last()) =~= r.last() + x);
        assert(ry.update(ry.len() - 1, ry.last().push(x.last())) =~= r.update(
            r.len() - 1,
            r.last() + x,
        ));
    }
}

/// Appending a dot starts a new, empty piece.
pub proof fn lemma_split_dot(a: Seq<u8>)
    ensures
        split_dots(a + seq![46u8]) == split_dots(a).push(seq![]),
{
    assert((a + seq![46u8]).drop_last() =~= a);
}

/// Three dot-free pieces joined by dots split back into those pieces.
pub proof fn lemma_split_three(x: Seq<u8>, y: Seq<u8>, z: Seq<u8>)
    requires
        dot_free(x),
        dot_free(y),
        dot_free(z),
    ensures
        split_dots(x + seq![46u8] + y + seq![46u8] + z) == seq![x, y, z],
{
    let e: Seq<u8> = seq![];
    lemma_split_append(e, x);
    assert(e + x =~= x);
    assert(split_dots(e) == seq![e]);
    assert(seq![e].update(0, e + x) =~= seq![x]);
    lemma_split_dot(x);
    lemma_split_append(x + seq![46u8], y);
    assert(seq![x].push(e).update(1, e + y) =~= seq![x, y]);
    lemma_split_dot(x + seq![46u8] + y);
    lemma_split_append(x + seq![46u8] + y + seq![46u8], z);
    assert(seq![x, y].push(e).update(2, e + z) =~= seq![x, y, z]);
}

/// The pieces of a vector of byte vectors.
pub open spec fn pieces_view(v: Seq<Vec<u8>>) -> Seq<Seq<u8>> {
    v.map_values(|p: Vec<u8>| p@)
}

/// Splits `b` at every dot.
pub fn split_on_dots(b: &[u8]) -> (r: Vec<Vec<u8>>)
    ensures
        pieces_view(r@) == split_dots(b@),
{
    let n = b.len();
    let mut done: Vec<Vec<u8>> = Vec::new();
    let mut cur: Vec<u8> = Vec::new();
    let mut i: usize = 0;
    assert(b@.take(0) =~= seq![]);
    assert(pieces_view(done@).push(cur@) =~= split_dots(b@.take(0)));
    while i < n
        invariant
            n == b@.len(),
            i <= n,
            pieces_view(done@).push(cur@) == split_dots(b@.take(i as int)),
        decreases n - i,
    {
        let c = b[i];
        let ghost before = pieces_view(done@).push(cur@);
        proof {
            assert(b@.take(i + 1).drop_last() =~= b@.take(i as int));
            assert(b@.take(i + 1).last() == c);
        }
        if c == 46 {
            let finished = cur;
            done.push(finished);
            cur = Vec::new();
            assert(pieces_view(done@).push(cur@) =~= before.push(seq![]));
        } else {
            cur.push(c);
            assert(pieces_view(done@).push(cur@) =~= before.update(
                before.len() - 1,
                before.last().push(c),
            ));
        }
        i = i + 1;
    }
    assert(b@.take(n as int) =~= b@);
    let ghost last = pieces_view(done@).push(cur@);
    done.push(cur);
    assert(pieces_view(done@) =~= last);
    done
}

} // verus!
