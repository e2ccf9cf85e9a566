//! Integers in JSON as serde_json writes them: an optional minus sign and the
//! decimal digits, with no leading zeros.
use vstd::prelude::*;

verus! {

/// The decimal digits of `n`, most significant first, as ASCII bytes.
pub open spec fn nat_digits(n: nat) -> Seq<u8>
    decreases n,
{
    if n < 10 {
        seq![(48 + n) as u8]
    } else {
        nat_digits(n / 10) + seq![(48 + n % 10) as u8]
    }
}

/// The decimal text of `x`.
pub open spec fn decimal(x: int) -> Seq<u8> {
    if x < 0 {
        seq![45u8] + nat_digits((-x) as nat)
    } else {
        nat_digits(x as nat)
    }
}

/// Whether `c` is an ASCII decimal digit.
pub open spec fn is_digit(c: u8) -> bool {
    48 <= c <= 57
}

/// Reads the run of digits at the start of `b`, with `acc` as the value of
/// the digits before it: the value and the number of digits read.
pub open spec fn scan_digits_spec(b: Seq<u8>, acc: nat) -> (nat, int)
    decreases b.len(),
{
    if b.len() > 0 && is_digit(b[0]) {
        let (v, k) = scan_digits_spec(b.drop_first(), acc * 10 + (b[0] - 48) as nat);
        (v, k + 1)
    } else {
        (acc, 0)
    }
}

/// Reads an optional minus sign and a run of digits at the start of `b`: the
/// value and the number of bytes read.
pub open spec fn scan_int_spec(b: Seq<u8>) -> (int, int) {
    if b.len() > 0 && b[0] == 45 {
        let (v, k) = scan_digits_spec(b.drop_first(), 0);
        (-v, k + 1)
    } else {
        let (v, k) = scan_digits_spec(b, 0);
        (v as int, k)
    }
}

/// Whether `b` is empty or does not start with a digit.
pub open spec fn no_digit_first(b: Seq<u8>) -> bool {
    b.len() == 0 || !is_digit(b[0])
}

/// The decimal digits of a number are at least one ASCII digit.
pub proof fn lemma_nat_digits_are_digits(n: nat)
    ensures
        nat_digits(n).len() >= 1,
        forall|i: int| 0 <= i < nat_digits(n).len() ==> is_digit(#[trigger] nat_digits(n)[i]),
    decreases n,
{
    if n >= 10 {
        lemma_nat_digits_are_digits(n / 10);
    }
}

/// Scanning a run of digits followed by more bytes goes on where the run
/// ends.
proof fn lemma_scan_digits_split(a: Seq<u8>, b: Seq<u8>, acc: nat)
    requires
        forall|i: int| 0 <= i < a.len() ==> is_digit(#[trigger] a[i]),
    ensures
        scan_digits_spec(a, acc).1 == a.len(),
        scan_digits_spec(a + b, acc) == (
            scan_digits_spec(b, scan_digits_spec(a, acc).0).0,
            a.len() + scan_digits_spec(b, scan_digits_spec(a, acc).0).1,
        ),
    decreases a.len(),
{
    if a.len() == 0 {
        assert(a + b =~= b);
    } else {
        let acc2 = acc * 10 + (a[0] - 48) as nat;
        assert((a + b)[0] == a[0]);
        assert((a + b).drop_first() =~= a.drop_first() + b);
        assert forall|i: int| 0 <= i < a.drop_first().len() implies is_digit(#[trigger] a.drop_first()[i]) by {
            assert(a.drop_first()[i] == a[i + 1]);
        }
        lemma_scan_digits_split(a.drop_first(), b, acc2);
    }
}

/// Scanning the decimal digits of `n` gives `n`.
proof fn lemma_scan_nat_digits(n: nat)
    ensures
        scan_digits_spec(nat_digits(n), 0) == (n, nat_digits(n).len() as int),
    decreases n,
{
    lemma_nat_digits_are_digits(n);
    if n >= 10 {
        let d = seq![(48 + n % 10) as u8];
        lemma_nat_digits_are_digits(n / 10);
        lemma_scan_nat_digits(n / 10);
        lemma_scan_digits_split(nat_digits(n / 10), d, 0);
        assert(d.drop_first().len() == 0);
        assert(is_digit(d[0]));
        assert(d[0] - 48 == n % 10);
        assert(n == (n / 10) * 10 + n % 10);
        assert(scan_digits_spec(d.drop_first(), (n / 10) * 10 + (d[0] - 48) as nat) == (
        ((n / 10) * 10 + n % 10) as nat, 0int));
        assert(scan_digits_spec(d, n / 10) == ((n / 10) * 10 + n % 10, 1int));
        assert(nat_digits(n) == nat_digits(n / 10) + d);
    } else {
        let d = nat_digits(n);
        assert(d.drop_first().len() == 0);
        assert(is_digit(d[0]));
        assert(d[0] - 48 == n);
        assert(scan_digits_spec(d.drop_first(), 0 * 10 + (d[0] - 48) as nat) == (n, 0int));
    }
}

/// Reading the decimal text of `x` followed by a non-digit gives `x` and
/// reads exactly the text.
pub proof fn lemma_scan_decimal(x: int, rest: Seq<u8>)
    requires
        no_digit_first(rest),
    ensures
        scan_int_spec(decimal(x) + rest) == (x, decimal(x).len() as int),
{
    let m: nat = if x < 0 { (-x) as nat } else { x as nat };
    lemma_nat_digits_are_digits(m);
    lemma_scan_nat_digits(m);
    lemma_scan_digits_split(nat_digits(m), rest, 0);
    if x < 0 {
        let b = decimal(x) + rest;
        assert(b[0] == 45);
        assert(b.drop_first() =~= nat_digits(m) + rest);
    } else {
        let b = decimal(x) + rest;
        assert(is_digit(b[0]));
        assert(b[0] != 45);
    }
}

/// Scanning never lowers the accumulated value and reads no more than `b`.
proof fn lemma_scan_digits_grows(b: Seq<u8>, acc: nat)
    ensures
        scan_digits_spec(b, acc).0 >= acc,
        0 <= scan_digits_spec(b, acc).1 <= b.len(),
    decreases b.len(),
{
    if b.len() > 0 && is_digit(b[0]) {
        lemma_scan_digits_grows(b.drop_first(), acc * 10 + (b[0] - 48) as nat);
    }
}

/// Appends the decimal digits of `n`.
pub fn push_nat_digits(out: &mut Vec<u8>, n: u64)
    ensures
        final(out)@ == old(out)@ + nat_digits(n as nat),
    decreases n,
{
    if n >= 10 {
        push_nat_digits(out, n / 10);
    }
    let ghost before = out@;
    out.push(48 + (n % 10) as u8);
    proof {
        if n >= 10 {
            assert(out@ =~= old(out)@ + nat_digits(n as nat));
        } else {
            assert(out@ =~= old(out)@ + nat_digits(n as nat));
        }
    }
}

/// Appends the decimal text of `x`.
pub fn push_decimal(out: &mut Vec<u8>, x: i64)
    ensures
        final(out)@ == old(out)@ + decimal(x as int),
{
    if x < 0 {
        out.push(45);
        let m: u64 = if x == i64::MIN {
            9223372036854775808u64
        } else {
            (-x) as u64
        };
        push_nat_digits(out, m);
        assert(out@ =~= old(out)@ + decimal(x as int));
    } else {
        push_nat_digits(out, x as u64);
    }
}

/// Reads an integer in `b` from `start`: an optional minus sign and a run of
/// digits. Returns the value and the position after it, or `None` when the
/// value does not fit in an `i64`.
pub fn scan_int(b: &[u8], start: usize) -> (r: Option<(i64, usize)>)
    requires
        start <= b@.len(),
    ensures
        match r {
            Some((v, end)) => start <= end <= b@.len() && scan_int_spec(b@.skip(start as int)) == (
                v as int,
                end - start,
            ),
            None => !(i64::MIN <= scan_int_spec(b@.skip(start as int)).0 <= i64::MAX),
        },
{
    let n = b.len();
    let ghost s = b@.skip(start as int);
    let negative = start < n && b[start] == 45;
    let mut i: usize = if negative {
        start + 1
    } else {
        start
    };
    proof {
        if negative {
            assert(s[0] == 45);
            assert(s.drop_first() =~= b@.skip(i as int));
        } else {
            if s.len() > 0 {
                assert(s[0] == b@[start as int]);
            }
            assert(s =~= b@.skip(i as int));
        }
    }
    let limit: u64 = 9223372036854775808u64;
    let mut acc: u64 = 0;
    let ghost total = scan_digits_spec(b@.skip(i as int), 0);
    let ghost i0 = i;
    proof {
        lemma_scan_digits_grows(b@.skip(i as int), 0);
    }
    assert(scan_int_spec(s) == (if negative {
        (-(total.0 as int), total.1 + 1)
    } else {
        (total.0 as int, total.1)
    }));
    while i < n && 48 <= b[i] && b[i] <= 57
        invariant
            n == b@.len(),
            start <= i0 <= i <= n,
            i0 == (if negative { start + 1 } else { start as int }),
            acc <= limit,
            limit == 9223372036854775808u64,
            s == b@.skip(start as int),
            scan_int_spec(s) == (if negative {
                (-(total.0 as int), total.1 + 1)
            } else {
                (total.0 as int, total.1)
            }),
            scan_digits_spec(b@.skip(i as int), acc as nat) == (total.0, total.1 - (i - i0)),
        decreases n - i,
    {
        let ghost here = b@.skip(i as int);
        assert(here[0] == b@[i as int]);
        assert(here.drop_first() =~= b@.skip(i + 1));
        let d = (b[i] - 48) as u64;
        proof {
            lemma_scan_digits_grows(b@.skip(i + 1), acc as nat * 10 + d as nat);
        }
        if acc > (limit - d) / 10 {
            proof {
                lemma_scan_digits_grows(b@.skip(i + 1), acc as nat * 10 + d as nat);
                assert(acc * 10 + d > limit) by (nonlinear_arith)
                    requires
                        acc > (limit - d) / 10,
                        d <= 9,
                        limit == 9223372036854775808u64,
                ;
                assert(total.0 > limit);
                if negative {
                    assert(scan_int_spec(s).0 == -(total.0 as int));
                } else {
                    assert(scan_int_spec(s).0 == total.0 as int);
                }
            }
            return None;
        }
        acc = acc * 10 + d;
        i = i + 1;
    }
    proof {
        let here = b@.skip(i as int);
        if i < n {
            assert(here[0] == b@[i as int]);
        }
        assert(scan_digits_spec(here, acc as nat) == (acc as nat, 0int));
        assert(total.0 == acc);
    }
    if negative {
        let v: i64 = if acc == limit {
            i64::MIN
        } else {
            -(acc as i64)
        };
        Some((v, i))
    } else {
        if acc > i64::MAX as u64 {
            return None;
        }
        Some((acc as i64, i))
    }
}

} // verus!
