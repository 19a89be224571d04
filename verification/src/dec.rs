//! Decimal rendering of integers as ASCII bytes, for assembly token
//! emission.

use vstd::prelude::*;

verus! {

/// The ASCII decimal digits of a number, most significant first, without
/// leading zeros except for the number zero itself.
pub open spec fn dec_digits(n: nat) -> Seq<u8>
    decreases n,
{
    if n < 10 {
        seq![(48 + n) as u8]
    } else {
        dec_digits(n / 10).push((48 + n % 10) as u8)
    }
}

/// The ASCII decimal rendering of an integer: a minus sign before the digits
/// of the magnitude when negative.
pub open spec fn dec_int(v: int) -> Seq<u8> {
    if v < 0 {
        seq![45u8] + dec_digits((-v) as nat)
    } else {
        dec_digits(v as nat)
    }
}

/// Renders an unsigned number in decimal.
pub fn u64_dec_bytes(n: u64) -> (r: Vec<u8>)
    ensures
        r@ == dec_digits(n as nat),
{
    if n == 0 {
        let mut r: Vec<u8> = Vec::new();
        r.push(48);
        proof {
            assert(r@ =~= dec_digits(0));
        }
        return r;
    }
    let mut m: u64 = n;
    let mut rev: Vec<u8> = Vec::new();
    loop
        invariant
            m > 0 ==> dec_digits(n as nat) == dec_digits(m as nat) + rev@.reverse(),
            m == 0 ==> dec_digits(n as nat) == rev@.reverse(),
        ensures
            dec_digits(n as nat) == rev@.reverse(),
        decreases m,
    {
        if m == 0 {
            break;
        }
        let d: u8 = (m % 10) as u8;
        let ghost m0 = m as nat;
        let ghost rev0 = rev@;
        rev.push(48 + d);
        m = m / 10;
        proof {
            assert(rev@.reverse() =~= seq![(48 + m0 % 10) as u8] + rev0.reverse());
            if m0 < 10 {
                assert(dec_digits(m0) =~= seq![(48 + m0) as u8]);
                assert(dec_digits(m0) + rev0.reverse() =~= rev@.reverse());
            } else {
                assert(dec_digits(m0) == dec_digits(m0 / 10).push((48 + m0 % 10) as u8));
                assert(dec_digits(m0) + rev0.reverse() =~= dec_digits(m as nat)
                    + rev@.reverse());
            }
        }
    }
    let mut r: Vec<u8> = Vec::new();
    let k = rev.len();
    let mut i: usize = 0;
    while i < k
        invariant
            k == rev@.len(),
            0 <= i <= k,
            r@.len() == i,
            forall|j: int| 0 <= j < i ==> r@[j] == rev@[k - 1 - j],
        decreases k - i,
    {
        r.push(rev[k - 1 - i]);
        i = i + 1;
    }
    proof {
        assert(r@ =~= rev@.reverse());
    }
    r
}

/// Renders a signed number in decimal, minus sign first when negative.
pub fn i64_dec_bytes(v: i64) -> (r: Vec<u8>)
    ensures
        r@ == dec_int(v as int),
{
    if v >= 0 {
        let r = u64_dec_bytes(v as u64);
        r
    } else {
        let mag: u64 = ((-(v + 1)) as u64) + 1;
        proof {
            assert(mag == -(v as int));
        }
        let mut r: Vec<u8> = Vec::new();
        r.push(45);
        let mut digits = u64_dec_bytes(mag);
        r.append(&mut digits);
        proof {
            assert(r@ =~= seq![45u8] + dec_digits((-(v as int)) as nat));
        }
        r
    }
}

/// Renders a 32-bit index in decimal.
pub fn u32_dec_bytes(n: u32) -> (r: Vec<u8>)
    ensures
        r@ == dec_digits(n as nat),
{
    u64_dec_bytes(n as u64)
}

} // verus!
