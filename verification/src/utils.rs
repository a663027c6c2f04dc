//! Approximate-equality predicates for convergence checks.

use vstd::prelude::*;

use crate::fixed::{fxm, sabs};

verus! {

/// Combined relative/absolute closeness:
/// `|a - b| <= max(atol, rtol * max(|a|, |b|))`.
pub open spec fn spec_isapprox(a: int, b: int, rtol: int, atol: int) -> bool {
    let m = if sabs(a) >= sabs(b) {
        sabs(a)
    } else {
        sabs(b)
    };
    let bound = if atol >= fxm(rtol, m) {
        atol
    } else {
        fxm(rtol, m)
    };
    sabs(a - b) <= bound
}

/// Executable form of [`spec_isapprox`].
pub fn isapprox(a: i64, b: i64, rtol: i64, atol: i64) -> (r: bool)
    ensures
        r == spec_isapprox(a as int, b as int, rtol as int, atol as int),
{
    let am: i128 = if a >= 0 {
        a as i128
    } else {
        -(a as i128)
    };
    let bm: i128 = if b >= 0 {
        b as i128
    } else {
        -(b as i128)
    };
    let m: i128 = if am >= bm {
        am
    } else {
        bm
    };
    // rtol * m / SCALE, saturating, with the magnitude kept in 128 bits.
    let rneg: bool = rtol < 0;
    let rm: u128 = if rtol >= 0 {
        rtol as u128
    } else {
        (-(rtol as i128)) as u128
    };
    proof {
        vstd::arithmetic::mul::lemma_mul_upper_bound(
            rm as int,
            0x8000000000000000,
            m as int,
            0x8000000000000000,
        );
        crate::fixed::lemma_abs_mul(rtol as int, m as int);
        crate::fixed::lemma_mul_sign(rtol as int, m as int);
        vstd::arithmetic::div_mod::lemma_div_nonincreasing(
            (rm * (m as u128)) as int,
            crate::fixed::SCALE as int,
        );
        vstd::arithmetic::div_mod::lemma_div_pos_is_pos(
            (rm * (m as u128)) as int,
            crate::fixed::SCALE as int,
        );
    }
    let q: u128 = (rm * (m as u128)) / (crate::fixed::SCALE as u128);
    let rel: i64 = if rneg {
        crate::fixed::clamp128(-(q as i128))
    } else {
        crate::fixed::clamp128(q as i128)
    };
    let bound: i64 = if atol >= rel {
        atol
    } else {
        rel
    };
    let diff: i128 = (a as i128) - (b as i128);
    let dm: i128 = if diff >= 0 {
        diff
    } else {
        -diff
    };
    dm <= bound as i128
}

/// Entrywise closeness of two equally indexed arrays, over the shared
/// prefix.
pub fn isapprox_arr(a: &Vec<i64>, b: &Vec<i64>, rtol: i64, atol: i64) -> (r: bool)
    ensures
        r == (forall|q: int|
            0 <= q < a@.len() && q < b@.len() ==> spec_isapprox(
                (#[trigger] a@[q]) as int,
                b@[q] as int,
                rtol as int,
                atol as int,
            )),
{
    let m = if a.len() <= b.len() {
        a.len()
    } else {
        b.len()
    };
    let mut q: usize = 0;
    while q < m
        invariant
            0 <= q <= m,
            m == if a@.len() <= b@.len() {
                a@.len()
            } else {
                b@.len()
            },
            forall|p: int|
                0 <= p < q ==> spec_isapprox(
                    (#[trigger] a@[p]) as int,
                    b@[p] as int,
                    rtol as int,
                    atol as int,
                ),
        decreases m - q,
    {
        if !isapprox(a[q], b[q], rtol, atol) {
            return false;
        }
        q = q + 1;
    }
    true
}

} // verus!
