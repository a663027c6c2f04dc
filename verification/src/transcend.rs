//! Verified fixed-point logarithm, exponential and power functions.
//!
//! `log2` is computed by the classic squaring digit recurrence and `2^x` by
//! the dual square-root digit recurrence; `ln`, `exp` and `x^w` are derived
//! from them with the scaled constants `LN2_FX` and `LOG2E_FX`.  Each
//! executable function returns exactly the value of its spec mirror, and the
//! mirrors are proved weakly monotone, which carries monotonicity through to
//! the production primitives built on top of them.

use vstd::prelude::*;

use crate::fixed::{FX_MAX, SCALE};
use crate::fixed::{clamp128, fx_mul, fxm, sat64};

verus! {

/// `ln(2)`, scaled by `SCALE`.
pub const LN2_FX: i64 = 11629080;

/// `log2(e)`, scaled by `SCALE`.
pub const LOG2E_FX: i64 = 24204406;

/// Integer square root (largest `r` with `r * r <= x`); zero for negative input.
pub open spec fn sisqrt(x: int) -> int
    decreases x,
{
    if x <= 0 {
        0
    } else {
        let r = sisqrt(x - 1);
        if (r + 1) * (r + 1) <= x {
            r + 1
        } else {
            r
        }
    }
}

/// The integer square root brackets its argument.
pub proof fn lemma_sisqrt_props(x: int)
    requires
        x >= 0,
    ensures
        sisqrt(x) >= 0,
        sisqrt(x) * sisqrt(x) <= x,
        x < (sisqrt(x) + 1) * (sisqrt(x) + 1),
    decreases x,
{
    if x > 0 {
        lemma_sisqrt_props(x - 1);
        let r = sisqrt(x - 1);
        if (r + 1) * (r + 1) <= x {
            assert(x == (r + 1) * (r + 1));
            assert((r + 1) * (r + 1) < (r + 2) * (r + 2)) by (nonlinear_arith)
                requires
                    r >= 0,
            ;
        }
    }
}

/// A bracketed value equals the integer square root.
pub proof fn lemma_sisqrt_unique(x: int, r: int)
    requires
        x >= 0,
        r >= 0,
        r * r <= x,
        x < (r + 1) * (r + 1),
    ensures
        r == sisqrt(x),
{
    let s = sisqrt(x);
    lemma_sisqrt_props(x);
    if r < s {
        vstd::arithmetic::mul::lemma_mul_inequality(r + 1, s, s);
        vstd::arithmetic::mul::lemma_mul_inequality(r + 1, s, r + 1);
        assert((r + 1) * (r + 1) <= s * s);
    }
    if s < r {
        vstd::arithmetic::mul::lemma_mul_inequality(s + 1, r, r);
        vstd::arithmetic::mul::lemma_mul_inequality(s + 1, r, s + 1);
        assert((s + 1) * (s + 1) <= r * r);
    }
}

/// The integer square root is monotone.
pub proof fn lemma_sisqrt_mono(x1: int, x2: int)
    requires
        0 <= x1 <= x2,
    ensures
        sisqrt(x1) <= sisqrt(x2),
{
    lemma_sisqrt_props(x1);
    lemma_sisqrt_props(x2);
    let r1 = sisqrt(x1);
    let r2 = sisqrt(x2);
    if r2 < r1 {
        vstd::arithmetic::mul::lemma_mul_inequality(r2 + 1, r1, r1);
        vstd::arithmetic::mul::lemma_mul_inequality(r2 + 1, r1, r2 + 1);
        assert((r2 + 1) * (r2 + 1) <= r1 * r1);
    }
}

/// Integer square root by binary search, for arguments below `2^88`.
fn isqrt(x: u128) -> (r: u128)
    requires
        x < 0x10000000000000000000000u128,
    ensures
        r as int == sisqrt(x as int),
{
    let mut lo: u128 = 0;
    let mut hi: u128 = 0x100000000000u128;  // 2^44
    proof {
        assert((0x100000000000u128 + 1) * (0x100000000000u128 + 1)
            > 0x10000000000000000000000u128) by (nonlinear_arith);
    }
    while lo < hi
        invariant
            lo <= hi,
            hi <= 0x100000000000u128,
            lo * lo <= x,
            x < (hi + 1) * (hi + 1),
        decreases hi - lo,
    {
        let mid: u128 = lo + (hi - lo + 1) / 2;
        proof {
            vstd::arithmetic::mul::lemma_mul_upper_bound(
                mid as int,
                0x100000000000,
                mid as int,
                0x100000000000,
            );
            assert(0x100000000000u128 * 0x100000000000u128 == 0x10000000000000000000000u128)
                by (nonlinear_arith);
        }
        if mid * mid <= x {
            lo = mid;
        } else {
            hi = mid - 1;
        }
    }
    proof {
        lemma_sisqrt_unique(x as int, lo as int);
    }
    lo
}

/// Binary exponent and normalized mantissa of `x`, for `1 <= x < SCALE`:
/// repeated doubling until the mantissa reaches `[SCALE, 2 * SCALE)`.
pub open spec fn norm_up(x: int) -> (int, int)
    decreases SCALE - x,
    when 1 <= x < SCALE
{
    if 2 * x >= SCALE {
        (-1, 2 * x)
    } else {
        let (k, m) = norm_up(2 * x);
        (k - 1, m)
    }
}

/// Binary exponent and normalized mantissa of `x`, for `x >= 2 * SCALE`:
/// repeated halving until the mantissa reaches `[SCALE, 2 * SCALE)`.
pub open spec fn norm_down(x: int) -> (int, int)
    decreases x,
    when x >= 2 * SCALE
{
    if x / 2 < 2 * SCALE {
        (1, x / 2)
    } else {
        let (k, m) = norm_down(x / 2);
        (k + 1, m)
    }
}

/// Binary exponent `k` and mantissa `m` of a positive quantity, with
/// `m` in `[SCALE, 2 * SCALE)` and `m ~ x / 2^k`.
pub open spec fn norm_pair(x: int) -> (int, int) {
    if x < SCALE {
        norm_up(x)
    } else if x >= 2 * SCALE {
        norm_down(x)
    } else {
        (0, x)
    }
}

/// What it means for `(k, m)` to normalize `x`.
pub open spec fn is_norm(x: int, k: int, m: int) -> bool {
    &&& SCALE <= m < 2 * SCALE
    &&& if k >= 0 {
        pow2(k as nat) * m <= x < pow2(k as nat) * (m + 1)
    } else {
        m == x * pow2((-k) as nat)
    }
}

pub use vstd::arithmetic::power2::pow2;

proof fn lemma_norm_up(x: int)
    requires
        1 <= x < SCALE,
    ensures
        ({
            let (k, m) = norm_up(x);
            k < 0 && is_norm(x, k, m)
        }),
    decreases SCALE - x,
{
    if 2 * x >= SCALE {
        assert(pow2(1) == 2) by {
            vstd::arithmetic::power2::lemma2_to64();
        }
    } else {
        lemma_norm_up(2 * x);
        let (k, m) = norm_up(2 * x);
        assert(m == (2 * x) * pow2((-k) as nat));
        let q = pow2((-k) as nat) as int;
        assert(x * pow2((-(k - 1)) as nat) == (2 * x) * q) by {
            vstd::arithmetic::power2::lemma_pow2_unfold((-(k - 1)) as nat);
            vstd::arithmetic::mul::lemma_mul_is_associative(x, 2, q);
            vstd::arithmetic::mul::lemma_mul_is_commutative(x, 2);
            vstd::arithmetic::mul::lemma_mul_is_commutative(x * 2, q);
            vstd::arithmetic::mul::lemma_mul_is_commutative(x, 2 * q);
        }
    }
}

proof fn lemma_norm_down(x: int)
    requires
        x >= 2 * SCALE,
    ensures
        ({
            let (k, m) = norm_down(x);
            k > 0 && is_norm(x, k, m)
        }),
    decreases x,
{
    vstd::arithmetic::div_mod::lemma_fundamental_div_mod(x, 2);
    if x / 2 < 2 * SCALE {
        assert(pow2(1) == 2) by {
            vstd::arithmetic::power2::lemma2_to64();
        }
        assert(2 * (x / 2) <= x < 2 * (x / 2 + 1));
    } else {
        lemma_norm_down(x / 2);
        let (k, m) = norm_down(x / 2);
        assert(pow2(k as nat) * m <= x / 2 < pow2(k as nat) * (m + 1));
        let p = pow2(k as nat) as int;
        assert(pow2((k + 1) as nat) == 2 * p) by {
            vstd::arithmetic::power2::lemma_pow2_unfold((k + 1) as nat);
        }
        assert(2 * (p * m) <= 2 * (x / 2)) by {
            vstd::arithmetic::mul::lemma_mul_left_inequality(2, p * m, x / 2);
        }
        assert(x / 2 + 1 <= p * (m + 1));
        assert(2 * (x / 2 + 1) <= 2 * (p * (m + 1))) by {
            vstd::arithmetic::mul::lemma_mul_left_inequality(2, x / 2 + 1, p * (m + 1));
        }
        assert((2 * p) * m == 2 * (p * m) && (2 * p) * (m + 1) == 2 * (p * (m + 1))) by {
            vstd::arithmetic::mul::lemma_mul_is_associative(2, p, m);
            vstd::arithmetic::mul::lemma_mul_is_associative(2, p, m + 1);
        }
        assert(x < 2 * (x / 2 + 1));
    }
}

/// The pair returned by `norm_pair` normalizes its argument.
pub proof fn lemma_norm_pair(x: int)
    requires
        x >= 1,
    ensures
        ({
            let (k, m) = norm_pair(x);
            is_norm(x, k, m)
        }),
{
    if x < SCALE {
        lemma_norm_up(x);
    } else if x >= 2 * SCALE {
        lemma_norm_down(x);
    } else {
        assert(pow2(0) == 1) by {
            vstd::arithmetic::power2::lemma2_to64();
        }
        assert(pow2(0) * x == x && pow2(0) * (x + 1) == x + 1) by {
            vstd::arithmetic::mul::lemma_mul_basics(x);
            vstd::arithmetic::mul::lemma_mul_basics(x + 1);
        }
    }
}

/// Only one pair normalizes a given quantity.
pub proof fn lemma_norm_unique(x: int, k1: int, m1: int, k2: int, m2: int)
    requires
        x >= 1,
        is_norm(x, k1, m1),
        is_norm(x, k2, m2),
    ensures
        k1 == k2,
        m1 == m2,
{
    lemma_norm_le(x, k1, m1, k2, m2);
    lemma_norm_le(x, k2, m2, k1, m1);
    if k1 >= 0 {
        let p = pow2(k1 as nat) as int;
        vstd::arithmetic::power2::lemma_pow2_pos(k1 as nat);
        assert(x - p * m1 < p) by {
            vstd::arithmetic::mul::lemma_mul_is_distributive_add(p, m1, 1);
        }
        assert(x - p * m2 < p) by {
            vstd::arithmetic::mul::lemma_mul_is_distributive_add(p, m2, 1);
        }
        vstd::arithmetic::div_mod::lemma_fundamental_div_mod_converse(
            x, p, m1, x - p * m1,
        );
        vstd::arithmetic::div_mod::lemma_fundamental_div_mod_converse(
            x, p, m2, x - p * m2,
        );
    }
}

/// Helper: a normalizing exponent cannot be strictly smaller than another.
proof fn lemma_norm_le(x: int, k1: int, m1: int, k2: int, m2: int)
    requires
        x >= 1,
        is_norm(x, k1, m1),
        is_norm(x, k2, m2),
    ensures
        k1 >= k2,
{
    if k1 < k2 {
        if k1 >= 0 {
            let p1 = pow2(k1 as nat) as int;
            let p2 = pow2(k2 as nat) as int;
            assert(x < p1 * (m1 + 1));
            assert(p1 * (m1 + 1) <= p1 * (2 * SCALE)) by {
                vstd::arithmetic::power2::lemma_pow2_pos(k1 as nat);
                vstd::arithmetic::mul::lemma_mul_left_inequality(p1, m1 + 1, 2 * SCALE);
            }
            assert(p2 >= 2 * p1) by {
                vstd::arithmetic::power2::lemma_pow2_adds(k1 as nat, 1);
                vstd::arithmetic::power2::lemma2_to64();
                if k2 > k1 + 1 {
                    vstd::arithmetic::power2::lemma_pow2_strictly_increases(
                        (k1 + 1) as nat,
                        k2 as nat,
                    );
                }
            }
            assert(x >= p2 * m2);
            assert(p2 * m2 >= p2 * SCALE) by {
                vstd::arithmetic::power2::lemma_pow2_pos(k2 as nat);
                vstd::arithmetic::mul::lemma_mul_left_inequality(p2, SCALE as int, m2);
                vstd::arithmetic::mul::lemma_mul_is_commutative(p2, SCALE as int);
                vstd::arithmetic::mul::lemma_mul_is_commutative(p2, m2);
            }
            assert(p2 * SCALE >= (2 * p1) * SCALE) by {
                vstd::arithmetic::mul::lemma_mul_inequality(2 * p1, p2, SCALE as int);
            }
            assert((2 * p1) * SCALE == p1 * (2 * SCALE)) by {
                vstd::arithmetic::mul::lemma_mul_is_associative(2, p1, SCALE as int);
                vstd::arithmetic::mul::lemma_mul_is_associative(p1, 2, SCALE as int);
                vstd::arithmetic::mul::lemma_mul_is_commutative(2, p1);
            }
        } else {
            // k1 < 0: m1 == x * 2^(-k1) < 2 * SCALE.
            let a1 = (-k1) as nat;
            assert(m1 == x * pow2(a1));
            if k2 >= 0 {
                // x >= 2^(k2) * m2 >= SCALE, so x * 2^(a1) >= 2 * SCALE.
                let p2 = pow2(k2 as nat) as int;
                assert(p2 * m2 >= 1 * SCALE) by {
                    vstd::arithmetic::power2::lemma_pow2_pos(k2 as nat);
                    vstd::arithmetic::mul::lemma_mul_inequality(1, p2, m2);
                    vstd::arithmetic::mul::lemma_mul_is_commutative(p2, m2);
                    vstd::arithmetic::mul::lemma_mul_inequality(SCALE as int, m2, p2);
                    vstd::arithmetic::mul::lemma_mul_is_commutative(m2, p2);
                }
                assert(x * pow2(a1) >= x * 2) by {
                    vstd::arithmetic::power2::lemma2_to64();
                    if a1 > 1 {
                        vstd::arithmetic::power2::lemma_pow2_strictly_increases(1, a1);
                    }
                    vstd::arithmetic::mul::lemma_mul_left_inequality(x, 2, pow2(a1) as int);
                }
                assert(x * 2 >= SCALE * 2) by {
                    vstd::arithmetic::mul::lemma_mul_inequality(SCALE as int, x, 2);
                }
            } else {
                // Both negative: m1 == m2 * 2^(k2 - k1) >= 2 * m2 >= 2 * SCALE.
                let a2 = (-k2) as nat;
                let d = (k2 - k1) as nat;
                assert(m1 == x * pow2(a1));
                assert(m2 == x * pow2(a2));
                assert(pow2(a1) == pow2(a2) * pow2(d)) by {
                    vstd::arithmetic::power2::lemma_pow2_adds(a2, d);
                }
                assert(m1 == m2 * pow2(d)) by {
                    vstd::arithmetic::mul::lemma_mul_is_associative(
                        x,
                        pow2(a2) as int,
                        pow2(d) as int,
                    );
                }
                assert(m2 * pow2(d) >= m2 * 2) by {
                    vstd::arithmetic::power2::lemma2_to64();
                    if d > 1 {
                        vstd::arithmetic::power2::lemma_pow2_strictly_increases(1, d);
                    }
                    vstd::arithmetic::mul::lemma_mul_left_inequality(m2, 2, pow2(d) as int);
                }
            }
        }
    }
}

/// Fractional digits of `log2(m / SCALE)` for a mantissa `m` in
/// `[SCALE, 2 * SCALE)`: `j` rounds of the squaring digit recurrence.
pub open spec fn lfrac(m: int, j: nat) -> int
    decreases j,
{
    if j == 0 {
        0
    } else {
        let m2 = (m * m) / (SCALE as int);
        if m2 >= 2 * SCALE {
            pow2((j - 1) as nat) + lfrac(m2 / 2, (j - 1) as nat)
        } else {
            lfrac(m2, (j - 1) as nat)
        }
    }
}

/// One squaring step keeps the mantissa in range.
proof fn lemma_mantissa_step(m: int)
    requires
        SCALE <= m < 2 * SCALE,
    ensures
        SCALE <= (m * m) / (SCALE as int) < 4 * SCALE,
        (m * m) / (SCALE as int) >= 2 * SCALE ==> SCALE <= ((m * m) / (SCALE as int)) / 2 < 2
            * SCALE,
{
    let m2 = (m * m) / (SCALE as int);
    assert(m * m >= SCALE * SCALE) by {
        vstd::arithmetic::mul::lemma_mul_inequality(SCALE as int, m, SCALE as int);
        vstd::arithmetic::mul::lemma_mul_is_commutative(SCALE as int, m);
        vstd::arithmetic::mul::lemma_mul_inequality(SCALE as int, m, m);
    }
    assert(m * m < (4 * SCALE) * SCALE) by {
        vstd::arithmetic::mul::lemma_mul_upper_bound(m, 2 * SCALE - 1, m, 2 * SCALE - 1);
        assert((2 * SCALE - 1) * (2 * SCALE - 1) < (4 * SCALE) * SCALE) by (nonlinear_arith);
    }
    assert(m2 >= SCALE) by {
        vstd::arithmetic::div_mod::lemma_div_is_ordered(SCALE * SCALE, m * m, SCALE as int);
        vstd::arithmetic::div_mod::lemma_div_by_multiple(SCALE as int, SCALE as int);
    }
    assert(m2 < 4 * SCALE) by {
        vstd::arithmetic::div_mod::lemma_multiply_divide_lt(m * m, SCALE as int, 4 * SCALE);
    }
    vstd::arithmetic::div_mod::lemma_fundamental_div_mod(m2, 2);
}

/// The digit recurrence yields a `j`-bit value.
pub proof fn lemma_lfrac_bound(m: int, j: nat)
    requires
        SCALE <= m < 2 * SCALE,
    ensures
        0 <= lfrac(m, j) < pow2(j),
    decreases j,
{
    vstd::arithmetic::power2::lemma_pow2_pos(j);
    if j > 0 {
        lemma_mantissa_step(m);
        let m2 = (m * m) / (SCALE as int);
        vstd::arithmetic::power2::lemma_pow2_unfold(j);
        if m2 >= 2 * SCALE {
            lemma_lfrac_bound(m2 / 2, (j - 1) as nat);
        } else {
            lemma_lfrac_bound(m2, (j - 1) as nat);
        }
    }
}

/// The digit recurrence is monotone in the mantissa.
pub proof fn lemma_lfrac_mono(m1: int, m2: int, j: nat)
    requires
        SCALE <= m1 <= m2 < 2 * SCALE,
    ensures
        lfrac(m1, j) <= lfrac(m2, j),
    decreases j,
{
    if j > 0 {
        lemma_mantissa_step(m1);
        lemma_mantissa_step(m2);
        let s1 = (m1 * m1) / (SCALE as int);
        let s2 = (m2 * m2) / (SCALE as int);
        assert(s1 <= s2) by {
            vstd::arithmetic::mul::lemma_mul_inequality(m1, m2, m1);
            vstd::arithmetic::mul::lemma_mul_inequality(m1, m2, m2);
            vstd::arithmetic::mul::lemma_mul_is_commutative(m1, m2);
            vstd::arithmetic::div_mod::lemma_div_is_ordered(m1 * m1, m2 * m2, SCALE as int);
        }
        if s1 >= 2 * SCALE && s2 >= 2 * SCALE {
            vstd::arithmetic::div_mod::lemma_div_is_ordered(s1, s2, 2);
            lemma_lfrac_mono(s1 / 2, s2 / 2, (j - 1) as nat);
        } else if s2 >= 2 * SCALE {
            // The larger mantissa emits the higher digit; the remaining
            // digits of the smaller run cannot make up the difference.
            lemma_lfrac_bound(s1, (j - 1) as nat);
            lemma_lfrac_bound(s2 / 2, (j - 1) as nat);
        } else {
            lemma_lfrac_mono(s1, s2, (j - 1) as nat);
        }
    }
}

/// `log2(x / SCALE)`, scaled by `SCALE`: integer part from the normalization
/// exponent, `FRAC_BITS` fractional digits from the squaring recurrence.
pub open spec fn spec_log2(x: int) -> int {
    let (k, m) = norm_pair(x);
    k * SCALE + lfrac(m, 24)
}

/// `log2` of a positive fixed-point quantity, exactly as `spec_log2` gives it.
pub fn log2fix(x: i64) -> (r: i64)
    requires
        x >= 1,
    ensures
        r as int == spec_log2(x as int),
        (r as int) > -64 * (SCALE as int),
        (r as int) < 64 * (SCALE as int),
{
    let mut m: i64 = x;
    let mut kk: i64 = 0;
    if m < SCALE {
        proof {
            assert(pow2(0) == 1) by {
                vstd::arithmetic::power2::lemma2_to64();
            }
            assert(x * pow2(0) == x) by {
                vstd::arithmetic::mul::lemma_mul_basics(x as int);
            }
        }
        while m < SCALE
            invariant
                1 <= m < 2 * SCALE,
                -24 <= kk <= 0,
                m as int == (x as int) * pow2((-kk) as nat),
                x >= 1,
            decreases 2 * SCALE - m,
        {
            proof {
                let a = (-kk) as nat;
                assert((2 * (x as int)) * pow2(a) == 2 * ((x as int) * pow2(a))) by {
                    vstd::arithmetic::mul::lemma_mul_is_associative(2, x as int, pow2(a) as int);
                }
                assert((x as int) * pow2((a + 1) as nat) == (2 * (x as int)) * pow2(a)) by {
                    vstd::arithmetic::power2::lemma_pow2_unfold((a + 1) as nat);
                    vstd::arithmetic::mul::lemma_mul_is_associative(x as int, 2, pow2(a) as int);
                    vstd::arithmetic::mul::lemma_mul_is_commutative(x as int, 2);
                }
                assert(m >= 1);
                // m == x * 2^a >= 2^a, and m < SCALE = 2^24, so a < 24.
                assert((m as int) >= pow2(a)) by {
                    vstd::arithmetic::mul::lemma_mul_inequality(1, x as int, pow2(a) as int);
                    vstd::arithmetic::mul::lemma_mul_is_commutative(x as int, pow2(a) as int);
                    vstd::arithmetic::mul::lemma_mul_basics(pow2(a) as int);
                }
                if a >= 24 {
                    if a > 24 {
                        vstd::arithmetic::power2::lemma_pow2_strictly_increases(24, a);
                    }
                    assert(pow2(24) == 0x1000000) by {
                        vstd::arithmetic::power2::lemma2_to64();
                    }
                    assert(false);
                }
            }
            m = m * 2;
            kk = kk - 1;
        }
    } else {
        proof {
            assert(pow2(0) == 1) by {
                vstd::arithmetic::power2::lemma2_to64();
            }
            assert(pow2(0) * (x as int) == x && pow2(0) * ((x as int) + 1) == (x as int) + 1)
                by {
                vstd::arithmetic::mul::lemma_mul_basics(x as int);
                vstd::arithmetic::mul::lemma_mul_basics((x as int) + 1);
            }
        }
        while m >= 2 * SCALE
            invariant
                SCALE <= m,
                0 <= kk <= 63,
                pow2(kk as nat) * (m as int) <= x as int,
                (x as int) < pow2(kk as nat) * ((m as int) + 1),
            decreases m,
        {
            proof {
                let p = pow2(kk as nat) as int;
                vstd::arithmetic::power2::lemma_pow2_pos(kk as nat);
                vstd::arithmetic::div_mod::lemma_fundamental_div_mod(m as int, 2);
                let h = (m as int) / 2;
                assert(pow2((kk + 1) as nat) == 2 * p) by {
                    vstd::arithmetic::power2::lemma_pow2_unfold((kk + 1) as nat);
                }
                assert((2 * p) * h == p * (2 * h) && (2 * p) * (h + 1) == p * (2 * h + 2)) by {
                    vstd::arithmetic::mul::lemma_mul_is_associative(2, p, h);
                    vstd::arithmetic::mul::lemma_mul_is_associative(2, p, h + 1);
                    vstd::arithmetic::mul::lemma_mul_is_commutative(2, p);
                    vstd::arithmetic::mul::lemma_mul_is_associative(p, 2, h);
                    vstd::arithmetic::mul::lemma_mul_is_associative(p, 2, h + 1);
                    vstd::arithmetic::mul::lemma_mul_is_distributive_add(p, 2 * h, 2);
                    vstd::arithmetic::mul::lemma_mul_is_distributive_add(p, h, 1);
                }
                assert(p * (2 * h) <= p * (m as int)) by {
                    vstd::arithmetic::mul::lemma_mul_left_inequality(p, 2 * h, m as int);
                }
                assert(p * ((m as int) + 1) <= p * (2 * h + 2)) by {
                    vstd::arithmetic::mul::lemma_mul_left_inequality(p, (m as int) + 1, 2 * h + 2);
                }
                // kk stays small: 2^kk * m <= x < 2^63 while m >= 2 * SCALE.
                if kk >= 38 {
                    if kk > 38 {
                        vstd::arithmetic::power2::lemma_pow2_strictly_increases(38, kk as nat);
                    }
                    assert(pow2(38) == 0x4000000000) by {
                        vstd::arithmetic::power2::lemma2_to64_rest();
                    }
                    assert(pow2(38) * (2 * SCALE as int) <= p * (2 * SCALE as int)) by {
                        vstd::arithmetic::mul::lemma_mul_inequality(
                            pow2(38) as int,
                            p,
                            2 * SCALE as int,
                        );
                        vstd::arithmetic::mul::lemma_mul_is_commutative(pow2(38) as int, 2 * SCALE as int);
                        vstd::arithmetic::mul::lemma_mul_is_commutative(p, 2 * SCALE as int);
                    }
                    assert(p * (2 * SCALE as int) <= p * (m as int)) by {
                        vstd::arithmetic::mul::lemma_mul_left_inequality(p, 2 * SCALE as int, m as int);
                    }
                    assert(pow2(38) * (2 * SCALE as int) == 0x8000000000000000) by (nonlinear_arith)
                        requires
                            pow2(38) == 0x4000000000,
                    ;
                    assert(false);
                }
            }
            m = m / 2;
            kk = kk + 1;
        }
    }
    proof {
        assert(is_norm(x as int, kk as int, m as int));
        lemma_norm_pair(x as int);
        let (k0, m0) = norm_pair(x as int);
        lemma_norm_unique(x as int, kk as int, m as int, k0, m0);
    }
    // Digit loop: 24 fractional bits of log2 of the mantissa.
    let ghost m_start: int = m as int;
    let mut acc: i64 = 0;
    let mut j: u32 = 0;
    while j < 24
        invariant
            SCALE <= m < 2 * SCALE,
            0 <= j <= 24,
            0 <= acc,
            acc < pow2(j as nat),
            acc * pow2((24 - j) as nat) + lfrac(m as int, (24 - j) as nat) == lfrac(m_start, 24),
            SCALE <= m_start < 2 * SCALE,
        decreases 24 - j,
    {
        proof {
            lemma_mantissa_step(m as int);
            vstd::arithmetic::mul::lemma_mul_upper_bound(
                m as int,
                2 * SCALE,
                m as int,
                2 * SCALE,
            );
            assert((2 * SCALE) * (2 * SCALE) < 0x7fffffffffffffff) by (nonlinear_arith);
        }
        proof {
            if (j as nat) < 23 {
                vstd::arithmetic::power2::lemma_pow2_strictly_increases(j as nat, 23);
            }
            assert(pow2(23) == 0x800000) by {
                vstd::arithmetic::power2::lemma2_to64();
            }
        }
        let m2: i64 = (m as i64 * m) / SCALE;
        let ghost jj = (24 - j) as nat;
        proof {
            vstd::arithmetic::power2::lemma_pow2_unfold(jj);
            vstd::arithmetic::power2::lemma_pow2_unfold((j + 1) as nat);
            let pj = pow2((jj - 1) as nat) as int;
            assert(acc * (2 * pj) == (2 * acc) * pj) by {
                vstd::arithmetic::mul::lemma_mul_is_associative(acc as int, 2, pj);
                vstd::arithmetic::mul::lemma_mul_is_commutative(acc as int, 2);
            }
            assert((2 * acc + 1) * pj == (2 * acc) * pj + pj) by {
                vstd::arithmetic::mul::lemma_mul_is_distributive_add_other_way(
                    pj,
                    2 * acc as int,
                    1,
                );
            }
        }
        if m2 >= 2 * SCALE {
            acc = 2 * acc + 1;
            m = m2 / 2;
        } else {
            acc = 2 * acc;
            m = m2;
        }
        j = j + 1;
    }
    proof {
        assert(lfrac(m as int, 0) == 0);
        assert(acc * pow2(0) == acc) by {
            vstd::arithmetic::mul::lemma_mul_basics(acc as int);
            vstd::arithmetic::power2::lemma2_to64();
        }
        assert(pow2(24) == 0x1000000) by {
            vstd::arithmetic::power2::lemma2_to64();
        }
    }
    kk * SCALE + acc
}

/// `2^(v / pow2(j))` for a `j`-bit fraction `v`, scaled by `SCALE`:
/// the square-root digit recurrence dual to `lfrac`.
pub open spec fn efrac(v: int, j: nat) -> int
    decreases j,
{
    if j == 0 {
        SCALE as int
    } else {
        let p = pow2((j - 1) as nat) as int;
        let sub = efrac(v % p, (j - 1) as nat);
        if v / p == 1 {
            sisqrt((SCALE as int) * (2 * sub))
        } else {
            sisqrt((SCALE as int) * sub)
        }
    }
}

/// The exponential digit recurrence keeps its mantissa in `[SCALE, 2 * SCALE)`.
pub proof fn lemma_efrac_bound(v: int, j: nat)
    requires
        0 <= v < pow2(j),
    ensures
        SCALE <= efrac(v, j) < 2 * SCALE,
    decreases j,
{
    if j > 0 {
        let p = pow2((j - 1) as nat) as int;
        vstd::arithmetic::power2::lemma_pow2_pos((j - 1) as nat);
        vstd::arithmetic::power2::lemma_pow2_unfold(j);
        vstd::arithmetic::div_mod::lemma_fundamental_div_mod(v, p);
        vstd::arithmetic::div_mod::lemma_mod_division_less_than_divisor(v, p);
        lemma_efrac_bound(v % p, (j - 1) as nat);
        let sub = efrac(v % p, (j - 1) as nat);
        let w = if v / p == 1 { 2 * sub } else { sub };
        let arg = (SCALE as int) * w;
        assert(arg >= (SCALE as int) * (SCALE as int)) by {
            vstd::arithmetic::mul::lemma_mul_left_inequality(SCALE as int, SCALE as int, w);
        }
        assert(arg < (2 * SCALE) * (2 * SCALE)) by {
            vstd::arithmetic::mul::lemma_mul_left_inequality(SCALE as int, w, 4 * SCALE - 2);
            assert((SCALE as int) * (4 * SCALE - 2) < (2 * SCALE) * (2 * SCALE))
                by (nonlinear_arith);
        }
        lemma_sisqrt_props(arg);
        let r = sisqrt(arg);
        if r < SCALE {
            assert((r + 1) * (r + 1) <= (SCALE as int) * (SCALE as int)) by {
                vstd::arithmetic::mul::lemma_mul_inequality(r + 1, SCALE as int, SCALE as int);
                vstd::arithmetic::mul::lemma_mul_inequality(r + 1, SCALE as int, r + 1);
            }
        }
        if r >= 2 * SCALE {
            assert((2 * SCALE) * (2 * SCALE) <= r * r) by {
                vstd::arithmetic::mul::lemma_mul_inequality(2 * SCALE, r, r);
                vstd::arithmetic::mul::lemma_mul_inequality(2 * SCALE, r, 2 * SCALE);
            }
        }
    }
}

/// `2^(y / SCALE)`, scaled by `SCALE`, saturated into `[1, FX_MAX]`.
pub open spec fn spec_exp2(y: int) -> int {
    let k = y / (SCALE as int);
    let f = y % (SCALE as int);
    let e = efrac(f, 24);
    let raw = if k >= 0 {
        sat64(e * pow2(k as nat))
    } else {
        e / (pow2((-k) as nat) as int)
    };
    if raw < 1 {
        1
    } else {
        raw
    }
}

/// `2^(y / SCALE)` of a fixed-point quantity, exactly as `spec_exp2` gives it.
pub fn exp2fix(y: i64) -> (r: i64)
    ensures
        r as int == spec_exp2(y as int),
        1 <= r as int <= FX_MAX as int,
{
    // Split y into floor quotient and non-negative remainder by SCALE.
    let (q, f): (i64, i64) = if y >= 0 {
        (y / SCALE, y % SCALE)
    } else {
        let a: i128 = -(y as i128);
        let qm: i128 = a / (SCALE as i128);
        let rm: i128 = a % (SCALE as i128);
        if rm == 0 {
            ((-qm) as i64, 0i64)
        } else {
            ((-qm - 1) as i64, (SCALE as i128 - rm) as i64)
        }
    };
    proof {
        vstd::arithmetic::div_mod::lemma_fundamental_div_mod_converse(
            y as int,
            SCALE as int,
            q as int,
            f as int,
        );
    }
    // 24 rounds of the square-root digit recurrence, LSB upward.
    let mut cur: i64 = SCALE;
    let mut fv: i64 = f;
    let mut j: u32 = 0;
    proof {
        assert(pow2(0) == 1 && pow2(24) == 0x1000000) by {
            vstd::arithmetic::power2::lemma2_to64();
        }
        vstd::arithmetic::div_mod::lemma_mod_division_less_than_divisor(y as int, SCALE as int);
    }
    while j < 24
        invariant
            0 <= j <= 24,
            0 <= f < SCALE,
            fv as int == (f as int) / (pow2(j as nat) as int),
            cur as int == efrac((f as int) % (pow2(j as nat) as int), j as nat),
            SCALE <= cur < 2 * SCALE,
        decreases 24 - j,
    {
        proof {
            vstd::arithmetic::power2::lemma_pow2_pos(j as nat);
        }
        let bit: i64 = fv % 2;
        let w: u128 = if bit == 1 {
            (2 * cur) as u128
        } else {
            cur as u128
        };
        let arg: u128 = (SCALE as u128) * w;
        proof {
            assert((SCALE as int) * (w as int) < 0x10000000000000000000000) by {
                vstd::arithmetic::mul::lemma_mul_left_inequality(
                    SCALE as int,
                    w as int,
                    4 * SCALE,
                );
                assert((SCALE as int) * (4 * SCALE) < 0x10000000000000000000000)
                    by (nonlinear_arith);
            }
        }
        let nxt: u128 = isqrt(arg);
        proof {
            let p = pow2(j as nat) as int;
            let p2 = pow2((j + 1) as nat) as int;
            vstd::arithmetic::power2::lemma_pow2_pos(j as nat);
            vstd::arithmetic::power2::lemma_pow2_adds(j as nat, 1);
            assert(pow2(1) == 2) by {
                vstd::arithmetic::power2::lemma2_to64();
            }
            assert(p2 == p * 2);
            vstd::arithmetic::div_mod::lemma_breakdown(f as int, p, 2);
            // (f % p2) / p == (f / p) % 2  and  (f % p2) % p == f % p.
            let vv = (f as int) % (p * 2);
            assert(vv == p * (((f as int) / p) % 2) + (f as int) % p);
            vstd::arithmetic::div_mod::lemma_mod_division_less_than_divisor(f as int, p);
            vstd::arithmetic::div_mod::lemma_mod_division_less_than_divisor((f as int) / p, 2);
            assert(vv / p == ((f as int) / p) % 2 && vv % p == (f as int) % p) by {
                vstd::arithmetic::mul::lemma_mul_is_commutative(p, ((f as int) / p) % 2);
                vstd::arithmetic::div_mod::lemma_fundamental_div_mod_converse(
                    vv,
                    p,
                    ((f as int) / p) % 2,
                    (f as int) % p,
                );
            }
            // The next fv is the old fv halved.
            vstd::arithmetic::div_mod::lemma_div_denominator(f as int, p, 2);
            // Bound the new mantissa.
            lemma_efrac_bound(vv, (j + 1) as nat);
            assert(efrac(vv, (j + 1) as nat) == nxt);
        }
        cur = nxt as i64;
        fv = fv / 2;
        j = j + 1;
    }
    proof {
        vstd::arithmetic::div_mod::lemma_small_mod(f as nat, pow2(24));
        assert(cur as int == efrac(f as int, 24));
    }
    // Scale by 2^q, saturating upward and flooring at 1.
    let e: i64 = cur;
    let raw: i64 = if q >= 0 {
        if q >= 40 {
            proof {
                let k = q as nat;
                assert(pow2(40) == 0x10000000000) by {
                    vstd::arithmetic::power2::lemma2_to64_rest();
                }
                if k > 40 {
                    vstd::arithmetic::power2::lemma_pow2_strictly_increases(40, k);
                }
                assert((e as int) * (pow2(k) as int) >= (SCALE as int) * (pow2(40) as int)) by {
                    vstd::arithmetic::mul::lemma_mul_inequality(
                        SCALE as int,
                        e as int,
                        pow2(k) as int,
                    );
                    vstd::arithmetic::mul::lemma_mul_left_inequality(
                        e as int,
                        pow2(40) as int,
                        pow2(k) as int,
                    );
                    vstd::arithmetic::mul::lemma_mul_is_commutative(SCALE as int, pow2(k) as int);
                    vstd::arithmetic::mul::lemma_mul_is_commutative(e as int, pow2(k) as int);
                }
                assert((SCALE as int) * (pow2(40) as int) > FX_MAX as int) by (nonlinear_arith)
                    requires
                        pow2(40) == 0x10000000000,
                ;
            }
            FX_MAX
        } else {
            let mut p: i64 = e;
            let mut i: i64 = 0;
            proof {
                assert(pow2(0) == 1) by {
                    vstd::arithmetic::power2::lemma2_to64();
                }
                assert((e as int) * 1 == e as int) by {
                    vstd::arithmetic::mul::lemma_mul_basics(e as int);
                }
            }
            while i < q
                invariant
                    0 <= i <= q < 40,
                    1 <= e,
                    p as int == sat64((e as int) * (pow2(i as nat) as int)),
                decreases q - i,
            {
                proof {
                    let pi = pow2(i as nat) as int;
                    vstd::arithmetic::power2::lemma_pow2_pos(i as nat);
                    vstd::arithmetic::power2::lemma_pow2_unfold((i + 1) as nat);
                    assert((e as int) * (2 * pi) == 2 * ((e as int) * pi)) by {
                        vstd::arithmetic::mul::lemma_mul_is_associative(e as int, 2, pi);
                        vstd::arithmetic::mul::lemma_mul_is_commutative(e as int, 2);
                        vstd::arithmetic::mul::lemma_mul_is_associative(2, e as int, pi);
                    }
                    assert((e as int) * pi >= 1 * 1) by {
                        vstd::arithmetic::mul::lemma_mul_inequality(1, e as int, pi);
                        vstd::arithmetic::mul::lemma_mul_left_inequality(e as int, 1, pi);
                        vstd::arithmetic::mul::lemma_mul_basics(e as int);
                    }
                }
                p = clamp128((p as i128) * 2);
                i = i + 1;
            }
            p
        }
    } else {
        let mq: i64 = if q > -64 { -q } else { 64 };
        proof {
            if mq >= 26 {
                assert(pow2(26) == 0x4000000) by {
                    vstd::arithmetic::power2::lemma2_to64();
                }
                if mq > 26 {
                    vstd::arithmetic::power2::lemma_pow2_strictly_increases(26, mq as nat);
                }
                vstd::arithmetic::div_mod::lemma_basic_div(e as int, pow2(mq as nat) as int);
            }
            if (-(q as int)) != mq as int {
                // q <= -64: the true shift is at least 64 bits, result is 0 either way.
                assert(pow2(26) == 0x4000000) by {
                    vstd::arithmetic::power2::lemma2_to64();
                }
                vstd::arithmetic::power2::lemma_pow2_strictly_increases(26, (-(q as int)) as nat);
                vstd::arithmetic::div_mod::lemma_basic_div(
                    e as int,
                    pow2((-(q as int)) as nat) as int,
                );
            }
        }
        if mq >= 26 {
            0
        } else {
            let mut p: i64 = e;
            let mut i: i64 = 0;
            proof {
                assert(pow2(0) == 1) by {
                    vstd::arithmetic::power2::lemma2_to64();
                }
            }
            while i < mq
                invariant
                    0 <= i <= mq < 26,
                    0 <= e,
                    0 <= p <= e,
                    p as int == (e as int) / (pow2(i as nat) as int),
                decreases mq - i,
            {
                proof {
                    let pi = pow2(i as nat) as int;
                    vstd::arithmetic::power2::lemma_pow2_pos(i as nat);
                    vstd::arithmetic::power2::lemma_pow2_adds(i as nat, 1);
                    assert(pow2(1) == 2) by {
                        vstd::arithmetic::power2::lemma2_to64();
                    }
                    vstd::arithmetic::div_mod::lemma_div_denominator(e as int, pi, 2);
                    vstd::arithmetic::div_mod::lemma_div_pos_is_pos(e as int, pi);
                }
                p = p / 2;
                i = i + 1;
            }
            p
        }
    };
    if raw < 1 {
        1
    } else {
        raw
    }
}

/// The digit recurrence at fraction zero yields exactly one.
pub proof fn lemma_efrac_zero(j: nat)
    ensures
        efrac(0, j) == SCALE as int,
    decreases j,
{
    if j > 0 {
        let p = pow2((j - 1) as nat) as int;
        vstd::arithmetic::power2::lemma_pow2_pos((j - 1) as nat);
        vstd::arithmetic::div_mod::lemma_small_mod(0, p as nat);
        vstd::arithmetic::div_mod::lemma_basic_div(0, p);
        lemma_efrac_zero((j - 1) as nat);
        assert((SCALE as int) * (SCALE as int) <= (SCALE as int) * (SCALE as int) < ((SCALE
            as int) + 1) * ((SCALE as int) + 1)) by (nonlinear_arith);
        lemma_sisqrt_unique((SCALE as int) * (SCALE as int), SCALE as int);
    }
}

/// `2^0 == 1` in fixed point.
pub proof fn lemma_exp2_zero()
    ensures
        spec_exp2(0) == SCALE as int,
{
    vstd::arithmetic::div_mod::lemma_basic_div(0, SCALE as int);
    vstd::arithmetic::div_mod::lemma_small_mod(0, SCALE as nat);
    lemma_efrac_zero(24);
    assert(pow2(0) == 1) by {
        vstd::arithmetic::power2::lemma2_to64();
    }
    assert((SCALE as int) * pow2(0) == SCALE as int) by {
        vstd::arithmetic::mul::lemma_mul_basics(SCALE as int);
    }
}

/// The exponential always lands in `[1, FX_MAX]`.
pub proof fn lemma_exp2_range(y: int)
    ensures
        1 <= spec_exp2(y) <= FX_MAX as int,
{
    let k = y / (SCALE as int);
    let f = y % (SCALE as int);
    vstd::arithmetic::div_mod::lemma_mod_division_less_than_divisor(y, SCALE as int);
    assert(pow2(24) == 0x1000000) by {
        vstd::arithmetic::power2::lemma2_to64();
    }
    lemma_efrac_bound(f, 24);
    let e = efrac(f, 24);
    if k < 0 {
        vstd::arithmetic::power2::lemma_pow2_pos((-k) as nat);
        vstd::arithmetic::div_mod::lemma_div_nonincreasing(e, pow2((-k) as nat) as int);
        vstd::arithmetic::div_mod::lemma_div_pos_is_pos(e, pow2((-k) as nat) as int);
    }
}

/// The exponential digit recurrence is monotone in the fraction.
pub proof fn lemma_efrac_mono(v1: int, v2: int, j: nat)
    requires
        0 <= v1 <= v2,
        v2 < pow2(j),
    ensures
        efrac(v1, j) <= efrac(v2, j),
    decreases j,
{
    if j > 0 {
        let p = pow2((j - 1) as nat) as int;
        vstd::arithmetic::power2::lemma_pow2_pos((j - 1) as nat);
        vstd::arithmetic::power2::lemma_pow2_unfold(j);
        let b1 = v1 / p;
        let b2 = v2 / p;
        vstd::arithmetic::div_mod::lemma_div_is_ordered(v1, v2, p);
        vstd::arithmetic::div_mod::lemma_div_pos_is_pos(v1, p);
        vstd::arithmetic::div_mod::lemma_div_pos_is_pos(v2, p);
        assert(b2 <= 1) by {
            vstd::arithmetic::div_mod::lemma_multiply_divide_lt(v2, p, 2);
        }
        let r1 = v1 % p;
        let r2 = v2 % p;
        vstd::arithmetic::div_mod::lemma_fundamental_div_mod(v1, p);
        vstd::arithmetic::div_mod::lemma_fundamental_div_mod(v2, p);
        vstd::arithmetic::div_mod::lemma_mod_division_less_than_divisor(v1, p);
        vstd::arithmetic::div_mod::lemma_mod_division_less_than_divisor(v2, p);
        lemma_efrac_bound(r1, (j - 1) as nat);
        lemma_efrac_bound(r2, (j - 1) as nat);
        let s1 = efrac(r1, (j - 1) as nat);
        let s2 = efrac(r2, (j - 1) as nat);
        if b1 == b2 {
            assert(r1 <= r2) by {
                assert(v1 == p * b1 + r1 && v2 == p * b1 + r2);
            }
            lemma_efrac_mono(r1, r2, (j - 1) as nat);
            let w1 = if b1 == 1 { 2 * s1 } else { s1 };
            let w2 = if b1 == 1 { 2 * s2 } else { s2 };
            assert((SCALE as int) * w1 <= (SCALE as int) * w2) by {
                vstd::arithmetic::mul::lemma_mul_left_inequality(SCALE as int, w1, w2);
            }
            lemma_sisqrt_mono((SCALE as int) * w1, (SCALE as int) * w2);
        } else {
            // b1 == 0, b2 == 1: the high digit dominates.
            assert((SCALE as int) * s1 <= (SCALE as int) * (2 * SCALE - 1)) by {
                vstd::arithmetic::mul::lemma_mul_left_inequality(
                    SCALE as int,
                    s1,
                    2 * SCALE - 1,
                );
            }
            assert((SCALE as int) * (2 * (SCALE as int)) <= (SCALE as int) * (2 * s2)) by {
                vstd::arithmetic::mul::lemma_mul_left_inequality(
                    SCALE as int,
                    2 * (SCALE as int),
                    2 * s2,
                );
            }
            assert((SCALE as int) * (2 * SCALE - 1) <= (SCALE as int) * (2 * (SCALE as int)))
                by {
                vstd::arithmetic::mul::lemma_mul_left_inequality(
                    SCALE as int,
                    2 * SCALE - 1,
                    2 * (SCALE as int),
                );
            }
            lemma_sisqrt_mono((SCALE as int) * s1, (SCALE as int) * (2 * s2));
        }
    }
}

/// The fixed-point exponential is weakly monotone.
pub proof fn lemma_exp2_mono(y1: int, y2: int)
    requires
        y1 <= y2,
    ensures
        spec_exp2(y1) <= spec_exp2(y2),
{
    let s = SCALE as int;
    let k1 = y1 / s;
    let k2 = y2 / s;
    let f1 = y1 % s;
    let f2 = y2 % s;
    vstd::arithmetic::div_mod::lemma_div_is_ordered(y1, y2, s);
    vstd::arithmetic::div_mod::lemma_mod_division_less_than_divisor(y1, s);
    vstd::arithmetic::div_mod::lemma_mod_division_less_than_divisor(y2, s);
    assert(pow2(24) == 0x1000000) by {
        vstd::arithmetic::power2::lemma2_to64();
    }
    lemma_efrac_bound(f1, 24);
    lemma_efrac_bound(f2, 24);
    let e1 = efrac(f1, 24);
    let e2 = efrac(f2, 24);
    let raw1 = if k1 >= 0 { sat64(e1 * pow2(k1 as nat)) } else { e1 / (pow2((-k1) as nat) as int) };
    let raw2 = if k2 >= 0 { sat64(e2 * pow2(k2 as nat)) } else { e2 / (pow2((-k2) as nat) as int) };
    if k1 == k2 {
        vstd::arithmetic::div_mod::lemma_fundamental_div_mod(y1, s);
        vstd::arithmetic::div_mod::lemma_fundamental_div_mod(y2, s);
        lemma_efrac_mono(f1, f2, 24);
        if k1 >= 0 {
            vstd::arithmetic::mul::lemma_mul_inequality(e1, e2, pow2(k1 as nat) as int);
        } else {
            vstd::arithmetic::power2::lemma_pow2_pos((-k1) as nat);
            vstd::arithmetic::div_mod::lemma_div_is_ordered(e1, e2, pow2((-k1) as nat) as int);
        }
    } else {
        // k1 < k2.
        if k1 >= 0 {
            let p1 = pow2(k1 as nat) as int;
            let p2 = pow2(k2 as nat) as int;
            vstd::arithmetic::power2::lemma_pow2_pos(k1 as nat);
            assert(2 * p1 <= p2) by {
                vstd::arithmetic::power2::lemma_pow2_unfold((k1 + 1) as nat);
                if k2 > k1 + 1 {
                    vstd::arithmetic::power2::lemma_pow2_strictly_increases(
                        (k1 + 1) as nat,
                        k2 as nat,
                    );
                }
            }
            assert(e1 * p1 <= (2 * s) * p1) by {
                vstd::arithmetic::mul::lemma_mul_inequality(e1, 2 * s, p1);
            }
            assert((2 * s) * p1 == s * (2 * p1)) by {
                vstd::arithmetic::mul::lemma_mul_is_associative(2, s, p1);
                vstd::arithmetic::mul::lemma_mul_is_commutative(2, s);
                vstd::arithmetic::mul::lemma_mul_is_associative(s, 2, p1);
            }
            assert(s * (2 * p1) <= s * p2) by {
                vstd::arithmetic::mul::lemma_mul_left_inequality(s, 2 * p1, p2);
            }
            assert(s * p2 <= e2 * p2) by {
                vstd::arithmetic::mul::lemma_mul_inequality(s, e2, p2);
            }
            crate::fixed::lemma_sat64_mono(e1 * p1, e2 * p2);
        } else if k2 >= 0 {
            // raw1 < SCALE <= raw2.
            let m1 = (-k1) as nat;
            vstd::arithmetic::power2::lemma_pow2_pos(m1);
            assert(pow2(1) == 2) by {
                vstd::arithmetic::power2::lemma2_to64();
            }
            if m1 > 1 {
                vstd::arithmetic::power2::lemma_pow2_strictly_increases(1, m1);
            }
            assert(e1 / (pow2(m1) as int) <= e1 / 2) by {
                vstd::arithmetic::div_mod::lemma_div_is_ordered_by_denominator(e1, 2, pow2(m1) as int);
            }
            assert(e1 / 2 <= (2 * s - 1) / 2) by {
                vstd::arithmetic::div_mod::lemma_div_is_ordered(e1, 2 * s - 1, 2);
            }
            let p2 = pow2(k2 as nat) as int;
            vstd::arithmetic::power2::lemma_pow2_pos(k2 as nat);
            assert(e2 * p2 >= e2 * 1) by {
                vstd::arithmetic::mul::lemma_mul_left_inequality(e2, 1, p2);
            }
            assert(e2 * 1 == e2) by {
                vstd::arithmetic::mul::lemma_mul_basics(e2);
            }
            crate::fixed::lemma_sat64_mono(e2, e2 * p2);
        } else {
            // Both negative: shallower shift of a comparable mantissa wins.
            let m1 = (-k1) as nat;
            let m2 = (-k2) as nat;
            vstd::arithmetic::power2::lemma_pow2_pos(m1);
            vstd::arithmetic::power2::lemma_pow2_pos(m2);
            vstd::arithmetic::power2::lemma_pow2_pos((m1 - 1) as nat);
            assert(e1 <= 2 * e2);
            assert(e1 / (pow2(m1) as int) <= (2 * e2) / (pow2(m1) as int)) by {
                vstd::arithmetic::div_mod::lemma_div_is_ordered(e1, 2 * e2, pow2(m1) as int);
            }
            assert(pow2(m1) as int == 2 * (pow2((m1 - 1) as nat) as int)) by {
                vstd::arithmetic::power2::lemma_pow2_unfold(m1);
            }
            assert((2 * e2) / (pow2(m1) as int) == e2 / (pow2((m1 - 1) as nat) as int)) by {
                vstd::arithmetic::div_mod::lemma_div_denominator(
                    2 * e2,
                    2,
                    pow2((m1 - 1) as nat) as int,
                );
                assert((2 * e2) / 2 == e2) by {
                    vstd::arithmetic::div_mod::lemma_div_multiples_vanish(e2, 2);
                }
            }
            assert(e2 / (pow2((m1 - 1) as nat) as int) <= e2 / (pow2(m2) as int)) by {
                if m2 < m1 - 1 {
                    vstd::arithmetic::power2::lemma_pow2_strictly_increases(m2, (m1 - 1) as nat);
                }
                vstd::arithmetic::div_mod::lemma_div_is_ordered_by_denominator(
                    e2,
                    pow2(m2) as int,
                    pow2((m1 - 1) as nat) as int,
                );
            }
        }
    }
}

/// The fixed-point base-2 logarithm is weakly monotone.
pub proof fn lemma_log2_mono(x1: int, x2: int)
    requires
        1 <= x1 <= x2,
    ensures
        spec_log2(x1) <= spec_log2(x2),
{
    lemma_norm_pair(x1);
    lemma_norm_pair(x2);
    let (k1, m1) = norm_pair(x1);
    let (k2, m2) = norm_pair(x2);
    lemma_lfrac_bound(m1, 24);
    lemma_lfrac_bound(m2, 24);
    assert(pow2(24) == 0x1000000) by {
        vstd::arithmetic::power2::lemma2_to64();
    }
    if k1 > k2 {
        // Impossible: the exponent is monotone in the argument.
        if k2 >= 0 {
            let p1 = pow2(k1 as nat) as int;
            let p2 = pow2(k2 as nat) as int;
            vstd::arithmetic::power2::lemma_pow2_pos(k2 as nat);
            assert(2 * p2 <= p1) by {
                vstd::arithmetic::power2::lemma_pow2_unfold((k2 + 1) as nat);
                if k1 > k2 + 1 {
                    vstd::arithmetic::power2::lemma_pow2_strictly_increases(
                        (k2 + 1) as nat,
                        k1 as nat,
                    );
                }
            }
            assert(x2 < p2 * (m2 + 1));
            assert(p2 * (m2 + 1) <= p2 * (2 * SCALE)) by {
                vstd::arithmetic::mul::lemma_mul_left_inequality(p2, m2 + 1, 2 * SCALE);
            }
            assert(p2 * (2 * SCALE) == (2 * p2) * (SCALE as int)) by (nonlinear_arith);
            assert((2 * p2) * (SCALE as int) <= p1 * (SCALE as int)) by {
                vstd::arithmetic::mul::lemma_mul_inequality(2 * p2, p1, SCALE as int);
            }
            assert(p1 * (SCALE as int) <= p1 * m1) by {
                vstd::arithmetic::mul::lemma_mul_left_inequality(p1, SCALE as int, m1);
            }
            assert(p1 * m1 <= x1);
            assert(false);
        } else {
            // k2 < 0.
            let a2 = (-k2) as nat;
            vstd::arithmetic::power2::lemma_pow2_pos(a2);
            assert(pow2(1) == 2) by {
                vstd::arithmetic::power2::lemma2_to64();
            }
            if k1 >= 0 {
                let p1 = pow2(k1 as nat) as int;
                vstd::arithmetic::power2::lemma_pow2_pos(k1 as nat);
                assert(p1 * m1 >= 1 * (SCALE as int)) by {
                    vstd::arithmetic::mul::lemma_mul_inequality(1, p1, m1);
                    vstd::arithmetic::mul::lemma_mul_is_commutative(p1, m1);
                    vstd::arithmetic::mul::lemma_mul_inequality(SCALE as int, m1, p1);
                    vstd::arithmetic::mul::lemma_mul_is_commutative(m1, p1);
                    vstd::arithmetic::mul::lemma_mul_basics(m1);
                    vstd::arithmetic::mul::lemma_mul_basics(SCALE as int);
                }
                assert(x2 * 2 <= x2 * (pow2(a2) as int)) by {
                    if a2 > 1 {
                        vstd::arithmetic::power2::lemma_pow2_strictly_increases(1, a2);
                    }
                    vstd::arithmetic::mul::lemma_mul_left_inequality(x2, 2, pow2(a2) as int);
                }
                assert(x1 * 2 <= x2 * 2) by {
                    vstd::arithmetic::mul::lemma_mul_inequality(x1, x2, 2);
                    vstd::arithmetic::mul::lemma_mul_is_commutative(x1, 2);
                    vstd::arithmetic::mul::lemma_mul_is_commutative(x2, 2);
                }
                assert(false);
            } else {
                let a1 = (-k1) as nat;
                let d = (a2 - a1) as nat;
                assert(pow2(a2) == pow2(a1) * pow2(d)) by {
                    vstd::arithmetic::power2::lemma_pow2_adds(a1, d);
                }
                assert(m2 == x2 * (pow2(a1) as int) * (pow2(d) as int)) by {
                    vstd::arithmetic::mul::lemma_mul_is_associative(
                        x2,
                        pow2(a1) as int,
                        pow2(d) as int,
                    );
                }
                assert(x1 * (pow2(a1) as int) <= x2 * (pow2(a1) as int)) by {
                    vstd::arithmetic::mul::lemma_mul_inequality(x1, x2, pow2(a1) as int);
                }
                assert(m1 * 2 <= m1 * (pow2(d) as int)) by {
                    assert(pow2(1) == 2) by {
                        vstd::arithmetic::power2::lemma2_to64();
                    }
                    if d > 1 {
                        vstd::arithmetic::power2::lemma_pow2_strictly_increases(1, d);
                    }
                    vstd::arithmetic::mul::lemma_mul_left_inequality(m1, 2, pow2(d) as int);
                }
                assert(m1 * (pow2(d) as int) <= (x2 * (pow2(a1) as int)) * (pow2(d) as int)) by {
                    vstd::arithmetic::mul::lemma_mul_inequality(
                        m1,
                        x2 * (pow2(a1) as int),
                        pow2(d) as int,
                    );
                }
                assert(false);
            }
        }
    } else if k1 == k2 {
        if k1 >= 0 {
            let p = pow2(k1 as nat) as int;
            vstd::arithmetic::power2::lemma_pow2_pos(k1 as nat);
            assert(m1 <= m2) by {
                if m1 > m2 {
                    assert(p * (m2 + 1) <= p * m1) by {
                        vstd::arithmetic::mul::lemma_mul_left_inequality(p, m2 + 1, m1);
                    }
                }
            }
            lemma_lfrac_mono(m1, m2, 24);
        } else {
            let a = (-k1) as nat;
            assert(m1 <= m2) by {
                vstd::arithmetic::mul::lemma_mul_inequality(x1, x2, pow2(a) as int);
            }
            lemma_lfrac_mono(m1, m2, 24);
        }
    }
}

/// Natural logarithm of a positive fixed-point quantity.
pub open spec fn spec_ln(x: int) -> int {
    fxm(spec_log2(x), LN2_FX as int)
}

/// `ln` of a positive quantity, exactly as `spec_ln` gives it.
pub fn fx_ln(x: i64) -> (r: i64)
    requires
        x >= 1,
    ensures
        r as int == spec_ln(x as int),
{
    fx_mul(log2fix(x), LN2_FX)
}

/// Natural exponential: `e^(x / SCALE)`, scaled and saturated into `[1, FX_MAX]`.
pub open spec fn spec_exp(x: int) -> int {
    spec_exp2(fxm(x, LOG2E_FX as int))
}

/// `exp`, exactly as `spec_exp` gives it; always in `[1, FX_MAX]`.
pub fn fx_exp(x: i64) -> (r: i64)
    ensures
        r as int == spec_exp(x as int),
        1 <= r as int <= FX_MAX as int,
{
    exp2fix(fx_mul(x, LOG2E_FX))
}

/// General power `x^(w / SCALE)` for a non-negative base (negative bases are
/// clamped to zero): `2^(w * log2(x))`, with the conventional corner cases
/// `0^0 == 1`, `0^w == 0` for positive `w`, and saturation for negative `w`.
pub open spec fn spec_pow(x: int, w: int) -> int {
    let x0 = if x >= 0 { x } else { 0 };
    if x0 == 0 {
        if w == 0 {
            SCALE as int
        } else if w > 0 {
            0
        } else {
            FX_MAX as int
        }
    } else {
        spec_exp2(fxm(w, spec_log2(x0)))
    }
}

/// Fixed-point power, exactly as `spec_pow` gives it.
pub fn fx_pow(x: i64, w: i64) -> (r: i64)
    ensures
        r as int == spec_pow(x as int, w as int),
        0 <= r as int <= FX_MAX as int,
{
    let x0: i64 = if x >= 0 { x } else { 0 };
    if x0 == 0 {
        if w == 0 {
            SCALE
        } else if w > 0 {
            0
        } else {
            FX_MAX
        }
    } else {
        exp2fix(fx_mul(w, log2fix(x0)))
    }
}

/// The power function is weakly monotone in its base, for a non-negative
/// exponent.
pub proof fn lemma_pow_mono_base(x1: int, x2: int, w: int)
    requires
        x1 <= x2,
        w >= 0,
    ensures
        spec_pow(x1, w) <= spec_pow(x2, w),
{
    let a1 = if x1 >= 0 { x1 } else { 0 };
    let a2 = if x2 >= 0 { x2 } else { 0 };
    if a1 == 0 {
        if a2 == 0 {
        } else if w == 0 {
            lemma_exp2_zero();
            assert(fxm(0, spec_log2(a2)) == 0) by {
                vstd::arithmetic::mul::lemma_mul_by_zero_is_zero(spec_log2(a2));
            }
        } else {
            lemma_exp2_range(fxm(w, spec_log2(a2)));
        }
    } else {
        lemma_log2_mono(a1, a2);
        crate::fixed::lemma_fxm_mono(spec_log2(a1), spec_log2(a2), w);
        lemma_exp2_mono(fxm(w, spec_log2(a1)), fxm(w, spec_log2(a2)));
    }
}

/// Integer power of a fixed-point base: `n`-fold saturating product.
pub open spec fn spec_powi(b: int, n: nat) -> int
    decreases n,
{
    if n == 0 {
        SCALE as int
    } else {
        fxm(spec_powi(b, (n - 1) as nat), b)
    }
}

/// `b^n` for a machine-integer exponent, exactly as `spec_powi` gives it.
pub fn fx_powi(b: i64, n: u64) -> (r: i64)
    ensures
        r as int == spec_powi(b as int, n as nat),
{
    let mut acc: i64 = SCALE;
    let mut i: u64 = 0;
    while i < n
        invariant
            0 <= i <= n,
            acc as int == spec_powi(b as int, i as nat),
        decreases n - i,
    {
        acc = fx_mul(acc, b);
        i = i + 1;
    }
    acc
}

/// Fixed-point square root of a non-negative quantity:
/// `sqrt(x / SCALE) * SCALE`, rounded down.
pub fn fx_sqrt(x: i64) -> (r: i64)
    requires
        x >= 0,
    ensures
        r as int == sisqrt((x as int) * (SCALE as int)),
        r >= 0,
{
    proof {
        vstd::arithmetic::mul::lemma_mul_upper_bound(
            x as int,
            0x7fffffffffffffff,
            SCALE as int,
            0x1000000,
        );
        assert(0x7fffffffffffffff * 0x1000000 < 0x10000000000000000000000) by (nonlinear_arith);
        vstd::arithmetic::mul::lemma_mul_nonnegative(x as int, SCALE as int);
        lemma_sisqrt_props((x as int) * (SCALE as int));
        // The root of a value below 2^88 fits comfortably in i64.
        let arg = (x as int) * (SCALE as int);
        let rt = sisqrt(arg);
        if rt > 0x100000000000 {
            vstd::arithmetic::mul::lemma_mul_inequality(0x100000000000int + 1, rt, rt);
            vstd::arithmetic::mul::lemma_mul_inequality(0x100000000000int + 1, rt, 0x100000000000int + 1);
            assert((0x100000000000 + 1) * (0x100000000000 + 1) > 0x10000000000000000000000)
                by (nonlinear_arith);
        }
    }
    let arg: u128 = (x as u128) * (SCALE as u128);
    let r = isqrt(arg);
    r as i64
}

} // verus!
