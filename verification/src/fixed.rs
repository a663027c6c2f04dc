//! Saturating signed fixed-point arithmetic.
//!
//! A quantity is an `i64` holding `value * SCALE`, with `SCALE = 2^24`.
//! Every operation clamps its result into `[FX_MIN, FX_MAX]` and is specified
//! exactly: the contract of each executable function gives the returned
//! integer as a closed-form function of the arguments.

use vstd::prelude::*;

verus! {

/// Number of fractional bits of the fixed-point representation.
pub const FRAC_BITS: u32 = 24;

/// One, in fixed-point representation: `2^FRAC_BITS`.
pub const SCALE: i64 = 16777216;

/// Largest representable fixed-point quantity (`2^62`).
pub const FX_MAX: i64 = 4611686018427387904;

/// Smallest representable fixed-point quantity (`-2^62`).
pub const FX_MIN: i64 = -4611686018427387904;

/// Clamp an unbounded integer into the representable range.
pub open spec fn sat64(x: int) -> int {
    if x > FX_MAX { FX_MAX as int } else if x < FX_MIN { FX_MIN as int } else { x }
}

/// Absolute value of an unbounded integer.
pub open spec fn sabs(x: int) -> int {
    if x >= 0 { x } else { -x }
}

/// Division truncated toward zero, total: division by zero yields zero.
pub open spec fn divt(a: int, b: int) -> int {
    if b == 0 {
        0
    } else if (a >= 0) == (b > 0) {
        sabs(a) / sabs(b)
    } else {
        -(sabs(a) / sabs(b))
    }
}

/// Saturating fixed-point addition.
pub open spec fn fxadd(a: int, b: int) -> int {
    sat64(a + b)
}

/// Saturating fixed-point subtraction.
pub open spec fn fxsub(a: int, b: int) -> int {
    sat64(a - b)
}

/// Saturating fixed-point multiplication: `a * b / SCALE`, truncated toward zero.
pub open spec fn fxm(a: int, b: int) -> int {
    sat64(divt(a * b, SCALE as int))
}

/// Saturating fixed-point division: `a * SCALE / b`, truncated toward zero;
/// zero when `b == 0`.
pub open spec fn fxd(a: int, b: int) -> int {
    if b == 0 { 0 } else { sat64(divt(a * (SCALE as int), b)) }
}

/// The magnitude of a product is the product of the magnitudes.
pub proof fn lemma_abs_mul(a: int, b: int)
    ensures
        sabs(a * b) == sabs(a) * sabs(b),
{
    if a >= 0 && b >= 0 {
        vstd::arithmetic::mul::lemma_mul_nonnegative(a, b);
    } else if a >= 0 {
        vstd::arithmetic::mul::lemma_mul_nonnegative(a, -b);
        assert(a * (-b) == -(a * b)) by {
            vstd::arithmetic::mul::lemma_mul_unary_negation(b, a);
            vstd::arithmetic::mul::lemma_mul_is_commutative(a, b);
            vstd::arithmetic::mul::lemma_mul_is_commutative(a, -b);
        }
    } else if b >= 0 {
        vstd::arithmetic::mul::lemma_mul_nonnegative(-a, b);
        assert((-a) * b == -(a * b)) by {
            vstd::arithmetic::mul::lemma_mul_unary_negation(a, b);
        }
    } else {
        vstd::arithmetic::mul::lemma_mul_nonnegative(-a, -b);
        assert((-a) * (-b) == a * b) by {
            vstd::arithmetic::mul::lemma_mul_cancels_negatives(a, b);
        }
    }
}

/// Sign of a product, by cases on the signs of the factors.
pub proof fn lemma_mul_sign(a: int, b: int)
    ensures
        (a >= 0 && b >= 0) ==> a * b >= 0,
        (a <= 0 && b <= 0) ==> a * b >= 0,
        (a >= 0 && b <= 0) ==> a * b <= 0,
        (a <= 0 && b >= 0) ==> a * b <= 0,
{
    if a >= 0 && b >= 0 {
        vstd::arithmetic::mul::lemma_mul_nonnegative(a, b);
    }
    if a <= 0 && b <= 0 {
        vstd::arithmetic::mul::lemma_mul_nonnegative(-a, -b);
        vstd::arithmetic::mul::lemma_mul_cancels_negatives(a, b);
    }
    if a >= 0 && b <= 0 {
        vstd::arithmetic::mul::lemma_mul_nonnegative(a, -b);
        vstd::arithmetic::mul::lemma_mul_unary_negation(b, a);
        vstd::arithmetic::mul::lemma_mul_is_commutative(a, b);
        vstd::arithmetic::mul::lemma_mul_is_commutative(a, -b);
    }
    if a <= 0 && b >= 0 {
        vstd::arithmetic::mul::lemma_mul_nonnegative(-a, b);
        vstd::arithmetic::mul::lemma_mul_unary_negation(a, b);
    }
}

/// Clamp an `i128` intermediate into the representable `i64` range.
pub fn clamp128(v: i128) -> (r: i64)
    ensures
        r as int == sat64(v as int),
{
    if v > FX_MAX as i128 {
        FX_MAX
    } else if v < FX_MIN as i128 {
        FX_MIN
    } else {
        v as i64
    }
}

/// Magnitude of an `i64`, as `u128`.
fn mag64(a: i64) -> (r: u128)
    ensures
        r as int == sabs(a as int),
{
    if a >= 0 {
        a as u128
    } else {
        (-(a as i128)) as u128
    }
}

/// Saturating addition.
pub fn fx_add(a: i64, b: i64) -> (r: i64)
    ensures
        r as int == fxadd(a as int, b as int),
{
    clamp128(a as i128 + b as i128)
}

/// Saturating subtraction.
pub fn fx_sub(a: i64, b: i64) -> (r: i64)
    ensures
        r as int == fxsub(a as int, b as int),
{
    clamp128(a as i128 - b as i128)
}

/// Saturating negation.
pub fn fx_neg(a: i64) -> (r: i64)
    ensures
        r as int == sat64(-(a as int)),
{
    clamp128(-(a as i128))
}

/// Saturating fixed-point multiplication.
pub fn fx_mul(a: i64, b: i64) -> (r: i64)
    ensures
        r as int == fxm(a as int, b as int),
{
    let neg: bool = (a < 0) != (b < 0);
    let am: u128 = mag64(a);
    let bm: u128 = mag64(b);
    proof {
        vstd::arithmetic::mul::lemma_mul_upper_bound(
            am as int,
            0x8000000000000000,
            bm as int,
            0x8000000000000000,
        );
    }
    let q: u128 = (am * bm) / (SCALE as u128);
    proof {
        assert(am * bm == sabs(a as int) * sabs(b as int));
        lemma_abs_mul(a as int, b as int);
        lemma_mul_sign(a as int, b as int);
        vstd::arithmetic::div_mod::lemma_div_nonincreasing((am * bm) as int, SCALE as int);
        vstd::arithmetic::div_mod::lemma_div_pos_is_pos((am * bm) as int, SCALE as int);
    }
    if neg {
        clamp128(-((q as i128)))
    } else {
        clamp128(q as i128)
    }
}

/// Saturating fixed-point division; returns zero when the divisor is zero.
pub fn fx_div(a: i64, b: i64) -> (r: i64)
    ensures
        r as int == fxd(a as int, b as int),
{
    if b == 0 {
        return 0;
    }
    let neg: bool = (a < 0) != (b < 0);
    let am: u128 = mag64(a);
    let bm: u128 = mag64(b);
    let q: u128 = (am * (SCALE as u128)) / bm;
    proof {
        assert(am * (SCALE as u128) == sabs(a as int) * (SCALE as int));
        lemma_abs_mul(a as int, SCALE as int);
        vstd::arithmetic::div_mod::lemma_div_nonincreasing(
            (am * (SCALE as u128)) as int,
            bm as int,
        );
        vstd::arithmetic::div_mod::lemma_div_pos_is_pos(
            (am * (SCALE as u128)) as int,
            bm as int,
        );
    }
    if neg {
        clamp128(-((q as i128)))
    } else {
        clamp128(q as i128)
    }
}

/// Truncated division toward zero is monotone in the numerator, for a
/// positive denominator.
pub proof fn lemma_divt_mono(a1: int, a2: int, b: int)
    requires
        a1 <= a2,
        b > 0,
    ensures
        divt(a1, b) <= divt(a2, b),
{
    if a1 >= 0 {
        vstd::arithmetic::div_mod::lemma_div_is_ordered(a1, a2, b);
    } else if a2 >= 0 {
        vstd::arithmetic::div_mod::lemma_div_pos_is_pos(-a1, b);
        vstd::arithmetic::div_mod::lemma_div_pos_is_pos(a2, b);
    } else {
        vstd::arithmetic::div_mod::lemma_div_is_ordered(-a2, -a1, b);
    }
}

/// Saturating clamping is monotone.
pub proof fn lemma_sat64_mono(x1: int, x2: int)
    requires
        x1 <= x2,
    ensures
        sat64(x1) <= sat64(x2),
{
}

/// Multiplication by a non-negative quantity is monotone.
pub proof fn lemma_fxm_mono(a1: int, a2: int, c: int)
    requires
        a1 <= a2,
        c >= 0,
    ensures
        fxm(a1, c) <= fxm(a2, c),
        fxm(c, a1) <= fxm(c, a2),
{
    vstd::arithmetic::mul::lemma_mul_inequality(a1, a2, c);
    lemma_divt_mono(a1 * c, a2 * c, SCALE as int);
    lemma_sat64_mono(divt(a1 * c, SCALE as int), divt(a2 * c, SCALE as int));
    assert(a1 * c == c * a1) by {
        vstd::arithmetic::mul::lemma_mul_is_commutative(a1, c);
    }
    assert(a2 * c == c * a2) by {
        vstd::arithmetic::mul::lemma_mul_is_commutative(a2, c);
    }
}

/// A sequence of machine integers, as unbounded integers.
pub open spec fn ints(s: Seq<i64>) -> Seq<int> {
    s.map_values(|x: i64| x as int)
}

/// Saturating left-to-right sum of a sequence of quantities.
pub open spec fn sum_sat(s: Seq<int>) -> int
    decreases s.len(),
{
    if s.len() == 0 {
        0
    } else {
        fxadd(sum_sat(s.drop_last()), s.last())
    }
}

/// Saturating sum of a vector, exactly as `sum_sat` gives it.
pub fn fx_sum(v: &Vec<i64>) -> (r: i64)
    ensures
        r as int == sum_sat(ints(v@)),
{
    let mut acc: i64 = 0;
    let mut i: usize = 0;
    while i < v.len()
        invariant
            0 <= i <= v@.len(),
            acc as int == sum_sat(ints(v@).take(i as int)),
        decreases v@.len() - i,
    {
        proof {
            assert(ints(v@).take(i as int + 1).drop_last() =~= ints(v@).take(i as int));
        }
        acc = fx_add(acc, v[i]);
        i = i + 1;
    }
    proof {
        assert(ints(v@).take(v@.len() as int) =~= ints(v@));
    }
    acc
}

/// The saturating sum of a sequence of non-negative quantities is
/// non-negative, and zero when every term is zero.
pub proof fn lemma_sum_sat_nonneg(s: Seq<int>)
    requires
        forall|i: int| 0 <= i < s.len() ==> #[trigger] s[i] >= 0,
    ensures
        sum_sat(s) >= 0,
        (forall|i: int| 0 <= i < s.len() ==> #[trigger] s[i] == 0) ==> sum_sat(s) == 0,
    decreases s.len(),
{
    if s.len() > 0 {
        lemma_sum_sat_nonneg(s.drop_last());
    }
}

/// Truncated division by a positive machine integer, exactly `divt`.
pub fn fx_divi(a: i64, b: i64) -> (r: i64)
    requires
        b >= 1,
    ensures
        r as int == divt(a as int, b as int),
{
    let am: u128 = mag64(a);
    let q: u128 = am / (b as u128);
    proof {
        vstd::arithmetic::div_mod::lemma_div_nonincreasing(am as int, b as int);
        vstd::arithmetic::div_mod::lemma_div_pos_is_pos(am as int, b as int);
    }
    if a < 0 {
        (-(q as i128)) as i64
    } else {
        q as i64
    }
}

/// The saturated square of a quantity is non-negative.
pub proof fn lemma_fxm_square_nonneg(d: int)
    ensures
        fxm(d, d) >= 0,
{
    if d >= 0 {
        vstd::arithmetic::mul::lemma_mul_nonnegative(d, d);
    } else {
        vstd::arithmetic::mul::lemma_mul_cancels_negatives(d, d);
        vstd::arithmetic::mul::lemma_mul_nonnegative(-d, -d);
    }
    if d * d > 0 {
        vstd::arithmetic::div_mod::lemma_div_pos_is_pos(d * d, SCALE as int);
    }
}

/// Truncated division by a positive count, exactly `divt`.
pub fn fx_divu(a: i64, b: usize) -> (r: i64)
    requires
        b >= 1,
    ensures
        r as int == divt(a as int, b as int),
{
    let am: u128 = mag64(a);
    let q: u128 = am / (b as u128);
    proof {
        vstd::arithmetic::div_mod::lemma_div_nonincreasing(am as int, b as int);
        vstd::arithmetic::div_mod::lemma_div_pos_is_pos(am as int, b as int);
    }
    if a < 0 {
        (-(q as i128)) as i64
    } else {
        q as i64
    }
}

/// Mathematical (non-saturating) sum of a sequence.
pub open spec fn sum_int(s: Seq<int>) -> int
    decreases s.len(),
{
    if s.len() == 0 {
        0
    } else {
        sum_int(s.drop_last()) + s.last()
    }
}

/// When the mathematical sum of non-negative terms stays representable, the
/// saturating sum equals it, and every term is below it.
pub proof fn lemma_sum_sat_exact(s: Seq<int>)
    requires
        forall|i: int| 0 <= i < s.len() ==> 0 <= #[trigger] s[i],
        sum_int(s) <= FX_MAX as int,
    ensures
        sum_sat(s) == sum_int(s),
        forall|i: int| 0 <= i < s.len() ==> #[trigger] s[i] <= sum_int(s),
        sum_int(s) >= 0,
    decreases s.len(),
{
    if s.len() > 0 {
        lemma_sum_int_nonneg(s.drop_last());
        lemma_sum_sat_exact(s.drop_last());
        assert forall|i: int| 0 <= i < s.len() implies #[trigger] s[i] <= sum_int(s) by {
            if i < s.len() - 1 {
                assert(s.drop_last()[i] == s[i]);
            }
        }
    }
}

/// A sum of non-negative terms is non-negative.
pub proof fn lemma_sum_int_nonneg(s: Seq<int>)
    requires
        forall|i: int| 0 <= i < s.len() ==> 0 <= #[trigger] s[i],
    ensures
        sum_int(s) >= 0,
    decreases s.len(),
{
    if s.len() > 0 {
        lemma_sum_int_nonneg(s.drop_last());
    }
}

/// Truncated division is superadditive on non-negative numerators.
pub proof fn lemma_divt_superadd(a: int, b: int, d: int)
    requires
        a >= 0,
        b >= 0,
        d > 0,
    ensures
        divt(a, d) + divt(b, d) <= divt(a + b, d),
{
    let qa = a / d;
    let qb = b / d;
    vstd::arithmetic::div_mod::lemma_fundamental_div_mod(a, d);
    vstd::arithmetic::div_mod::lemma_fundamental_div_mod(b, d);
    vstd::arithmetic::div_mod::lemma_remainder_lower(a, d);
    vstd::arithmetic::div_mod::lemma_remainder_lower(b, d);
    vstd::arithmetic::div_mod::lemma_div_pos_is_pos(a, d);
    vstd::arithmetic::div_mod::lemma_div_pos_is_pos(b, d);
    assert((qa + qb) * d == qa * d + qb * d) by {
        vstd::arithmetic::mul::lemma_mul_is_distributive_add_other_way(d, qa, qb);
        vstd::arithmetic::mul::lemma_mul_is_commutative(qa, d);
        vstd::arithmetic::mul::lemma_mul_is_commutative(qb, d);
        vstd::arithmetic::mul::lemma_mul_is_commutative(qa + qb, d);
    }
    assert((qa + qb) * d <= a + b);
    assert(divt((qa + qb) * d, d) == qa + qb) by {
        vstd::arithmetic::mul::lemma_mul_nonnegative(qa + qb, d);
        vstd::arithmetic::div_mod::lemma_div_by_multiple(qa + qb, d);
    }
    lemma_divt_mono((qa + qb) * d, a + b, d);
}

/// A prefix sum of non-negative terms is non-negative.
pub proof fn lemma_sum_int_nonneg_take(s: Seq<int>, k: int)
    requires
        forall|i: int| 0 <= i < s.len() ==> 0 <= #[trigger] s[i],
        0 <= k <= s.len(),
    ensures
        sum_int(s.take(k)) >= 0,
{
    assert forall|i: int| 0 <= i < s.take(k).len() implies 0 <= #[trigger] s.take(k)[i] by {
        assert(s.take(k)[i] == s[i]);
    }
    lemma_sum_int_nonneg(s.take(k));
}

} // verus!
