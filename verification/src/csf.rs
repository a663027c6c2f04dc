//! Contest-success functions: mapping contest outputs to allocation shares.

use vstd::prelude::*;

use crate::fixed::{fxadd, fxd, fxm, ints, sum_int, sum_sat, FX_MAX, SCALE};
use crate::fixed::{divt};
use crate::fixed::{fx_add, fx_div, fx_mul, fx_sum};

verus! {

/// Mathematical model of a contest-success function.
pub enum CsfM {
    Default,
    MaybeNoWin { scale: int },
}

/// Allocation share of player `i` under model `c`, given contest outputs `p`.
pub open spec fn csf_q_i(c: CsfM, p: Seq<int>, i: int) -> int {
    match c {
        CsfM::Default => {
            let total = sum_sat(p);
            if total == 0 {
                0
            } else {
                fxd(p[i], total)
            }
        },
        CsfM::MaybeNoWin { scale } => {
            fxd(fxm(scale, p[i]), fxadd(SCALE as int, fxm(scale, sum_sat(p))))
        },
    }
}

/// Normalized-share contest success: `q_i = p_i / sum(p)`, with `0/0 == 0`.
#[derive(Clone, Copy, Debug, PartialEq, Eq, Structural)]
pub struct DefaultCSF;

impl DefaultCSF {
    /// Share of player `i`.
    pub fn q_i(&self, i: usize, p: &Vec<i64>) -> (r: i64)
        requires
            i < p@.len(),
        ensures
            r as int == csf_q_i(CsfM::Default, ints(p@), i as int),
    {
        let total = fx_sum(p);
        if total == 0 {
            0
        } else {
            fx_div(p[i], total)
        }
    }

    /// Shares of all players.
    pub fn q(&self, p: &Vec<i64>) -> (r: Vec<i64>)
        ensures
            r@.len() == p@.len(),
            forall|i: int|
                0 <= i < p@.len() ==> (#[trigger] r@[i]) as int == csf_q_i(
                    CsfM::Default,
                    ints(p@),
                    i,
                ),
    {
        let n = p.len();
        let mut out: Vec<i64> = Vec::new();
        let mut i: usize = 0;
        while i < n
            invariant
                0 <= i <= n,
                n == p@.len(),
                out@.len() == i,
                forall|q: int|
                    0 <= q < i ==> (#[trigger] out@[q]) as int == csf_q_i(
                        CsfM::Default,
                        ints(p@),
                        q,
                    ),
            decreases n - i,
        {
            let ghost out_old = out@;
            let v = self.q_i(i, p);
            out.push(v);
            proof {
                assert forall|q: int| 0 <= q <= i as int implies (#[trigger] out@[q]) as int
                    == csf_q_i(CsfM::Default, ints(p@), q) by {
                    if q < i as int {
                        assert(out@[q] == out_old[q]);
                    } else {
                        assert(out@[q] == v);
                    }
                }
            }
            i = i + 1;
        }
        out
    }
}

/// Contest success with a "no-one-wins" residual:
/// `q_i = c * p_i / (1 + c * sum(p))`.
#[derive(Clone, Copy, Debug, PartialEq, Eq, Structural)]
pub struct MaybeNoWinCSF {
    pub scale: i64,
}

impl MaybeNoWinCSF {
    /// With the given scale parameter.
    pub fn new(scale: i64) -> (r: MaybeNoWinCSF)
        ensures
            r.scale == scale,
    {
        MaybeNoWinCSF { scale }
    }

    /// Share of player `i`.
    pub fn q_i(&self, i: usize, p: &Vec<i64>) -> (r: i64)
        requires
            i < p@.len(),
        ensures
            r as int == csf_q_i(CsfM::MaybeNoWin { scale: self.scale as int }, ints(p@), i as int),
    {
        let total = fx_sum(p);
        fx_div(fx_mul(self.scale, p[i]), fx_add(SCALE, fx_mul(self.scale, total)))
    }

    /// Shares of all players.
    pub fn q(&self, p: &Vec<i64>) -> (r: Vec<i64>)
        ensures
            r@.len() == p@.len(),
            forall|i: int|
                0 <= i < p@.len() ==> (#[trigger] r@[i]) as int == csf_q_i(
                    CsfM::MaybeNoWin { scale: self.scale as int },
                    ints(p@),
                    i,
                ),
    {
        let n = p.len();
        let mut out: Vec<i64> = Vec::new();
        let mut i: usize = 0;
        while i < n
            invariant
                0 <= i <= n,
                n == p@.len(),
                out@.len() == i,
                forall|q: int|
                    0 <= q < i ==> (#[trigger] out@[q]) as int == csf_q_i(
                        CsfM::MaybeNoWin { scale: self.scale as int },
                        ints(p@),
                        q,
                    ),
            decreases n - i,
        {
            let ghost out_old = out@;
            let v = self.q_i(i, p);
            out.push(v);
            proof {
                assert forall|q: int| 0 <= q <= i as int implies (#[trigger] out@[q]) as int
                    == csf_q_i(CsfM::MaybeNoWin { scale: self.scale as int }, ints(p@), q) by {
                    if q < i as int {
                        assert(out@[q] == out_old[q]);
                    } else {
                        assert(out@[q] == v);
                    }
                }
            }
            i = i + 1;
        }
        out
    }
}

impl Default for MaybeNoWinCSF {
    /// Unit scale.
    fn default() -> (r: MaybeNoWinCSF)
        ensures
            r.scale == SCALE,
    {
        MaybeNoWinCSF { scale: SCALE }
    }
}

/// Either contest-success function, as held by a payoff function.
#[derive(Clone, Copy, Debug, PartialEq, Eq, Structural)]
pub enum Csf {
    Default(DefaultCSF),
    MaybeNoWin(MaybeNoWinCSF),
}

impl View for Csf {
    type V = CsfM;

    open spec fn view(&self) -> CsfM {
        match self {
            Csf::Default(_) => CsfM::Default,
            Csf::MaybeNoWin(c) => CsfM::MaybeNoWin { scale: c.scale as int },
        }
    }
}

impl Csf {
    /// Share of player `i`.
    pub fn q_i(&self, i: usize, p: &Vec<i64>) -> (r: i64)
        requires
            i < p@.len(),
        ensures
            r as int == csf_q_i(self@, ints(p@), i as int),
    {
        match self {
            Csf::Default(c) => c.q_i(i, p),
            Csf::MaybeNoWin(c) => c.q_i(i, p),
        }
    }

    /// Shares of all players.
    pub fn q(&self, p: &Vec<i64>) -> (r: Vec<i64>)
        ensures
            r@.len() == p@.len(),
            forall|i: int|
                0 <= i < p@.len() ==> (#[trigger] r@[i]) as int == csf_q_i(self@, ints(p@), i),
    {
        match self {
            Csf::Default(c) => c.q(p),
            Csf::MaybeNoWin(c) => c.q(p),
        }
    }
}

/// All players' shares.
pub open spec fn csf_q_seq(c: CsfM, p: Seq<int>) -> Seq<int> {
    Seq::new(p.len(), |i: int| csf_q_i(c, p, i))
}

/// Helper induction: partial share sums are bounded by the scaled partial
/// output sums over the total.
proof fn lemma_qsum_default(p: Seq<int>, k: int)
    requires
        forall|i: int| 0 <= i < p.len() ==> 0 <= #[trigger] p[i],
        sum_int(p) <= FX_MAX as int,
        sum_sat(p) > 0,
        0 <= k <= p.len(),
    ensures
        sum_int(csf_q_seq(CsfM::Default, p).take(k)) <= divt(
            sum_int(p.take(k)) * (SCALE as int),
            sum_sat(p),
        ),
        sum_int(p.take(k)) >= 0,
        forall|i: int|
            0 <= i < p.len() ==> 0 <= #[trigger] csf_q_seq(CsfM::Default, p)[i] <= SCALE as int,
    decreases k,
{
    let total = sum_sat(p);
    crate::fixed::lemma_sum_sat_exact(p);
    assert forall|i: int| 0 <= i < p.len() implies 0 <= #[trigger] csf_q_seq(CsfM::Default, p)[i]
        <= SCALE as int by {
        assert(p[i] <= sum_int(p));
        assert(p[i] * (SCALE as int) <= total * (SCALE as int)) by {
            vstd::arithmetic::mul::lemma_mul_inequality(p[i], total, SCALE as int);
        }
        assert(divt(total * (SCALE as int), total) == SCALE as int) by {
            vstd::arithmetic::mul::lemma_mul_nonnegative(total, SCALE as int);
            vstd::arithmetic::mul::lemma_mul_is_commutative(total, SCALE as int);
            vstd::arithmetic::div_mod::lemma_div_by_multiple(SCALE as int, total);
        }
        vstd::arithmetic::mul::lemma_mul_nonnegative(p[i], SCALE as int);
        crate::fixed::lemma_divt_mono(p[i] * (SCALE as int), total * (SCALE as int), total);
        vstd::arithmetic::div_mod::lemma_div_pos_is_pos(p[i] * (SCALE as int), total);
    }
    if k > 0 {
        lemma_qsum_default(p, k - 1);
        let qs = csf_q_seq(CsfM::Default, p);
        assert(qs.take(k).drop_last() =~= qs.take(k - 1));
        assert(p.take(k).drop_last() =~= p.take(k - 1));
        let pk = p[k - 1];
        let qk = qs[k - 1];
        assert(qk == divt(pk * (SCALE as int), total)) by {
            assert(pk * (SCALE as int) <= total * (SCALE as int)) by {
                vstd::arithmetic::mul::lemma_mul_inequality(pk, total, SCALE as int);
            }
            assert(divt(total * (SCALE as int), total) == SCALE as int) by {
                vstd::arithmetic::mul::lemma_mul_nonnegative(total, SCALE as int);
                vstd::arithmetic::mul::lemma_mul_is_commutative(total, SCALE as int);
                vstd::arithmetic::div_mod::lemma_div_by_multiple(SCALE as int, total);
            }
            vstd::arithmetic::mul::lemma_mul_nonnegative(pk, SCALE as int);
            crate::fixed::lemma_divt_mono(pk * (SCALE as int), total * (SCALE as int), total);
            vstd::arithmetic::div_mod::lemma_div_pos_is_pos(pk * (SCALE as int), total);
        }
        vstd::arithmetic::mul::lemma_mul_nonnegative(sum_int(p.take(k - 1)), SCALE as int);
        vstd::arithmetic::mul::lemma_mul_nonnegative(pk, SCALE as int);
        crate::fixed::lemma_divt_superadd(
            sum_int(p.take(k - 1)) * (SCALE as int),
            pk * (SCALE as int),
            total,
        );
        assert(sum_int(p.take(k - 1)) * (SCALE as int) + pk * (SCALE as int) == sum_int(p.take(k))
            * (SCALE as int)) by {
            vstd::arithmetic::mul::lemma_mul_is_distributive_add_other_way(
                SCALE as int,
                sum_int(p.take(k - 1)),
                pk,
            );
        }
        crate::fixed::lemma_divt_mono(
            sum_int(p.take(k - 1)) * (SCALE as int),
            sum_int(p.take(k - 1)) * (SCALE as int),
            total,
        );
    }
}

/// Normalized shares sum to at most one: for any non-negative output vector
/// whose total is representable, the default contest-success shares are each
/// in `[0, 1]` and sum to at most one.
pub proof fn lemma_default_csf_sum(p: Seq<int>)
    requires
        forall|i: int| 0 <= i < p.len() ==> 0 <= #[trigger] p[i],
        sum_int(p) <= FX_MAX as int,
    ensures
        sum_int(csf_q_seq(CsfM::Default, p)) <= SCALE as int,
        forall|i: int|
            0 <= i < p.len() ==> 0 <= #[trigger] csf_q_seq(CsfM::Default, p)[i] <= SCALE as int,
{
    crate::fixed::lemma_sum_sat_exact(p);
    let total = sum_sat(p);
    if total == 0 {
        assert forall|i: int| 0 <= i < p.len() implies 0 <= #[trigger] csf_q_seq(
            CsfM::Default,
            p,
        )[i] <= SCALE as int by {
        }
        lemma_sum_int_pointwise_zero(csf_q_seq(CsfM::Default, p));
    } else {
        lemma_qsum_default(p, p.len() as int);
        assert(csf_q_seq(CsfM::Default, p).take(p.len() as int) =~= csf_q_seq(CsfM::Default, p));
        assert(p.take(p.len() as int) =~= p);
        assert(divt(sum_int(p) * (SCALE as int), total) == SCALE as int) by {
            vstd::arithmetic::mul::lemma_mul_nonnegative(total, SCALE as int);
            vstd::arithmetic::mul::lemma_mul_is_commutative(total, SCALE as int);
            vstd::arithmetic::div_mod::lemma_div_by_multiple(SCALE as int, total);
        }
    }
}

/// A sequence of zeros sums to zero.
proof fn lemma_sum_int_pointwise_zero(s: Seq<int>)
    requires
        forall|i: int| 0 <= i < s.len() ==> #[trigger] s[i] == 0,
    ensures
        sum_int(s) == 0,
    decreases s.len(),
{
    if s.len() > 0 {
        lemma_sum_int_pointwise_zero(s.drop_last());
    }
}

/// An all-zero output vector allocates nothing to anyone, under either
/// contest-success function.
pub proof fn lemma_csf_zero(c: CsfM, p: Seq<int>)
    requires
        forall|i: int| 0 <= i < p.len() ==> #[trigger] p[i] == 0,
    ensures
        forall|i: int| 0 <= i < p.len() ==> #[trigger] csf_q_i(c, p, i) == 0,
{
    lemma_zero_sum_sat(p);
    assert forall|i: int| 0 <= i < p.len() implies #[trigger] csf_q_i(c, p, i) == 0 by {
        match c {
            CsfM::Default => {
            },
            CsfM::MaybeNoWin { scale } => {
                assert(fxm(scale, p[i]) == 0) by {
                    vstd::arithmetic::mul::lemma_mul_by_zero_is_zero(scale);
                }
                assert(fxm(scale, sum_sat(p)) == 0) by {
                    vstd::arithmetic::mul::lemma_mul_by_zero_is_zero(scale);
                }
            },
        }
    }
}

/// A sequence of zeros has saturating sum zero.
proof fn lemma_zero_sum_sat(s: Seq<int>)
    requires
        forall|i: int| 0 <= i < s.len() ==> #[trigger] s[i] == 0,
    ensures
        sum_sat(s) == 0,
    decreases s.len(),
{
    if s.len() > 0 {
        lemma_zero_sum_sat(s.drop_last());
    }
}

/// The scaled outputs under the no-win CSF's numerators.
pub open spec fn no_win_num_seq(scale: int, p: Seq<int>) -> Seq<int> {
    Seq::new(p.len(), |i: int| fxm(scale, p[i]))
}

/// Helper induction: partial sums of the scaled outputs are bounded by the
/// scaled total.
proof fn lemma_no_win_nums(scale: int, p: Seq<int>, k: int)
    requires
        scale >= 0,
        forall|i: int| 0 <= i < p.len() ==> 0 <= #[trigger] p[i],
        sum_int(p) <= FX_MAX as int,
        fxm(scale, sum_sat(p)) < FX_MAX as int,
        0 <= k <= p.len(),
    ensures
        0 <= sum_int(no_win_num_seq(scale, p).take(k)) <= divt(
            scale * sum_int(p.take(k)),
            SCALE as int,
        ),
        divt(scale * sum_int(p.take(k)), SCALE as int) <= fxm(scale, sum_sat(p)),
        forall|i: int|
            0 <= i < p.len() ==> #[trigger] no_win_num_seq(scale, p)[i] == divt(
                scale * p[i],
                SCALE as int,
            ) && 0 <= no_win_num_seq(scale, p)[i],
    decreases k,
{
    crate::fixed::lemma_sum_sat_exact(p);
    let total = sum_int(p);
    let raw_m = divt(scale * total, SCALE as int);
    assert(0 <= raw_m) by {
        vstd::arithmetic::mul::lemma_mul_nonnegative(scale, total);
        vstd::arithmetic::div_mod::lemma_div_pos_is_pos(scale * total, SCALE as int);
    }
    assert(fxm(scale, total) == raw_m && raw_m < FX_MAX as int);
    assert forall|i: int| 0 <= i < p.len() implies #[trigger] no_win_num_seq(scale, p)[i] == divt(
        scale * p[i],
        SCALE as int,
    ) && 0 <= no_win_num_seq(scale, p)[i] by {
        vstd::arithmetic::mul::lemma_mul_nonnegative(scale, p[i]);
        vstd::arithmetic::div_mod::lemma_div_pos_is_pos(scale * p[i], SCALE as int);
        assert(scale * p[i] <= scale * total) by {
            vstd::arithmetic::mul::lemma_mul_inequality(p[i], total, scale);
                vstd::arithmetic::mul::lemma_mul_is_commutative(p[i], scale);
                vstd::arithmetic::mul::lemma_mul_is_commutative(total, scale);
        }
        crate::fixed::lemma_divt_mono(scale * p[i], scale * total, SCALE as int);
    }
    if k > 0 {
        lemma_no_win_nums(scale, p, k - 1);
        let es = no_win_num_seq(scale, p);
        assert(es.take(k).drop_last() =~= es.take(k - 1));
        assert(p.take(k).drop_last() =~= p.take(k - 1));
        crate::fixed::lemma_sum_int_nonneg(p.take(k - 1));
        vstd::arithmetic::mul::lemma_mul_nonnegative(scale, sum_int(p.take(k - 1)));
        vstd::arithmetic::mul::lemma_mul_nonnegative(scale, p[k - 1]);
        crate::fixed::lemma_divt_superadd(
            scale * sum_int(p.take(k - 1)),
            scale * p[k - 1],
            SCALE as int,
        );
        assert(scale * sum_int(p.take(k - 1)) + scale * p[k - 1] == scale * sum_int(p.take(k)))
            by {
            vstd::arithmetic::mul::lemma_mul_is_distributive_add(
                scale,
                sum_int(p.take(k - 1)),
                p[k - 1],
            );
        }
        assert(sum_int(p.take(k)) <= total) by {
            lemma_sum_take_le(p, k);
        }
        assert(scale * sum_int(p.take(k)) <= scale * total) by {
            vstd::arithmetic::mul::lemma_mul_inequality(sum_int(p.take(k)), total, scale);
                vstd::arithmetic::mul::lemma_mul_is_commutative(sum_int(p.take(k)), scale);
                vstd::arithmetic::mul::lemma_mul_is_commutative(total, scale);
        }
        crate::fixed::lemma_divt_mono(scale * sum_int(p.take(k)), scale * total, SCALE as int);
    }
}

/// A prefix of non-negative terms sums to no more than the whole.
proof fn lemma_sum_take_le(p: Seq<int>, k: int)
    requires
        forall|i: int| 0 <= i < p.len() ==> 0 <= #[trigger] p[i],
        0 <= k <= p.len(),
    ensures
        sum_int(p.take(k)) <= sum_int(p),
    decreases p.len() - k,
{
    if k < p.len() {
        lemma_sum_take_le(p, k + 1);
        assert(p.take(k + 1).drop_last() =~= p.take(k));
    } else {
        assert(p.take(k) =~= p);
    }
}

/// No-win shares also sum below one: with a non-negative scale and
/// representable scaled totals, every share is in `[0, 1)` and the shares
/// sum to strictly less than one (the residual is the chance that nobody
/// wins).
pub proof fn lemma_no_win_csf_sum(scale: int, p: Seq<int>)
    requires
        scale >= 0,
        forall|i: int| 0 <= i < p.len() ==> 0 <= #[trigger] p[i],
        sum_int(p) <= FX_MAX as int,
        fxm(scale, sum_sat(p)) < FX_MAX as int,
    ensures
        sum_int(csf_q_seq(CsfM::MaybeNoWin { scale }, p)) < SCALE as int,
        forall|i: int|
            0 <= i < p.len() ==> 0 <= #[trigger] csf_q_seq(CsfM::MaybeNoWin { scale }, p)[i]
                < SCALE as int,
{
    let c = CsfM::MaybeNoWin { scale };
    crate::fixed::lemma_sum_sat_exact(p);
    lemma_no_win_nums(scale, p, p.len() as int);
    let m = fxm(scale, sum_sat(p));
    let d = fxadd(SCALE as int, m);
    assert(m < d <= m + SCALE);
    let es = no_win_num_seq(scale, p);
    assert(es.take(p.len() as int) =~= es);
    assert(p.take(p.len() as int) =~= p);
    // Each share: q_i = (e_i * SCALE) / d with e_i <= m < d.
    assert forall|i: int| 0 <= i < p.len() implies 0 <= #[trigger] csf_q_seq(c, p)[i] < SCALE
        as int && csf_q_seq(c, p)[i] == divt(es[i] * (SCALE as int), d) by {
        assert(es[i] <= divt(scale * sum_int(p), SCALE as int) <= m) by {
            assert(scale * p[i] <= scale * sum_int(p)) by {
                vstd::arithmetic::mul::lemma_mul_inequality(p[i], sum_int(p), scale);
                vstd::arithmetic::mul::lemma_mul_is_commutative(p[i], scale);
                vstd::arithmetic::mul::lemma_mul_is_commutative(sum_int(p), scale);
            }
            crate::fixed::lemma_divt_mono(scale * p[i], scale * sum_int(p), SCALE as int);
        }
        vstd::arithmetic::mul::lemma_mul_nonnegative(es[i], SCALE as int);
        assert(es[i] * (SCALE as int) < d * (SCALE as int)) by {
            vstd::arithmetic::mul::lemma_mul_inequality(es[i], d - 1, SCALE as int);
            assert((d - 1) * (SCALE as int) < d * (SCALE as int)) by {
                vstd::arithmetic::mul::lemma_mul_is_distributive_sub_other_way(
                    SCALE as int,
                    d,
                    1,
                );
                vstd::arithmetic::mul::lemma_mul_basics(SCALE as int);
            }
        }
        assert(divt(es[i] * (SCALE as int), d) < SCALE as int) by {
            vstd::arithmetic::div_mod::lemma_multiply_divide_lt(
                es[i] * (SCALE as int),
                d,
                SCALE as int,
            );
            vstd::arithmetic::mul::lemma_mul_is_commutative(d, SCALE as int);
        }
        vstd::arithmetic::div_mod::lemma_div_pos_is_pos(es[i] * (SCALE as int), d);
    }
    // The sum: partial share sums are dominated by the scaled numerator sums.
    lemma_no_win_qsum(scale, p, p.len() as int);
    assert(csf_q_seq(c, p).take(p.len() as int) =~= csf_q_seq(c, p));
    let num = sum_int(es);
    assert(num <= m);
    assert(num * (SCALE as int) <= m * (SCALE as int)) by {
        vstd::arithmetic::mul::lemma_mul_inequality(num, m, SCALE as int);
    }
    assert(m * (SCALE as int) < d * (SCALE as int)) by {
        vstd::arithmetic::mul::lemma_mul_inequality(m, d - 1, SCALE as int);
        assert((d - 1) * (SCALE as int) < d * (SCALE as int)) by {
            vstd::arithmetic::mul::lemma_mul_is_distributive_sub_other_way(SCALE as int, d, 1);
            vstd::arithmetic::mul::lemma_mul_basics(SCALE as int);
        }
    }
    crate::fixed::lemma_sum_int_nonneg(es);
    vstd::arithmetic::mul::lemma_mul_nonnegative(num, SCALE as int);
    assert(divt(num * (SCALE as int), d) < SCALE as int) by {
        vstd::arithmetic::div_mod::lemma_multiply_divide_lt(num * (SCALE as int), d, SCALE as int);
        vstd::arithmetic::mul::lemma_mul_is_commutative(d, SCALE as int);
    }
}

/// Helper induction: share sums dominated by scaled numerator sums.
proof fn lemma_no_win_qsum(scale: int, p: Seq<int>, k: int)
    requires
        scale >= 0,
        forall|i: int| 0 <= i < p.len() ==> 0 <= #[trigger] p[i],
        sum_int(p) <= FX_MAX as int,
        fxm(scale, sum_sat(p)) < FX_MAX as int,
        0 <= k <= p.len(),
    ensures
        sum_int(csf_q_seq(CsfM::MaybeNoWin { scale }, p).take(k)) <= divt(
            sum_int(no_win_num_seq(scale, p).take(k)) * (SCALE as int),
            fxadd(SCALE as int, fxm(scale, sum_sat(p))),
        ),
    decreases k,
{
    let c = CsfM::MaybeNoWin { scale };
    let m = fxm(scale, sum_sat(p));
    let d = fxadd(SCALE as int, m);
    crate::fixed::lemma_sum_sat_exact(p);
    lemma_no_win_nums(scale, p, p.len() as int);
    let es = no_win_num_seq(scale, p);
    if k > 0 {
        lemma_no_win_qsum(scale, p, k - 1);
        let qs = csf_q_seq(c, p);
        assert(qs.take(k).drop_last() =~= qs.take(k - 1));
        assert(es.take(k).drop_last() =~= es.take(k - 1));
        // The k-th share equals its unsaturated quotient.
        let ei = es[k - 1];
        assert(ei <= m) by {
            assert(scale * p[k - 1] <= scale * sum_int(p)) by {
                vstd::arithmetic::mul::lemma_mul_inequality(p[k - 1], sum_int(p), scale);
                vstd::arithmetic::mul::lemma_mul_is_commutative(p[k - 1], scale);
                vstd::arithmetic::mul::lemma_mul_is_commutative(sum_int(p), scale);
            }
            crate::fixed::lemma_divt_mono(scale * p[k - 1], scale * sum_int(p), SCALE as int);
        }
        assert(qs[k - 1] == divt(ei * (SCALE as int), d)) by {
            vstd::arithmetic::mul::lemma_mul_nonnegative(ei, SCALE as int);
            assert(ei * (SCALE as int) < d * (SCALE as int)) by {
                vstd::arithmetic::mul::lemma_mul_inequality(ei, d - 1, SCALE as int);
                assert((d - 1) * (SCALE as int) < d * (SCALE as int)) by {
                    vstd::arithmetic::mul::lemma_mul_is_distributive_sub_other_way(
                        SCALE as int,
                        d,
                        1,
                    );
                    vstd::arithmetic::mul::lemma_mul_basics(SCALE as int);
                }
            }
            assert(divt(ei * (SCALE as int), d) < SCALE as int) by {
                vstd::arithmetic::div_mod::lemma_multiply_divide_lt(
                    ei * (SCALE as int),
                    d,
                    SCALE as int,
                );
                vstd::arithmetic::mul::lemma_mul_is_commutative(d, SCALE as int);
            }
            vstd::arithmetic::div_mod::lemma_div_pos_is_pos(ei * (SCALE as int), d);
        }
        crate::fixed::lemma_sum_int_nonneg_take(es, k - 1);
        vstd::arithmetic::mul::lemma_mul_nonnegative(sum_int(es.take(k - 1)), SCALE as int);
        vstd::arithmetic::mul::lemma_mul_nonnegative(ei, SCALE as int);
        crate::fixed::lemma_divt_superadd(
            sum_int(es.take(k - 1)) * (SCALE as int),
            ei * (SCALE as int),
            d,
        );
        assert(sum_int(es.take(k - 1)) * (SCALE as int) + ei * (SCALE as int) == sum_int(
            es.take(k),
        ) * (SCALE as int)) by {
            vstd::arithmetic::mul::lemma_mul_is_distributive_add_other_way(
                SCALE as int,
                sum_int(es.take(k - 1)),
                ei,
            );
        }
    }
}

} // verus!
