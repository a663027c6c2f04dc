//! Best-response fixed-point solver.
//!
//! Each outer iteration solves, for every player independently against the
//! same snapshot of the current profile (a Jacobi update), a derivative-free
//! Nelder-Mead minimization of the player's negated discounted utility over
//! the log-transformed entries of that player's slice, then applies all
//! updates in one batch and tests entrywise log-space convergence.
//!
//! Every step is deterministic, so the whole solve is pinned down exactly:
//! the result for a fixed initial guess equals the value of [`spec_solve`],
//! a pure function of the aggregator's utility model and the options.
//!
//! The inner optimizer is total: costs saturate instead of overflowing, so
//! the only failures the solver can surface are a profile whose shape does
//! not fit the aggregator and a fixed guess with a non-positive entry, which
//! the log transform cannot accept.  When an inner solve finds nothing
//! better than the player's current point, the returned best vertex is that
//! unchanged point; an unchanged slice is within tolerance entrywise, so
//! such ties count toward outer convergence.

use vstd::prelude::*;

use crate::errors::SolveError;
use crate::fixed::{divt, fxadd, fxm, fxsub, ints, sat64, sum_sat, FX_MAX, SCALE};
use crate::fixed::{fx_add, fx_divi, fx_divu, fx_mul, fx_neg, fx_sub, fx_sum};
use crate::states::PayoffAggregator;
use crate::strategies::{dup_vec, kind_width, ActionKind, Strategies, StratM};
use crate::transcend::{fx_exp, fx_ln, fx_sqrt, sisqrt, spec_exp, spec_ln};

verus! {

/// Mean of the log-normal-like random initial guess (`-1.0`).
pub const INIT_MU: i64 = -16777216;

/// Spread of the log-normal-like random initial guess (`0.1`).
pub const INIT_SIGMA: i64 = 1677722;

/// Absolute tolerance floor of the outer log-space convergence test: one
/// representable unit (about `6e-8`).  The conventional floor, the square
/// root of the double-precision epsilon (about `1.5e-8`), lies below the
/// fixed-point resolution; one unit is its closest nonzero analogue (a zero
/// floor would demand bit-exact equality of log entries near zero).
pub const OUTER_ATOL: i64 = 1;

/// The utility model of an aggregator, as a bare function: player index and
/// profile model to discounted utility.
pub open spec fn agg_uf<A: PayoffAggregator>(agg: A) -> spec_fn(int, StratM) -> int {
    |i: int, s: StratM| agg.spec_u_i(i, s)
}

/// The profile with player `i`'s entries replaced by `vals` (one value per
/// period and parameter), all other entries untouched.
pub open spec fn set_player(s: StratM, i: int, vals: Seq<int>) -> StratM {
    let w = kind_width(s.kind);
    StratM {
        kind: s.kind,
        t: s.t,
        n: s.n,
        data: Seq::new(
            s.data.len(),
            |idx: int|
                {
                    let pos = idx % (s.n * w);
                    if pos / w == i {
                        vals[(idx / (s.n * w)) * w + (pos % w)]
                    } else {
                        s.data[idx]
                    }
                },
        ),
    }
}

/// Replacing one player's entries keeps the profile well formed.
pub proof fn lemma_set_player_wf(s: StratM, i: int, vals: Seq<int>)
    requires
        s.wf(),
    ensures
        set_player(s, i, vals).wf(),
        set_player(s, i, vals).t == s.t,
        set_player(s, i, vals).n == s.n,
        set_player(s, i, vals).kind == s.kind,
{
}

/// Executable form of [`set_player`].
pub fn insert_params(s: &Strategies, i: usize, vals: &Vec<i64>) -> (r: Strategies)
    requires
        s.wf(),
        i < s@.n,
        vals@.len() == s@.t * kind_width(s@.kind),
    ensures
        r.wf(),
        r@ == set_player(s@, i as int, ints(vals@)),
{
    let w = crate::strategies::width_of(s.kind);
    let n = s.n;
    let len = s.data.len();
    let vl = vals.len();
    proof {
        crate::strategies::lemma_period_range(s@, 0);
        vstd::arithmetic::mul::lemma_mul_basics(s@.n * kind_width(s@.kind));
        assert(s@.n * kind_width(s@.kind) >= 1 * 1) by {
            vstd::arithmetic::mul::lemma_mul_inequality(1, s@.n, kind_width(s@.kind));
            vstd::arithmetic::mul::lemma_mul_basics(s@.n);
            vstd::arithmetic::mul::lemma_mul_basics(kind_width(s@.kind));
            vstd::arithmetic::mul::lemma_mul_is_commutative(s@.n, kind_width(s@.kind));
        }
    }
    let nw = n * w;
    let mut data: Vec<i64> = Vec::new();
    let mut idx: usize = 0;
    while idx < len
        invariant
            0 <= idx <= len,
            s.wf(),
            i < s@.n,
            vals@.len() == s@.t * kind_width(s@.kind),
            vl == vals@.len(),
            len == s@.data.len(),
            nw as int == s@.n * kind_width(s@.kind),
            nw >= 1,
            w as int == kind_width(s@.kind),
            data@.len() == idx,
            forall|q: int|
                0 <= q < idx ==> (#[trigger] data@[q]) as int == set_player(
                    s@,
                    i as int,
                    ints(vals@),
                ).data[q],
        decreases len - idx,
    {
        let ghost target = set_player(s@, i as int, ints(vals@));
        let ghost data_old = data@;
        let pos = idx % nw;
        let pl = pos / w;
        let v: i64 = if pl == i {
            let ti = idx / nw;
            proof {
                // The flat value index lies inside `vals`.
                vstd::arithmetic::div_mod::lemma_mod_division_less_than_divisor(
                    idx as int,
                    nw as int,
                );
                vstd::arithmetic::div_mod::lemma_fundamental_div_mod(pos as int, w as int);
                vstd::arithmetic::div_mod::lemma_mod_division_less_than_divisor(
                    pos as int,
                    w as int,
                );
                vstd::arithmetic::div_mod::lemma_fundamental_div_mod(idx as int, nw as int);
                assert((ti as int) < s@.t) by {
                    if ti as int >= s@.t {
                        vstd::arithmetic::mul::lemma_mul_inequality(
                            s@.t,
                            ti as int,
                            nw as int,
                        );
                        vstd::arithmetic::mul::lemma_mul_is_commutative(ti as int, nw as int);
                        vstd::arithmetic::mul::lemma_mul_is_associative(
                            s@.t,
                            s@.n,
                            kind_width(s@.kind),
                        );
                    }
                }
                assert((ti as int) * (w as int) + (pos as int) % (w as int) < s@.t * (w as int))
                    by {
                    vstd::arithmetic::mul::lemma_mul_inequality(ti as int + 1, s@.t, w as int);
                    vstd::arithmetic::mul::lemma_mul_is_distributive_add_other_way(
                        w as int,
                        ti as int,
                        1,
                    );
                    vstd::arithmetic::mul::lemma_mul_basics(w as int);
                }
                assert(s@.t * (w as int) <= vals@.len()) by {
                    vstd::arithmetic::mul::lemma_mul_is_commutative(s@.t, w as int);
                }
                vstd::arithmetic::mul::lemma_mul_nonnegative(ti as int, w as int);
                assert(vals@.len() <= usize::MAX);
            }
            vals[ti * w + pos % w]
        } else {
            s.data[idx]
        };
        data.push(v);
        proof {
            assert forall|q: int| 0 <= q <= idx as int implies (#[trigger] data@[q]) as int
                == target.data[q] by {
                if q < idx as int {
                    assert(data@[q] == data_old[q]);
                } else {
                    assert(data@[q] == v);
                }
            }
        }
        idx = idx + 1;
    }
    let r = Strategies { kind: s.kind, t: s.t, n: s.n, data };
    proof {
        assert(r@.data =~= set_player(s@, i as int, ints(vals@)).data);
    }
    r
}

/// Entrywise exponential of a log-parameter vector.
pub open spec fn exp_seq(params: Seq<int>) -> Seq<int> {
    params.map_values(|y: int| spec_exp(y))
}

/// Executable form of [`exp_seq`].
pub fn exp_params(params: &Vec<i64>) -> (r: Vec<i64>)
    ensures
        r@.len() == params@.len(),
        ints(r@) == exp_seq(ints(params@)),
        forall|q: int| 0 <= q < r@.len() ==> 1 <= (#[trigger] r@[q]) as int <= FX_MAX as int,
{
    let m = params.len();
    let mut out: Vec<i64> = Vec::new();
    let mut q: usize = 0;
    while q < m
        invariant
            0 <= q <= m,
            m == params@.len(),
            out@.len() == q,
            forall|p: int|
                0 <= p < q ==> (#[trigger] out@[p]) as int == spec_exp(ints(params@)[p]),
            forall|p: int| 0 <= p < q ==> 1 <= (#[trigger] out@[p]) as int <= FX_MAX as int,
        decreases m - q,
    {
        let ghost out_old = out@;
        let v = fx_exp(params[q]);
        out.push(v);
        proof {
            assert forall|p: int| 0 <= p <= q as int implies (#[trigger] out@[p]) as int
                == spec_exp(ints(params@)[p]) && 1 <= out@[p] as int <= FX_MAX as int by {
                if p < q as int {
                    assert(out@[p] == out_old[p]);
                } else {
                    assert(out@[p] == v);
                }
            }
        }
        q = q + 1;
    }
    proof {
        assert(ints(out@) =~= exp_seq(ints(params@)));
    }
    out
}

/// The inner objective: the negated discounted utility of player `i` when
/// that player's slice is replaced by the exponentials of `params`.
pub open spec fn spec_cost(
    uf: spec_fn(int, StratM) -> int,
    base: StratM,
    i: int,
    params: Seq<int>,
) -> int {
    sat64(-uf(i, set_player(base, i, exp_seq(params))))
}

/// Executable objective evaluation.
pub fn eval_cost<A: PayoffAggregator>(
    agg: &A,
    base: &Strategies,
    i: usize,
    params: &Vec<i64>,
) -> (r: i64)
    requires
        agg.wf(),
        base.wf(),
        base@.n == agg.spec_n(),
        agg.spec_compat(base@.t),
        i < agg.spec_n(),
        params@.len() == base@.t * kind_width(base@.kind),
    ensures
        r as int == spec_cost(agg_uf(*agg), base@, i as int, ints(params@)),
{
    let vals = exp_params(params);
    let cand = insert_params(base, i, &vals);
    proof {
        lemma_set_player_wf(base@, i as int, ints(vals@));
    }
    let u = agg.u_i(i, &cand);
    fx_neg(u)
}

/// First index of the smallest cost.
pub open spec fn idx_min(costs: Seq<int>) -> int
    decreases costs.len(),
{
    if costs.len() <= 1 {
        0
    } else {
        let r = idx_min(costs.drop_last());
        if costs.last() < costs[r] {
            costs.len() - 1
        } else {
            r
        }
    }
}

/// First index of the largest cost.
pub open spec fn idx_max(costs: Seq<int>) -> int
    decreases costs.len(),
{
    if costs.len() <= 1 {
        0
    } else {
        let r = idx_max(costs.drop_last());
        if costs.last() > costs[r] {
            costs.len() - 1
        } else {
            r
        }
    }
}

/// The extremal indices point at extremal values.
pub proof fn lemma_idx_minmax(costs: Seq<int>)
    requires
        costs.len() >= 1,
    ensures
        0 <= idx_min(costs) < costs.len(),
        0 <= idx_max(costs) < costs.len(),
        forall|q: int| 0 <= q < costs.len() ==> costs[idx_min(costs)] <= #[trigger] costs[q],
        forall|q: int| 0 <= q < costs.len() ==> costs[idx_max(costs)] >= #[trigger] costs[q],
    decreases costs.len(),
{
    if costs.len() > 1 {
        lemma_idx_minmax(costs.drop_last());
        let pre = costs.drop_last();
        assert forall|q: int| 0 <= q < costs.len() implies costs[idx_min(costs)] <= #[trigger] costs[q]
            && costs[idx_max(costs)] >= costs[q] by {
            if q < costs.len() - 1 {
                assert(costs[q] == pre[q]);
                assert(pre[idx_min(pre)] <= pre[q]);
                assert(pre[idx_max(pre)] >= pre[q]);
            }
        }
    }
}

/// Largest cost among the vertices other than `skip` (or the smallest
/// integer when there is no other vertex).
pub open spec fn max_excl(costs: Seq<int>, skip: int) -> int
    decreases costs.len(),
{
    if costs.len() == 0 {
        crate::fixed::FX_MIN as int
    } else if costs.len() - 1 == skip {
        max_excl(costs.drop_last(), skip)
    } else {
        let r = max_excl(costs.drop_last(), skip);
        if costs.last() > r {
            costs.last()
        } else {
            r
        }
    }
}

/// Executable scans for the extremal vertices and the runner-up cost.
pub fn scan_costs(costs: &Vec<i64>) -> (r: (usize, usize, i64))
    requires
        costs@.len() >= 1,
    ensures
        r.0 as int == idx_min(ints(costs@)),
        r.1 as int == idx_max(ints(costs@)),
        r.2 as int == max_excl(ints(costs@), idx_max(ints(costs@))),
{
    let m = costs.len();
    let mut bi: usize = 0;
    let mut wi: usize = 0;
    let mut q: usize = 1;
    while q < m
        invariant
            1 <= q <= m,
            m == costs@.len(),
            bi as int == idx_min(ints(costs@).take(q as int)),
            wi as int == idx_max(ints(costs@).take(q as int)),
            bi < q,
            wi < q,
        decreases m - q,
    {
        proof {
            assert(ints(costs@).take(q as int + 1).drop_last() =~= ints(costs@).take(q as int));
        }
        if costs[q] < costs[bi] {
            bi = q;
        }
        if costs[q] > costs[wi] {
            wi = q;
        }
        q = q + 1;
    }
    proof {
        assert(ints(costs@).take(m as int) =~= ints(costs@));
    }
    let mut second: i64 = crate::fixed::FX_MIN;
    let mut p: usize = 0;
    while p < m
        invariant
            0 <= p <= m,
            m == costs@.len(),
            wi < m,
            wi as int == idx_max(ints(costs@)),
            second as int == max_excl(ints(costs@).take(p as int), wi as int),
        decreases m - p,
    {
        proof {
            assert(ints(costs@).take(p as int + 1).drop_last() =~= ints(costs@).take(p as int));
        }
        if p != wi {
            if costs[p] > second {
                second = costs[p];
            }
        }
        p = p + 1;
    }
    proof {
        assert(ints(costs@).take(m as int) =~= ints(costs@));
    }
    (bi, wi, second)
}

/// Pointwise simplex moves, each from two equally long vectors.
#[derive(Clone, Copy, Debug, PartialEq, Eq, Structural)]
pub enum PointOp {
    /// `a + (a - b)`: reflection of `b` through `a`.
    Reflect,
    /// `a + 2 (a - b)`: expansion past the reflection.
    Expand,
    /// `a + (a - b) / 2`: contraction outside the centroid.
    ContractOut,
    /// `a - (a - b) / 2`: contraction inside the centroid.
    ContractIn,
    /// `a + (b - a) / 2`: shrink `b` toward `a`.
    Shrink,
}

/// One coordinate of a simplex move.
pub open spec fn op_entry(op: PointOp, a: int, b: int) -> int {
    match op {
        PointOp::Reflect => fxadd(a, fxsub(a, b)),
        PointOp::Expand => fxadd(a, fxadd(fxsub(a, b), fxsub(a, b))),
        PointOp::ContractOut => fxadd(a, divt(fxsub(a, b), 2)),
        PointOp::ContractIn => fxsub(a, divt(fxsub(a, b), 2)),
        PointOp::Shrink => fxadd(a, divt(fxsub(b, a), 2)),
    }
}

/// A whole simplex move, coordinate by coordinate.
pub open spec fn point_op(op: PointOp, a: Seq<int>, b: Seq<int>) -> Seq<int> {
    Seq::new(a.len(), |j: int| op_entry(op, a[j], b[j]))
}

/// Executable form of [`point_op`].
pub fn apply_op(op: PointOp, a: &Vec<i64>, b: &Vec<i64>) -> (r: Vec<i64>)
    requires
        a@.len() == b@.len(),
    ensures
        r@.len() == a@.len(),
        ints(r@) == point_op(op, ints(a@), ints(b@)),
{
    let m = a.len();
    let mut out: Vec<i64> = Vec::new();
    let mut j: usize = 0;
    while j < m
        invariant
            0 <= j <= m,
            m == a@.len(),
            m == b@.len(),
            out@.len() == j,
            forall|q: int|
                0 <= q < j ==> (#[trigger] out@[q]) as int == op_entry(
                    op,
                    ints(a@)[q],
                    ints(b@)[q],
                ),
        decreases m - j,
    {
        let ghost out_old = out@;
        let x = a[j];
        let y = b[j];
        let v: i64 = match op {
            PointOp::Reflect => fx_add(x, fx_sub(x, y)),
            PointOp::Expand => {
                let d = fx_sub(x, y);
                fx_add(x, fx_add(d, d))
            },
            PointOp::ContractOut => fx_add(x, fx_divi(fx_sub(x, y), 2)),
            PointOp::ContractIn => fx_sub(x, fx_divi(fx_sub(x, y), 2)),
            PointOp::Shrink => fx_add(x, fx_divi(fx_sub(y, x), 2)),
        };
        out.push(v);
        proof {
            assert forall|q: int| 0 <= q <= j as int implies (#[trigger] out@[q]) as int
                == op_entry(op, ints(a@)[q], ints(b@)[q]) by {
                if q < j as int {
                    assert(out@[q] == out_old[q]);
                } else {
                    assert(out@[q] == v);
                }
            }
        }
        j = j + 1;
    }
    proof {
        assert(ints(out@) =~= point_op(op, ints(a@), ints(b@)));
    }
    out
}

/// Column `j` of the simplex with the skipped vertex zeroed out.
pub open spec fn centroid_col(sx: Seq<Seq<int>>, skip: int, j: int) -> Seq<int> {
    Seq::new(
        sx.len(),
        |v: int|
            if v == skip {
                0
            } else {
                sx[v][j]
            },
    )
}

/// Centroid of the simplex vertices other than `skip`, coordinate by
/// coordinate (the skipped vertex contributes zero to the sum, which is then
/// divided by the remaining vertex count).
pub open spec fn centroid(sx: Seq<Seq<int>>, skip: int, d: nat) -> Seq<int> {
    Seq::new(d, |j: int| divt(sum_sat(centroid_col(sx, skip, j)), sx.len() - 1))
}

/// The model of a vector of vertices.
pub open spec fn sx_model(sx: Seq<Vec<i64>>) -> Seq<Seq<int>> {
    sx.map_values(|v: Vec<i64>| ints(v@))
}

/// Executable form of [`centroid`].
pub fn centroid_exec(sx: &Vec<Vec<i64>>, skip: usize, d: usize) -> (r: Vec<i64>)
    requires
        sx@.len() >= 2,
        forall|v: int| 0 <= v < sx@.len() ==> (#[trigger] sx@[v])@.len() == d,
    ensures
        r@.len() == d,
        ints(r@) == centroid(sx_model(sx@), skip as int, d as nat),
{
    let m = sx.len();
    let mut out: Vec<i64> = Vec::new();
    let mut j: usize = 0;
    while j < d
        invariant
            0 <= j <= d,
            m == sx@.len(),
            m >= 2,
            forall|v: int| 0 <= v < sx@.len() ==> (#[trigger] sx@[v])@.len() == d,
            out@.len() == j,
            forall|q: int|
                0 <= q < j ==> (#[trigger] out@[q]) as int == centroid(
                    sx_model(sx@),
                    skip as int,
                    d as nat,
                )[q],
        decreases d - j,
    {
        let ghost out_old = out@;
        let ghost col = centroid_col(sx_model(sx@), skip as int, j as int);
        let mut acc: i64 = 0;
        let mut v: usize = 0;
        while v < m
            invariant
                0 <= v <= m,
                m == sx@.len(),
                0 <= j < d,
                forall|p: int| 0 <= p < sx@.len() ==> (#[trigger] sx@[p])@.len() == d,
                col == centroid_col(sx_model(sx@), skip as int, j as int),
                acc as int == sum_sat(col.take(v as int)),
            decreases m - v,
        {
            proof {
                assert(col.take(v as int + 1).drop_last() =~= col.take(v as int));
            }
            let term: i64 = if v == skip {
                0
            } else {
                sx[v][j]
            };
            acc = fx_add(acc, term);
            v = v + 1;
        }
        proof {
            assert(col.take(m as int) =~= col);
        }
        let c = fx_divu(acc, m - 1);
        out.push(c);
        proof {
            assert forall|q: int| 0 <= q <= j as int implies (#[trigger] out@[q]) as int
                == centroid(sx_model(sx@), skip as int, d as nat)[q] by {
                if q < j as int {
                    assert(out@[q] == out_old[q]);
                } else {
                    assert(out@[q] == c);
                }
            }
        }
        j = j + 1;
    }
    proof {
        assert(ints(out@) =~= centroid(sx_model(sx@), skip as int, d as nat));
    }
    out
}

/// Squared deviations of the costs from their mean.
pub open spec fn sd_devs(costs: Seq<int>) -> Seq<int> {
    let mean = divt(sum_sat(costs), costs.len() as int);
    Seq::new(costs.len(), |j: int| fxm(fxsub(costs[j], mean), fxsub(costs[j], mean)))
}

/// Standard deviation of the vertex costs, the inner stopping criterion.
pub open spec fn cost_sd(costs: Seq<int>) -> int {
    sisqrt(divt(sum_sat(sd_devs(costs)), costs.len() as int) * (SCALE as int))
}

/// Executable form of [`cost_sd`].
pub fn cost_sd_exec(costs: &Vec<i64>) -> (r: i64)
    requires
        costs@.len() >= 1,
    ensures
        r as int == cost_sd(ints(costs@)),
{
    let m = costs.len();
    let total = fx_sum(costs);
    let mean = fx_divu(total, m);
    let ghost devs = sd_devs(ints(costs@));
    let mut acc: i64 = 0;
    let mut j: usize = 0;
    while j < m
        invariant
            0 <= j <= m,
            m == costs@.len(),
            devs == sd_devs(ints(costs@)),
            mean as int == divt(sum_sat(ints(costs@)), costs@.len() as int),
            acc as int == sum_sat(devs.take(j as int)),
        decreases m - j,
    {
        proof {
            assert(devs.take(j as int + 1).drop_last() =~= devs.take(j as int));
        }
        let dev = fx_sub(costs[j], mean);
        acc = fx_add(acc, fx_mul(dev, dev));
        j = j + 1;
    }
    proof {
        assert(devs.take(m as int) =~= devs);
        assert forall|q: int| 0 <= q < devs.len() implies #[trigger] devs[q] >= 0 by {
            crate::fixed::lemma_fxm_square_nonneg(fxsub(ints(costs@)[q], mean as int));
        }
        crate::fixed::lemma_sum_sat_nonneg(devs);
        vstd::arithmetic::div_mod::lemma_div_pos_is_pos(sum_sat(devs), m as int);
    }
    let varr = fx_divu(acc, m);
    fx_sqrt(varr)
}

/// Costs of all simplex vertices.
pub open spec fn cost_seq(
    uf: spec_fn(int, StratM) -> int,
    base: StratM,
    i: int,
    sx: Seq<Seq<int>>,
) -> Seq<int> {
    Seq::new(sx.len(), |v: int| spec_cost(uf, base, i, sx[v]))
}

/// All vertices pulled halfway toward the best vertex.
pub open spec fn shrink_simplex(sx: Seq<Seq<int>>, bi: int) -> Seq<Seq<int>> {
    Seq::new(
        sx.len(),
        |v: int|
            if v == bi {
                sx[bi]
            } else {
                point_op(PointOp::Shrink, sx[bi], sx[v])
            },
    )
}

/// Shape invariant of a simplex: at least two vertices of dimension `d`.
pub open spec fn sx_wf(sx: Seq<Seq<int>>, d: nat) -> bool {
    sx.len() >= 2 && forall|v: int| 0 <= v < sx.len() ==> (#[trigger] sx[v]).len() == d
}

/// One Nelder-Mead iteration: order, reflect, then expand, contract or
/// shrink according to how the reflected point compares.
pub open spec fn nm_step(
    uf: spec_fn(int, StratM) -> int,
    base: StratM,
    i: int,
    sx: Seq<Seq<int>>,
) -> Seq<Seq<int>> {
    let costs = cost_seq(uf, base, i, sx);
    let bi = idx_min(costs);
    let wi = idx_max(costs);
    let d = sx[0].len();
    let c = centroid(sx, wi, d);
    let w = sx[wi];
    let refl = point_op(PointOp::Reflect, c, w);
    let fr = spec_cost(uf, base, i, refl);
    let fb = costs[bi];
    let fw = costs[wi];
    let fs = max_excl(costs, wi);
    if fr < fb {
        let e = point_op(PointOp::Expand, c, w);
        let fe = spec_cost(uf, base, i, e);
        if fe < fr {
            sx.update(wi, e)
        } else {
            sx.update(wi, refl)
        }
    } else if fr < fs {
        sx.update(wi, refl)
    } else if fr < fw {
        let oc = point_op(PointOp::ContractOut, c, w);
        let foc = spec_cost(uf, base, i, oc);
        if foc <= fr {
            sx.update(wi, oc)
        } else {
            shrink_simplex(sx, bi)
        }
    } else {
        let ic = point_op(PointOp::ContractIn, c, w);
        let fic = spec_cost(uf, base, i, ic);
        if fic < fw {
            sx.update(wi, ic)
        } else {
            shrink_simplex(sx, bi)
        }
    }
}

/// A Nelder-Mead step keeps the simplex shape.
pub proof fn lemma_nm_step_wf(
    uf: spec_fn(int, StratM) -> int,
    base: StratM,
    i: int,
    sx: Seq<Seq<int>>,
    d: nat,
)
    requires
        sx_wf(sx, d),
    ensures
        sx_wf(nm_step(uf, base, i, sx), d),
{
    let costs = cost_seq(uf, base, i, sx);
    lemma_idx_minmax(costs);
    let bi = idx_min(costs);
    let wi = idx_max(costs);
    let r = nm_step(uf, base, i, sx);
    assert forall|v: int| 0 <= v < r.len() implies (#[trigger] r[v]).len() == d by {
    }
}

/// The simplex and its cached costs, with all vertices replaced except the
/// one at `keep`, updated at `wi`.
fn replace_vertex(
    sx: &Vec<Vec<i64>>,
    costs: &Vec<i64>,
    wi: usize,
    pt: Vec<i64>,
    c: i64,
) -> (r: (Vec<Vec<i64>>, Vec<i64>))
    requires
        wi < sx@.len(),
        costs@.len() == sx@.len(),
    ensures
        r.0@.len() == sx@.len(),
        r.1@.len() == sx@.len(),
        sx_model(r.0@) == sx_model(sx@).update(wi as int, ints(pt@)),
        ints(r.1@) == ints(costs@).update(wi as int, c as int),
{
    let m = sx.len();
    let mut nsx: Vec<Vec<i64>> = Vec::new();
    let mut ncosts: Vec<i64> = Vec::new();
    let mut v: usize = 0;
    let mut ptopt: Option<Vec<i64>> = Some(pt);
    while v < m
        invariant
            0 <= v <= m,
            m == sx@.len(),
            costs@.len() == sx@.len(),
            wi < m,
            nsx@.len() == v,
            ncosts@.len() == v,
            v <= wi ==> ptopt == Some(pt),
            v > wi ==> ptopt is None,
            forall|q: int|
                0 <= q < v ==> ints((#[trigger] nsx@[q])@) == sx_model(sx@).update(
                    wi as int,
                    ints(pt@),
                )[q],
            forall|q: int|
                0 <= q < v ==> (#[trigger] ncosts@[q]) as int == ints(costs@).update(
                    wi as int,
                    c as int,
                )[q],
        decreases m - v,
    {
        let ghost nsx_old = nsx@;
        let ghost nc_old = ncosts@;
        if v == wi {
            let p = ptopt.unwrap();
            ptopt = None;
            nsx.push(p);
            ncosts.push(c);
        } else {
            nsx.push(dup_vec(&sx[v]));
            ncosts.push(costs[v]);
        }
        proof {
            assert forall|q: int| 0 <= q <= v as int implies ints((#[trigger] nsx@[q])@)
                == sx_model(sx@).update(wi as int, ints(pt@))[q] && (ncosts@[q]) as int == ints(
                costs@,
            ).update(wi as int, c as int)[q] by {
                if q < v as int {
                    assert(nsx@[q] == nsx_old[q]);
                    assert(ncosts@[q] == nc_old[q]);
                }
            }
        }
        v = v + 1;
    }
    proof {
        assert(sx_model(nsx@) =~= sx_model(sx@).update(wi as int, ints(pt@)));
        assert(ints(ncosts@) =~= ints(costs@).update(wi as int, c as int));
    }
    (nsx, ncosts)
}

/// One executable Nelder-Mead iteration with its cost cache.
fn nm_step_exec<A: PayoffAggregator>(
    agg: &A,
    base: &Strategies,
    i: usize,
    sx: &Vec<Vec<i64>>,
    costs: &Vec<i64>,
    d: usize,
) -> (r: (Vec<Vec<i64>>, Vec<i64>))
    requires
        agg.wf(),
        base.wf(),
        base@.n == agg.spec_n(),
        agg.spec_compat(base@.t),
        i < agg.spec_n(),
        d == base@.t * kind_width(base@.kind),
        sx_wf(sx_model(sx@), d as nat),
        costs@.len() == sx@.len(),
        ints(costs@) == cost_seq(agg_uf(*agg), base@, i as int, sx_model(sx@)),
    ensures
        sx_model(r.0@) == nm_step(agg_uf(*agg), base@, i as int, sx_model(sx@)),
        sx_wf(sx_model(r.0@), d as nat),
        r.1@.len() == r.0@.len(),
        ints(r.1@) == cost_seq(agg_uf(*agg), base@, i as int, sx_model(r.0@)),
{
    let ghost uf = agg_uf(*agg);
    let ghost sxm = sx_model(sx@);
    let ghost cm = cost_seq(uf, base@, i as int, sxm);
    proof {
        lemma_idx_minmax(cm);
        lemma_nm_step_wf(uf, base@, i as int, sxm, d as nat);
    }
    let (bi, wi, fs) = scan_costs(costs);
    proof {
        assert(sxm[wi as int].len() == d);
        assert(sxm[0].len() == d);
        assert forall|v: int| 0 <= v < sx@.len() implies (#[trigger] sx@[v])@.len() == d by {
            assert(sxm[v].len() == d);
            assert(sxm[v] == ints(sx@[v]@));
        }
    }
    let cen = centroid_exec(sx, wi, d);
    let refl = apply_op(PointOp::Reflect, &cen, &sx[wi]);
    let fr = eval_cost(agg, base, i, &refl);
    let fb = costs[bi];
    let fw = costs[wi];
    let result: (Vec<Vec<i64>>, Vec<i64>) = if fr < fb {
        let e = apply_op(PointOp::Expand, &cen, &sx[wi]);
        let fe = eval_cost(agg, base, i, &e);
        if fe < fr {
            replace_vertex(sx, costs, wi, e, fe)
        } else {
            replace_vertex(sx, costs, wi, refl, fr)
        }
    } else if fr < fs {
        replace_vertex(sx, costs, wi, refl, fr)
    } else if fr < fw {
        let oc = apply_op(PointOp::ContractOut, &cen, &sx[wi]);
        let foc = eval_cost(agg, base, i, &oc);
        if foc <= fr {
            replace_vertex(sx, costs, wi, oc, foc)
        } else {
            shrink_exec(agg, base, i, sx, costs, bi, d)
        }
    } else {
        let ic = apply_op(PointOp::ContractIn, &cen, &sx[wi]);
        let fic = eval_cost(agg, base, i, &ic);
        if fic < fw {
            replace_vertex(sx, costs, wi, ic, fic)
        } else {
            shrink_exec(agg, base, i, sx, costs, bi, d)
        }
    };
    proof {
        let nm = nm_step(uf, base@, i as int, sxm);
        assert(sx_model(result.0@) =~= nm);
        assert forall|v: int| 0 <= v < result.0@.len() implies (#[trigger] ints(result.1@)[v])
            == cost_seq(uf, base@, i as int, sx_model(result.0@))[v] by {
            if sx_model(result.0@)[v] == sxm[v] {
            }
        }
        assert(ints(result.1@) =~= cost_seq(uf, base@, i as int, sx_model(result.0@)));
    }
    result
}

/// The shrink move with its recomputed costs.
fn shrink_exec<A: PayoffAggregator>(
    agg: &A,
    base: &Strategies,
    i: usize,
    sx: &Vec<Vec<i64>>,
    costs: &Vec<i64>,
    bi: usize,
    d: usize,
) -> (r: (Vec<Vec<i64>>, Vec<i64>))
    requires
        agg.wf(),
        base.wf(),
        base@.n == agg.spec_n(),
        agg.spec_compat(base@.t),
        i < agg.spec_n(),
        d == base@.t * kind_width(base@.kind),
        sx_wf(sx_model(sx@), d as nat),
        costs@.len() == sx@.len(),
        bi < sx@.len(),
        ints(costs@) == cost_seq(agg_uf(*agg), base@, i as int, sx_model(sx@)),
    ensures
        r.0@.len() == sx@.len(),
        r.1@.len() == sx@.len(),
        sx_model(r.0@) == shrink_simplex(sx_model(sx@), bi as int),
        ints(r.1@) == cost_seq(agg_uf(*agg), base@, i as int, sx_model(r.0@)),
{
    let ghost uf = agg_uf(*agg);
    let ghost sxm = sx_model(sx@);
    let ghost target = shrink_simplex(sxm, bi as int);
    let m = sx.len();
    let mut nsx: Vec<Vec<i64>> = Vec::new();
    let mut ncosts: Vec<i64> = Vec::new();
    let mut v: usize = 0;
    while v < m
        invariant
            0 <= v <= m,
            m == sx@.len(),
            agg.wf(),
            base.wf(),
            base@.n == agg.spec_n(),
            agg.spec_compat(base@.t),
            i < agg.spec_n(),
            d == base@.t * kind_width(base@.kind),
            sx_wf(sx_model(sx@), d as nat),
            bi < m,
            uf == agg_uf(*agg),
            sxm == sx_model(sx@),
            target == shrink_simplex(sxm, bi as int),
            costs@.len() == sx@.len(),
            ints(costs@) == cost_seq(uf, base@, i as int, sx_model(sx@)),
            nsx@.len() == v,
            ncosts@.len() == v,
            forall|q: int| 0 <= q < v ==> ints((#[trigger] nsx@[q])@) == target[q],
            forall|q: int|
                0 <= q < v ==> (#[trigger] ncosts@[q]) as int == spec_cost(
                    uf,
                    base@,
                    i as int,
                    target[q],
                ),
        decreases m - v,
    {
        let ghost nsx_old = nsx@;
        let ghost nc_old = ncosts@;
        proof {
            assert(sx_model(sx@)[bi as int] == ints(sx@[bi as int]@));
            assert(sx_model(sx@)[v as int] == ints(sx@[v as int]@));
            assert(sx@[bi as int]@.len() == d && sx@[v as int]@.len() == d);
        }
        let (vert, cost): (Vec<i64>, i64) = if v == bi {
            (dup_vec(&sx[bi]), costs[bi])
        } else {
            let p = apply_op(PointOp::Shrink, &sx[bi], &sx[v]);
            let c = eval_cost(agg, base, i, &p);
            (p, c)
        };
        proof {
            if v == bi {
                assert(target[v as int] == sxm[bi as int]);
                assert(ints(costs@)[bi as int] == cost_seq(uf, base@, i as int, sxm)[bi as int]);
                assert(cost_seq(uf, base@, i as int, sxm)[bi as int] == spec_cost(
                    uf,
                    base@,
                    i as int,
                    sxm[bi as int],
                ));
                assert(cost as int == spec_cost(uf, base@, i as int, target[v as int]));
                assert(ints(vert@) == target[v as int]);
            } else {
                assert(target[v as int] == point_op(
                    PointOp::Shrink,
                    sxm[bi as int],
                    sxm[v as int],
                ));
                assert(ints(vert@) == target[v as int]);
                assert(cost as int == spec_cost(uf, base@, i as int, target[v as int]));
            }
        }
        nsx.push(vert);
        ncosts.push(cost);
        proof {
            assert forall|q: int| 0 <= q <= v as int implies ints((#[trigger] nsx@[q])@)
                == target[q] && (ncosts@[q]) as int == spec_cost(uf, base@, i as int, target[q])
                by {
                if q < v as int {
                    assert(nsx@[q] == nsx_old[q]);
                    assert(ncosts@[q] == nc_old[q]);
                } else {
                    assert(nsx@[q] == vert);
                    assert(ncosts@[q] == cost);
                }
            }
        }
        v = v + 1;
    }
    proof {
        assert(sx_model(nsx@) =~= target);
        assert(ints(ncosts@) =~= cost_seq(uf, base@, i as int, target));
    }
    (nsx, ncosts)
}

/// `k` Nelder-Mead iterations from `sx0`, stopping early once the cost
/// standard deviation falls to `tol`.
pub open spec fn nm_iter(
    uf: spec_fn(int, StratM) -> int,
    base: StratM,
    i: int,
    sx0: Seq<Seq<int>>,
    tol: int,
    k: nat,
) -> Seq<Seq<int>>
    decreases k,
{
    if k == 0 {
        sx0
    } else {
        let prev = nm_iter(uf, base, i, sx0, tol, (k - 1) as nat);
        if cost_sd(cost_seq(uf, base, i, prev)) <= tol {
            prev
        } else {
            nm_step(uf, base, i, prev)
        }
    }
}

/// Once the stopping criterion holds, further iterations change nothing.
proof fn lemma_nm_stall(
    uf: spec_fn(int, StratM) -> int,
    base: StratM,
    i: int,
    sx0: Seq<Seq<int>>,
    tol: int,
    k: nat,
    kk: nat,
)
    requires
        k <= kk,
        cost_sd(cost_seq(uf, base, i, nm_iter(uf, base, i, sx0, tol, k))) <= tol,
    ensures
        nm_iter(uf, base, i, sx0, tol, kk) == nm_iter(uf, base, i, sx0, tol, k),
    decreases kk,
{
    if kk > k {
        lemma_nm_stall(uf, base, i, sx0, tol, k, (kk - 1) as nat);
    }
}

/// The simplex shape survives any number of iterations.
proof fn lemma_nm_iter_wf(
    uf: spec_fn(int, StratM) -> int,
    base: StratM,
    i: int,
    sx0: Seq<Seq<int>>,
    tol: int,
    k: nat,
    d: nat,
)
    requires
        sx_wf(sx0, d),
    ensures
        sx_wf(nm_iter(uf, base, i, sx0, tol, k), d),
    decreases k,
{
    if k > 0 {
        lemma_nm_iter_wf(uf, base, i, sx0, tol, (k - 1) as nat, d);
        lemma_nm_step_wf(uf, base, i, nm_iter(uf, base, i, sx0, tol, (k - 1) as nat), d);
    }
}

/// Run the inner optimizer to its budget or tolerance.
fn nm_run<A: PayoffAggregator>(
    agg: &A,
    base: &Strategies,
    i: usize,
    sx0: Vec<Vec<i64>>,
    costs0: Vec<i64>,
    d: usize,
    max_iters: u64,
    tol: i64,
) -> (r: (Vec<Vec<i64>>, Vec<i64>))
    requires
        agg.wf(),
        base.wf(),
        base@.n == agg.spec_n(),
        agg.spec_compat(base@.t),
        i < agg.spec_n(),
        d == base@.t * kind_width(base@.kind),
        sx_wf(sx_model(sx0@), d as nat),
        costs0@.len() == sx0@.len(),
        ints(costs0@) == cost_seq(agg_uf(*agg), base@, i as int, sx_model(sx0@)),
    ensures
        sx_model(r.0@) == nm_iter(
            agg_uf(*agg),
            base@,
            i as int,
            sx_model(sx0@),
            tol as int,
            max_iters as nat,
        ),
        sx_wf(sx_model(r.0@), d as nat),
        r.1@.len() == r.0@.len(),
        ints(r.1@) == cost_seq(agg_uf(*agg), base@, i as int, sx_model(r.0@)),
{
    let ghost uf = agg_uf(*agg);
    let ghost sxm0 = sx_model(sx0@);
    let mut sx = sx0;
    let mut costs = costs0;
    let mut k: u64 = 0;
    while k < max_iters
        invariant
            0 <= k <= max_iters,
            agg.wf(),
            base.wf(),
            base@.n == agg.spec_n(),
            agg.spec_compat(base@.t),
            i < agg.spec_n(),
            d == base@.t * kind_width(base@.kind),
            uf == agg_uf(*agg),
            sxm0 == sx_model(sx0@),
            sx_wf(sxm0, d as nat),
            sx_model(sx@) == nm_iter(uf, base@, i as int, sxm0, tol as int, k as nat),
            sx_wf(sx_model(sx@), d as nat),
            costs@.len() == sx@.len(),
            ints(costs@) == cost_seq(uf, base@, i as int, sx_model(sx@)),
        decreases max_iters - k,
    {
        let sd = cost_sd_exec(&costs);
        if sd <= tol {
            proof {
                lemma_nm_stall(
                    uf,
                    base@,
                    i as int,
                    sxm0,
                    tol as int,
                    k as nat,
                    max_iters as nat,
                );
            }
            return (sx, costs);
        }
        let (nsx, ncosts) = nm_step_exec(agg, base, i, &sx, &costs, d);
        sx = nsx;
        costs = ncosts;
        k = k + 1;
    }
    (sx, costs)
}

/// Player `i`'s entries of a profile, flattened period-major.
pub open spec fn player_params(s: StratM, i: int) -> Seq<int> {
    let w = kind_width(s.kind);
    Seq::new((s.t * w) as nat, |j: int| s.entry(j / w, i, j % w))
}

/// All profile entries are at least one representable unit (the smallest
/// strictly positive quantity, as the log transform requires).
pub open spec fn strat_pos(s: StratM) -> bool {
    forall|q: int| 0 <= q < s.data.len() ==> 1 <= #[trigger] s.data[q]
}

/// Executable extraction of [`player_params`].
pub fn extract_params(s: &Strategies, i: usize) -> (r: Vec<i64>)
    requires
        s.wf(),
        i < s@.n,
    ensures
        r@.len() == s@.t * kind_width(s@.kind),
        ints(r@) == player_params(s@, i as int),
{
    let w = crate::strategies::width_of(s.kind);
    let t = s.t;
    let ghost ww = kind_width(s@.kind);
    proof {
        crate::strategies::lemma_strat_entry_in_range(s@, s@.t - 1, s@.n - 1, ww - 1);
        vstd::arithmetic::mul::lemma_mul_nonnegative(s@.t, ww);
    }
    let mut out: Vec<i64> = Vec::new();
    let mut ti: usize = 0;
    while ti < t
        invariant
            0 <= ti <= t,
            t as int == s@.t,
            s.wf(),
            i < s@.n,
            w as int == ww,
            ww == kind_width(s@.kind),
            out@.len() == ti * ww,
            forall|q: int|
                0 <= q < ti * ww ==> (#[trigger] out@[q]) as int == player_params(s@, i as int)[q],
        decreases t - ti,
    {
        let mut j: usize = 0;
        while j < w
            invariant
                0 <= j <= w,
                0 <= ti < t,
                t as int == s@.t,
                s.wf(),
                i < s@.n,
                w as int == ww,
                ww == kind_width(s@.kind),
                out@.len() == ti * ww + j,
                forall|q: int|
                    0 <= q < ti * ww + j ==> (#[trigger] out@[q]) as int == player_params(
                        s@,
                        i as int,
                    )[q],
            decreases w - j,
        {
            let ghost out_old = out@;
            proof {
                vstd::arithmetic::mul::lemma_mul_nonnegative(ti as int, ww);
                vstd::arithmetic::mul::lemma_mul_inequality(ti as int + 1, s@.t, ww);
                vstd::arithmetic::mul::lemma_mul_is_distributive_add_other_way(ww, ti as int, 1);
                vstd::arithmetic::mul::lemma_mul_basics(ww);
                vstd::arithmetic::mul::lemma_mul_is_commutative(s@.t, ww);
            }
            let v = s.get(ti, i, j);
            out.push(v);
            proof {
                let q0 = (ti as int) * ww + j as int;
                vstd::arithmetic::div_mod::lemma_fundamental_div_mod_converse(
                    q0,
                    ww,
                    ti as int,
                    j as int,
                );
                assert(player_params(s@, i as int)[q0] == s@.entry(ti as int, i as int, j as int));
                assert forall|q: int| 0 <= q < q0 + 1 implies (#[trigger] out@[q]) as int
                    == player_params(s@, i as int)[q] by {
                    if q < q0 {
                        assert(out@[q] == out_old[q]);
                    } else {
                        assert(out@[q] == v);
                    }
                }
            }
            j = j + 1;
        }
        proof {
            vstd::arithmetic::mul::lemma_mul_is_distributive_add_other_way(ww, ti as int, 1);
            vstd::arithmetic::mul::lemma_mul_basics(ww);
        }
        ti = ti + 1;
    }
    proof {
        vstd::arithmetic::mul::lemma_mul_is_commutative(s@.t, ww);
        assert(ints(out@) =~= player_params(s@, i as int));
    }
    out
}

/// The base point of the initial simplex: the log of the player's current
/// entries.
pub open spec fn base_point(s: StratM, i: int) -> Seq<int> {
    player_params(s, i).map_values(|x: int| spec_ln(x))
}

/// The initial simplex: one vertex per coordinate, the base point with that
/// coordinate stepped by `step`, plus the base point itself.
pub open spec fn simplex0(s: StratM, i: int, step: int) -> Seq<Seq<int>> {
    let b = base_point(s, i);
    let d = b.len();
    Seq::new(
        (d + 1) as nat,
        |v: int|
            if v < d {
                b.update(v, fxadd(b[v], step))
            } else {
                b
            },
    )
}

/// Executable construction of [`simplex0`], with the costs of its vertices.
fn build_simplex<A: PayoffAggregator>(
    agg: &A,
    base: &Strategies,
    i: usize,
    step: i64,
    d: usize,
) -> (r: (Vec<Vec<i64>>, Vec<i64>))
    requires
        agg.wf(),
        base.wf(),
        base@.n == agg.spec_n(),
        agg.spec_compat(base@.t),
        i < agg.spec_n(),
        strat_pos(base@),
        d == base@.t * kind_width(base@.kind),
        d + 1 <= usize::MAX,
    ensures
        sx_model(r.0@) == simplex0(base@, i as int, step as int),
        sx_wf(sx_model(r.0@), d as nat),
        r.1@.len() == r.0@.len(),
        r.0@.len() == d + 1,
        ints(r.1@) == cost_seq(agg_uf(*agg), base@, i as int, sx_model(r.0@)),
{
    let ghost uf = agg_uf(*agg);
    let ghost target = simplex0(base@, i as int, step as int);
    proof {
        assert(base@.t * kind_width(base@.kind) >= 1 * 2) by {
            vstd::arithmetic::mul::lemma_mul_inequality(1, base@.t, kind_width(base@.kind));
            vstd::arithmetic::mul::lemma_mul_basics(kind_width(base@.kind));
            vstd::arithmetic::mul::lemma_mul_is_commutative(base@.t, kind_width(base@.kind));
            vstd::arithmetic::mul::lemma_mul_left_inequality(base@.t, 2, kind_width(base@.kind));
            vstd::arithmetic::mul::lemma_mul_basics(base@.t);
            vstd::arithmetic::mul::lemma_mul_inequality(1, base@.t, 2);
        }
    }
    let pv = extract_params(base, i);
    // Log-transform the player's entries.
    let mut bl: Vec<i64> = Vec::new();
    let mut j: usize = 0;
    proof {
        assert forall|q: int| 0 <= q < pv@.len() implies 1 <= #[trigger] pv@[q] by {
            let w = kind_width(base@.kind);
            assert(ints(pv@)[q] == player_params(base@, i as int)[q]);
            vstd::arithmetic::div_mod::lemma_fundamental_div_mod(q, w);
            vstd::arithmetic::div_mod::lemma_mod_division_less_than_divisor(q, w);
            vstd::arithmetic::div_mod::lemma_div_pos_is_pos(q, w);
            assert(q / w < base@.t) by {
                if q / w >= base@.t {
                    vstd::arithmetic::mul::lemma_mul_inequality(base@.t, q / w, w);
                    vstd::arithmetic::mul::lemma_mul_is_commutative(q / w, w);
                    vstd::arithmetic::mul::lemma_mul_is_commutative(base@.t, w);
                }
            }
            crate::strategies::lemma_strat_entry_in_range(base@, q / w, i as int, q % w);
        }
    }
    while j < d
        invariant
            0 <= j <= d,
            d == pv@.len(),
            forall|q: int| 0 <= q < pv@.len() ==> 1 <= #[trigger] pv@[q],
            ints(pv@) == player_params(base@, i as int),
            bl@.len() == j,
            forall|q: int|
                0 <= q < j ==> (#[trigger] bl@[q]) as int == base_point(base@, i as int)[q],
        decreases d - j,
    {
        let ghost bl_old = bl@;
        let v = crate::transcend::fx_ln(pv[j]);
        bl.push(v);
        proof {
            assert forall|q: int| 0 <= q <= j as int implies (#[trigger] bl@[q]) as int
                == base_point(base@, i as int)[q] by {
                if q < j as int {
                    assert(bl@[q] == bl_old[q]);
                } else {
                    assert(bl@[q] == v);
                }
            }
        }
        j = j + 1;
    }
    proof {
        assert(ints(bl@) =~= base_point(base@, i as int));
    }
    // One stepped vertex per coordinate, then the base point.
    let mut sx: Vec<Vec<i64>> = Vec::new();
    let mut costs: Vec<i64> = Vec::new();
    let mut v: usize = 0;
    while v < d
        invariant
            0 <= v <= d,
            agg.wf(),
            base.wf(),
            base@.n == agg.spec_n(),
            agg.spec_compat(base@.t),
            i < agg.spec_n(),
            d == base@.t * kind_width(base@.kind),
            uf == agg_uf(*agg),
            target == simplex0(base@, i as int, step as int),
            bl@.len() == d,
            ints(bl@) == base_point(base@, i as int),
            sx@.len() == v,
            costs@.len() == v,
            forall|q: int| 0 <= q < v ==> ints((#[trigger] sx@[q])@) == target[q],
            forall|q: int|
                0 <= q < v ==> (#[trigger] costs@[q]) as int == spec_cost(
                    uf,
                    base@,
                    i as int,
                    target[q],
                ),
        decreases d - v,
    {
        let ghost sx_old = sx@;
        let ghost c_old = costs@;
        let mut vert: Vec<i64> = Vec::new();
        let mut q: usize = 0;
        while q < d
            invariant
                0 <= q <= d,
                0 <= v < d,
                bl@.len() == d,
                vert@.len() == q,
                forall|p: int|
                    0 <= p < q ==> (#[trigger] vert@[p]) as int == (if p == v as int {
                        fxadd(ints(bl@)[p], step as int)
                    } else {
                        ints(bl@)[p]
                    }),
            decreases d - q,
        {
            let ghost vert_old = vert@;
            let x: i64 = if q == v {
                fx_add(bl[q], step)
            } else {
                bl[q]
            };
            vert.push(x);
            proof {
                assert forall|p: int| 0 <= p <= q as int implies (#[trigger] vert@[p]) as int == (
                if p == v as int {
                    fxadd(ints(bl@)[p], step as int)
                } else {
                    ints(bl@)[p]
                }) by {
                    if p < q as int {
                        assert(vert@[p] == vert_old[p]);
                    } else {
                        assert(vert@[p] == x);
                    }
                }
            }
            q = q + 1;
        }
        proof {
            assert(ints(vert@) =~= base_point(base@, i as int).update(
                v as int,
                fxadd(base_point(base@, i as int)[v as int], step as int),
            ));
            assert(target[v as int] == base_point(base@, i as int).update(
                v as int,
                fxadd(base_point(base@, i as int)[v as int], step as int),
            ));
        }
        let c = eval_cost(agg, base, i, &vert);
        sx.push(vert);
        costs.push(c);
        proof {
            assert forall|q: int| 0 <= q <= v as int implies ints((#[trigger] sx@[q])@)
                == target[q] && (costs@[q]) as int == spec_cost(uf, base@, i as int, target[q])
                by {
                if q < v as int {
                    assert(sx@[q] == sx_old[q]);
                    assert(costs@[q] == c_old[q]);
                }
            }
        }
        v = v + 1;
    }
    let basev = dup_vec(&bl);
    let cb = eval_cost(agg, base, i, &basev);
    sx.push(basev);
    costs.push(cb);
    proof {
        assert(target[d as int] == base_point(base@, i as int));
        assert(sx_model(sx@) =~= target);
        assert(ints(costs@) =~= cost_seq(uf, base@, i as int, target));
        assert forall|p: int| 0 <= p < target.len() implies (#[trigger] target[p]).len()
            == d as nat by {
        }
    }
    (sx, costs)
}

/// The inner solve for one player: the exponentials of the best vertex after
/// the Nelder-Mead budget, from the initial simplex around the player's
/// current log-entries.
pub open spec fn spec_solve_for_i(
    uf: spec_fn(int, StratM) -> int,
    base: StratM,
    i: int,
    step: int,
    inner_max: nat,
    inner_tol: int,
) -> Seq<int> {
    let sxf = nm_iter(uf, base, i, simplex0(base, i, step), inner_tol, inner_max);
    exp_seq(sxf[idx_min(cost_seq(uf, base, i, sxf))])
}

/// Executable inner solve for one player.
fn solve_for_i<A: PayoffAggregator>(
    agg: &A,
    base: &Strategies,
    i: usize,
    step: i64,
    inner_max: u64,
    inner_tol: i64,
    d: usize,
) -> (r: Vec<i64>)
    requires
        agg.wf(),
        base.wf(),
        base@.n == agg.spec_n(),
        agg.spec_compat(base@.t),
        i < agg.spec_n(),
        strat_pos(base@),
        d == base@.t * kind_width(base@.kind),
        d + 1 <= usize::MAX,
    ensures
        ints(r@) == spec_solve_for_i(
            agg_uf(*agg),
            base@,
            i as int,
            step as int,
            inner_max as nat,
            inner_tol as int,
        ),
        r@.len() == d,
        forall|q: int| 0 <= q < r@.len() ==> 1 <= (#[trigger] r@[q]) as int <= FX_MAX as int,
{
    let ghost uf = agg_uf(*agg);
    let (sx0, costs0) = build_simplex(agg, base, i, step, d);
    let (sxf, costsf) = nm_run(agg, base, i, sx0, costs0, d, inner_max, inner_tol);
    let (bi, _wi, _fs) = scan_costs(&costsf);
    proof {
        lemma_idx_minmax(ints(costsf@));
        assert(idx_min(ints(costsf@)) == idx_min(
            cost_seq(uf, base@, i as int, sx_model(sxf@)),
        ));
        assert(sx_model(sxf@)[bi as int] == ints(sxf@[bi as int]@));
        assert(sx_model(sxf@)[bi as int].len() == d as nat);
    }
    exp_params(&sxf[bi])
}

/// The entries of an exponential are strictly positive and representable.
proof fn lemma_exp_seq_pos(params: Seq<int>)
    ensures
        exp_seq(params).len() == params.len(),
        forall|q: int|
            0 <= q < params.len() ==> 1 <= #[trigger] exp_seq(params)[q] <= FX_MAX as int,
{
    assert forall|q: int| 0 <= q < params.len() implies 1 <= #[trigger] exp_seq(params)[q]
        <= FX_MAX as int by {
        crate::transcend::lemma_exp2_range(fxm(params[q], crate::transcend::LOG2E_FX as int));
    }
}

/// The inner solve yields one strictly positive value per coordinate.
proof fn lemma_solve_for_i_pos(
    uf: spec_fn(int, StratM) -> int,
    base: StratM,
    i: int,
    step: int,
    imax: nat,
    itol: int,
    d: nat,
)
    requires
        base.wf(),
        d == base.t * kind_width(base.kind),
    ensures
        spec_solve_for_i(uf, base, i, step, imax, itol).len() == d,
        forall|q: int|
            0 <= q < d ==> 1 <= #[trigger] spec_solve_for_i(uf, base, i, step, imax, itol)[q]
                <= FX_MAX as int,
{
    let sx0 = simplex0(base, i, step);
    assert(sx_wf(sx0, d)) by {
        assert(base_point(base, i).len() == d);
        assert(base.t * kind_width(base.kind) >= 1 * 2) by {
            vstd::arithmetic::mul::lemma_mul_left_inequality(base.t, 2, kind_width(base.kind));
            vstd::arithmetic::mul::lemma_mul_basics(base.t);
            vstd::arithmetic::mul::lemma_mul_inequality(1, base.t, 2);
        }
        assert forall|v: int| 0 <= v < sx0.len() implies (#[trigger] sx0[v]).len() == d by {
        }
    }
    lemma_nm_iter_wf(uf, base, i, sx0, itol, imax, d);
    let sxf = nm_iter(uf, base, i, sx0, itol, imax);
    lemma_idx_minmax(cost_seq(uf, base, i, sxf));
    lemma_exp_seq_pos(sxf[idx_min(cost_seq(uf, base, i, sxf))]);
}

/// All players' best responses to the snapshot `base`, applied player by
/// player (a Jacobi batch update: every inner solve sees the same `base`).
pub open spec fn apply_players(
    uf: spec_fn(int, StratM) -> int,
    base: StratM,
    upto: nat,
    step: int,
    imax: nat,
    itol: int,
) -> StratM
    decreases upto,
{
    if upto == 0 {
        base
    } else {
        set_player(
            apply_players(uf, base, (upto - 1) as nat, step, imax, itol),
            upto - 1,
            spec_solve_for_i(uf, base, upto - 1, step, imax, itol),
        )
    }
}

/// One outer iteration: all players updated against the same snapshot.
pub open spec fn outer_step(
    uf: spec_fn(int, StratM) -> int,
    n: nat,
    base: StratM,
    step: int,
    imax: nat,
    itol: int,
) -> StratM {
    apply_players(uf, base, n, step, imax, itol)
}

/// The batch update keeps the shape and strict positivity of the profile.
proof fn lemma_apply_players_good(
    uf: spec_fn(int, StratM) -> int,
    base: StratM,
    upto: nat,
    step: int,
    imax: nat,
    itol: int,
)
    requires
        base.wf(),
        strat_pos(base),
    ensures
        ({
            let r = apply_players(uf, base, upto, step, imax, itol);
            &&& r.wf()
            &&& r.kind == base.kind
            &&& r.t == base.t
            &&& r.n == base.n
            &&& r.data.len() == base.data.len()
            &&& strat_pos(r)
        }),
    decreases upto,
{
    if upto > 0 {
        lemma_apply_players_good(uf, base, (upto - 1) as nat, step, imax, itol);
        let prev = apply_players(uf, base, (upto - 1) as nat, step, imax, itol);
        let i = upto - 1;
        let vals = spec_solve_for_i(uf, base, i, step, imax, itol);
        let d = (base.t * kind_width(base.kind)) as nat;
        lemma_solve_for_i_pos(uf, base, i, step, imax, itol, d);
        let r = set_player(prev, i, vals);
        let w = kind_width(base.kind);
        let nw = base.n * w;
        assert(nw >= 1) by {
            vstd::arithmetic::mul::lemma_mul_inequality(1, base.n, w);
            vstd::arithmetic::mul::lemma_mul_basics(base.n);
            vstd::arithmetic::mul::lemma_mul_basics(w);
            vstd::arithmetic::mul::lemma_mul_is_commutative(base.n, w);
        }
        assert forall|q: int| 0 <= q < r.data.len() implies 1 <= #[trigger] r.data[q] by {
            let pos = q % nw;
            vstd::arithmetic::div_mod::lemma_fundamental_div_mod(q, nw);
            vstd::arithmetic::div_mod::lemma_mod_division_less_than_divisor(q, nw);
            vstd::arithmetic::div_mod::lemma_div_pos_is_pos(q, nw);
            if pos / w == i {
                let ti = q / nw;
                vstd::arithmetic::div_mod::lemma_fundamental_div_mod(pos, w);
                vstd::arithmetic::div_mod::lemma_mod_division_less_than_divisor(pos, w);
                vstd::arithmetic::div_mod::lemma_div_pos_is_pos(pos, w);
                assert(ti < base.t) by {
                    if ti >= base.t {
                        vstd::arithmetic::mul::lemma_mul_inequality(base.t, ti, nw);
                        vstd::arithmetic::mul::lemma_mul_is_commutative(ti, nw);
                        vstd::arithmetic::mul::lemma_mul_is_associative(base.t, base.n, w);
                    }
                }
                assert(ti * w + pos % w < base.t * w) by {
                    vstd::arithmetic::mul::lemma_mul_inequality(ti + 1, base.t, w);
                    vstd::arithmetic::mul::lemma_mul_is_distributive_add_other_way(w, ti, 1);
                    vstd::arithmetic::mul::lemma_mul_basics(w);
                }
                vstd::arithmetic::mul::lemma_mul_nonnegative(ti, w);
                vstd::arithmetic::mul::lemma_mul_is_commutative(base.t, w);
                assert(1 <= vals[ti * w + pos % w]);
            } else {
                assert(r.data[q] == prev.data[q]);
            }
        }
    }
}

/// Entrywise log-space closeness of two equally shaped profiles.
pub open spec fn profiles_close(a: StratM, b: StratM, rtol: int) -> bool {
    forall|q: int|
        0 <= q < a.data.len() && q < b.data.len() ==> crate::utils::spec_isapprox(
            spec_ln(#[trigger] a.data[q]),
            spec_ln(b.data[q]),
            rtol,
            OUTER_ATOL as int,
        )
}

/// Executable log-space convergence test.
pub fn within_tol(a: &Strategies, b: &Strategies, rtol: i64) -> (r: bool)
    requires
        strat_pos(a@),
        strat_pos(b@),
    ensures
        r == profiles_close(a@, b@, rtol as int),
{
    let m = if a.data.len() <= b.data.len() {
        a.data.len()
    } else {
        b.data.len()
    };
    let mut q: usize = 0;
    while q < m
        invariant
            0 <= q <= m,
            strat_pos(a@),
            strat_pos(b@),
            m == if a.data@.len() <= b.data@.len() {
                a.data@.len()
            } else {
                b.data@.len()
            },
            forall|p: int|
                0 <= p < q ==> crate::utils::spec_isapprox(
                    spec_ln(#[trigger] a@.data[p]),
                    spec_ln(b@.data[p]),
                    rtol as int,
                    OUTER_ATOL as int,
                ),
        decreases m - q,
    {
        proof {
            assert(a@.data[q as int] >= 1);
            assert(b@.data[q as int] >= 1);
        }
        let la = fx_ln(a.data[q]);
        let lb = fx_ln(b.data[q]);
        if !crate::utils::isapprox(la, lb, rtol, OUTER_ATOL) {
            return false;
        }
        q = q + 1;
    }
    true
}

/// The executable batch update.
fn update_strat<A: PayoffAggregator>(
    agg: &A,
    cur: &Strategies,
    step: i64,
    imax: u64,
    itol: i64,
    d: usize,
) -> (r: Strategies)
    requires
        agg.wf(),
        cur.wf(),
        cur@.n == agg.spec_n(),
        agg.spec_compat(cur@.t),
        strat_pos(cur@),
        d == cur@.t * kind_width(cur@.kind),
        d + 1 <= usize::MAX,
    ensures
        r@ == outer_step(
            agg_uf(*agg),
            agg.spec_n() as nat,
            cur@,
            step as int,
            imax as nat,
            itol as int,
        ),
        r.wf(),
        strat_pos(r@),
        r@.kind == cur@.kind,
        r@.t == cur@.t,
        r@.n == cur@.n,
{
    let ghost uf = agg_uf(*agg);
    let n = agg.n();
    let mut vals: Vec<Vec<i64>> = Vec::new();
    let mut i: usize = 0;
    while i < n
        invariant
            0 <= i <= n,
            n as int == agg.spec_n(),
            agg.wf(),
            cur.wf(),
            cur@.n == agg.spec_n(),
            agg.spec_compat(cur@.t),
            strat_pos(cur@),
            d == cur@.t * kind_width(cur@.kind),
            d + 1 <= usize::MAX,
            uf == agg_uf(*agg),
            vals@.len() == i,
            forall|q: int|
                0 <= q < i ==> ints((#[trigger] vals@[q])@) == spec_solve_for_i(
                    uf,
                    cur@,
                    q,
                    step as int,
                    imax as nat,
                    itol as int,
                ) && vals@[q]@.len() == d,
        decreases n - i,
    {
        let ghost vals_old = vals@;
        let v = solve_for_i(agg, cur, i, step, imax, itol, d);
        vals.push(v);
        proof {
            assert forall|q: int| 0 <= q <= i as int implies ints((#[trigger] vals@[q])@)
                == spec_solve_for_i(uf, cur@, q, step as int, imax as nat, itol as int)
                && vals@[q]@.len() == d by {
                if q < i as int {
                    assert(vals@[q] == vals_old[q]);
                }
            }
        }
        i = i + 1;
    }
    let mut out = cur.dup();
    let mut p: usize = 0;
    while p < n
        invariant
            0 <= p <= n,
            n as int == agg.spec_n(),
            agg.wf(),
            cur.wf(),
            cur@.n == agg.spec_n(),
            strat_pos(cur@),
            d == cur@.t * kind_width(cur@.kind),
            uf == agg_uf(*agg),
            vals@.len() == n,
            forall|q: int|
                0 <= q < n ==> ints((#[trigger] vals@[q])@) == spec_solve_for_i(
                    uf,
                    cur@,
                    q,
                    step as int,
                    imax as nat,
                    itol as int,
                ) && vals@[q]@.len() == d,
            out@ == apply_players(uf, cur@, p as nat, step as int, imax as nat, itol as int),
            out.wf(),
            out@.kind == cur@.kind,
            out@.t == cur@.t,
            out@.n == cur@.n,
        decreases n - p,
    {
        let nxt = insert_params(&out, p, &vals[p]);
        out = nxt;
        p = p + 1;
    }
    proof {
        lemma_apply_players_good(
            uf,
            cur@,
            agg.spec_n() as nat,
            step as int,
            imax as nat,
            itol as int,
        );
    }
    out
}

/// Iterated outer steps with early exit on log-space convergence: the exact
/// value the solver returns for a fixed starting profile.
pub open spec fn spec_solve_rec(
    uf: spec_fn(int, StratM) -> int,
    n: nat,
    cur: StratM,
    rtol: int,
    step: int,
    imax: nat,
    itol: int,
    fuel: nat,
) -> StratM
    decreases fuel,
{
    if fuel == 0 {
        cur
    } else {
        let next = outer_step(uf, n, cur, step, imax, itol);
        if profiles_close(next, cur, rtol) {
            next
        } else {
            spec_solve_rec(uf, n, next, rtol, step, imax, itol, (fuel - 1) as nat)
        }
    }
}

/// The solver as a pure function of the aggregator's utility model, the
/// starting profile and the options.
pub open spec fn spec_solve(
    uf: spec_fn(int, StratM) -> int,
    n: nat,
    guess: StratM,
    max_iters: nat,
    rtol: int,
    step: int,
    imax: nat,
    itol: int,
) -> StratM {
    spec_solve_rec(uf, n, guess, rtol, step, imax, itol, max_iters)
}

/// Two aggregators with the same utility model solve to the same profile:
/// the solver is a deterministic function of the utility model, the guess
/// and the options.
pub proof fn lemma_solve_deterministic(
    u1: spec_fn(int, StratM) -> int,
    u2: spec_fn(int, StratM) -> int,
    n: nat,
    guess: StratM,
    max_iters: nat,
    rtol: int,
    step: int,
    imax: nat,
    itol: int,
)
    requires
        forall|i: int, s: StratM| #[trigger] u1(i, s) == u2(i, s),
    ensures
        spec_solve(u1, n, guess, max_iters, rtol, step, imax, itol) == spec_solve(
            u2,
            n,
            guess,
            max_iters,
            rtol,
            step,
            imax,
            itol,
        ),
{
    assert(u1 =~= u2);
}

/// How the solver starts: a freshly drawn random profile with the given
/// period count and action kind, or a supplied profile.
#[derive(Clone, Debug)]
pub enum InitGuess {
    Random(usize, ActionKind),
    Fixed(Strategies),
}

/// Options of the inner Nelder-Mead optimizer.
#[derive(Clone, Debug)]
pub struct NMOptions {
    /// Log-space offset of each non-base vertex of the initial simplex.
    pub init_simplex_size: i64,
    /// Inner iteration budget per player and outer iteration.
    pub max_iters: u64,
    /// Stop once the cost standard deviation falls this low.
    pub tol: i64,
}

impl Default for NMOptions {
    /// Simplex size `0.1`, budget 200, tolerance one representable unit
    /// (about `6e-8`): the conventional default of `1e-8` lies below the
    /// fixed-point resolution, and one unit is its closest nonzero analogue
    /// (zero would demand an exactly flat simplex).
    fn default() -> (r: NMOptions)
        ensures
            r.init_simplex_size == 1677722,
            r.max_iters == 200,
            r.tol == 1,
    {
        NMOptions { init_simplex_size: 1677722, max_iters: 200, tol: 1 }
    }
}

/// Options of the outer best-response iteration.
#[derive(Clone, Debug)]
pub struct SolverOptions {
    /// Starting profile.
    pub init_guess: InitGuess,
    /// Outer iteration budget.
    pub max_iters: u64,
    /// Relative tolerance of the entrywise log-space convergence test.
    pub tol: i64,
    /// Inner optimizer options.
    pub nm_options: NMOptions,
}

impl SolverOptions {
    /// A supplied fixed guess must be a well-formed container.
    pub open spec fn wf(&self) -> bool {
        match self.init_guess {
            InitGuess::Fixed(g) => g.wf(),
            InitGuess::Random(t, k) => true,
        }
    }

    /// Default options around a supplied starting profile: 200 outer
    /// iterations, relative tolerance about `1e-6` (17 representable units).
    pub fn from_init_guess(init_guess: Strategies) -> (r: SolverOptions)
        requires
            init_guess.wf(),
        ensures
            r.wf(),
            r.init_guess == InitGuess::Fixed(init_guess),
            r.max_iters == 200,
            r.tol == 17,
            r.nm_options.init_simplex_size == 1677722,
            r.nm_options.max_iters == 200,
            r.nm_options.tol == 1,
    {
        SolverOptions {
            init_guess: InitGuess::Fixed(init_guess),
            max_iters: 200,
            tol: 17,
            nm_options: NMOptions::default(),
        }
    }

    /// Default options around a random basic-kind starting profile with `t`
    /// periods: the same budgets and tolerances as
    /// [`SolverOptions::from_init_guess`].
    pub fn random_init(t: usize) -> (r: SolverOptions)
        ensures
            r.wf(),
            r.init_guess == InitGuess::Random(t, ActionKind::Basic),
            r.max_iters == 200,
            r.tol == 17,
            r.nm_options.tol == 1,
    {
        SolverOptions {
            init_guess: InitGuess::Random(t, ActionKind::Basic),
            max_iters: 200,
            tol: 17,
            nm_options: NMOptions::default(),
        }
    }
}

/// What holds of a random-start solution, whatever the generator returned:
/// the result is the deterministic solve of some well-formed, strictly
/// positive starting profile of the requested shape whose every entry is a
/// log-normal-like draw around the fixed mean and spread.
pub open spec fn solved_from_draw<A: PayoffAggregator>(
    agg: A,
    res: StratM,
    t: int,
    k: ActionKind,
    max_iters: nat,
    rtol: int,
    step: int,
    imax: nat,
    itol: int,
) -> bool {
    exists|g0: StratM|
        {
            &&& g0.wf()
            &&& g0.t == t
            &&& g0.n == agg.spec_n()
            &&& g0.kind == k
            &&& strat_pos(g0)
            &&& (forall|q: int|
                0 <= q < g0.data.len() ==> crate::strategies::lognormal_draw(
                    #[trigger] g0.data[q],
                    INIT_MU as int,
                    INIT_SIGMA as int,
                ))
            &&& res == #[trigger] spec_solve(
                agg_uf(agg),
                agg.spec_n() as nat,
                g0,
                max_iters,
                rtol,
                step,
                imax,
                itol,
            )
        }
}

/// Whether a fixed guess is acceptable for this aggregator: matching player
/// count and period count, strictly positive entries, and a slice size the
/// simplex can carry.
pub open spec fn fixed_guess_ok<A: PayoffAggregator>(agg: A, g: StratM) -> bool {
    &&& g.n == agg.spec_n()
    &&& agg.spec_compat(g.t)
    &&& strat_pos(g)
    &&& g.t * kind_width(g.kind) < usize::MAX
}

/// Compute an equilibrium-candidate strategy profile.
///
/// For a fixed guess the result is exactly [`spec_solve`] applied to the
/// aggregator's utility model; reaching the outer iteration budget is not an
/// error.  `Shape` is returned when the guess does not fit the aggregator,
/// and `NonPositiveGuess` when a fixed guess has an entry below one
/// representable unit.
pub fn solve<A: PayoffAggregator>(agg: &A, options: &SolverOptions) -> (r: Result<
    Strategies,
    SolveError,
>)
    requires
        agg.wf(),
        options.wf(),
    ensures
        match options.init_guess {
            InitGuess::Fixed(g) => {
                &&& (r is Ok <==> fixed_guess_ok(*agg, g@))
                &&& (r is Ok ==> r->Ok_0@ == spec_solve(
                    agg_uf(*agg),
                    agg.spec_n() as nat,
                    g@,
                    options.max_iters as nat,
                    options.tol as int,
                    options.nm_options.init_simplex_size as int,
                    options.nm_options.max_iters as nat,
                    options.nm_options.tol as int,
                ))
                &&& ((g@.n != agg.spec_n() || !agg.spec_compat(g@.t) || g@.t * kind_width(g@.kind)
                    >= usize::MAX) ==> r == Result::<Strategies, SolveError>::Err(
                    SolveError::Shape,
                ))
            },
            InitGuess::Random(t, k) => {
                &&& (r is Ok <==> (t >= 1 && agg.spec_compat(t as int) && t * agg.spec_n()
                    * kind_width(k) <= usize::MAX && t * kind_width(k) < usize::MAX))
                &&& (r is Ok ==> ({
                    let s = r->Ok_0;
                    &&& s.wf()
                    &&& s@.t == t
                    &&& s@.n == agg.spec_n()
                    &&& s@.kind == k
                    &&& strat_pos(s@)
                }))
                &&& (r is Ok ==> solved_from_draw(
                    *agg,
                    r->Ok_0@,
                    t as int,
                    k,
                    options.max_iters as nat,
                    options.tol as int,
                    options.nm_options.init_simplex_size as int,
                    options.nm_options.max_iters as nat,
                    options.nm_options.tol as int,
                ))
            },
        },
        r is Ok ==> ({
            let s = r->Ok_0;
            &&& s.wf()
            &&& s@.n == agg.spec_n()
            &&& strat_pos(s@)
        }),
{
    let ghost uf = agg_uf(*agg);
    let n = agg.n();
    let mut cur: Strategies = match &options.init_guess {
        InitGuess::Fixed(g) => {
            if g.n() != n || !agg.check_compat(g.t()) {
                return Err(SolveError::Shape);
            }
            let w = crate::strategies::width_of(g.kind);
            let tw: u128 = (g.t() as u128) * (w as u128);
            proof {
                vstd::arithmetic::mul::lemma_mul_upper_bound(
                    g@.t,
                    0xFFFFFFFFFFFFFFFF,
                    kind_width(g@.kind),
                    4,
                );
            }
            if tw >= usize::MAX as u128 {
                return Err(SolveError::Shape);
            }
            // Validate strict positivity of every entry.
            let gl = g.data.len();
            let mut q: usize = 0;
            while q < gl
                invariant
                    0 <= q <= gl,
                    gl == g.data@.len(),
                    options.init_guess == InitGuess::Fixed(*g),
                    agg.wf(),
                    g@.n == agg.spec_n(),
                    agg.spec_compat(g@.t),
                    g@.t * kind_width(g@.kind) < usize::MAX,
                    forall|p: int| 0 <= p < q ==> 1 <= #[trigger] g@.data[p],
                decreases gl - q,
            {
                if g.data[q] < 1 {
                    proof {
                        assert(g@.data[q as int] == g.data@[q as int] as int);
                        assert(!strat_pos(g@));
                    }
                    return Err(SolveError::NonPositiveGuess);
                }
                proof {
                    assert(g@.data[q as int] == g.data@[q as int] as int);
                }
                q = q + 1;
            }
            g.dup()
        },
        InitGuess::Random(t, k) => {
            if *t == 0 || !agg.check_compat(*t) {
                return Err(SolveError::Shape);
            }
            proof {
                agg.lemma_n_pos();
            }
            match Strategies::random(*t, n, *k, INIT_MU, INIT_SIGMA) {
                Ok(s) => {
                    proof {
                        lemma_tw_le_len(s@);
                        vstd::arithmetic::mul::lemma_mul_is_associative(
                            *t as int,
                            agg.spec_n(),
                            kind_width(*k),
                        );
                    }
                    s
                },
                Err(_) => {
                    proof {
                        vstd::arithmetic::mul::lemma_mul_is_associative(
                            *t as int,
                            agg.spec_n(),
                            kind_width(*k),
                        );
                    }
                    return Err(SolveError::Shape);
                },
            }
        },
    };
    let ghost guess0 = cur@;
    let w = crate::strategies::width_of(cur.kind);
    proof {
        vstd::arithmetic::mul::lemma_mul_upper_bound(
            cur@.t,
            0xFFFFFFFFFFFFFFFF,
            kind_width(cur@.kind),
            4,
        );
    }
    let tw: u128 = (cur.t() as u128) * (w as u128);
    if tw >= usize::MAX as u128 {
        proof {
            // A fixed guess with this shape was already rejected above.
            lemma_tw_le_len(cur@);
        }
        return Err(SolveError::Shape);
    }
    let d = cur.t() * w;
    let step = options.nm_options.init_simplex_size;
    let imax = options.nm_options.max_iters;
    let itol = options.nm_options.tol;
    let mut k: u64 = 0;
    while k < options.max_iters
        invariant
            0 <= k <= options.max_iters,
            agg.wf(),
            cur.wf(),
            cur@.n == agg.spec_n(),
            agg.spec_compat(cur@.t),
            strat_pos(cur@),
            cur@.t == guess0.t,
            cur@.kind == guess0.kind,
            cur@.n == guess0.n,
            uf == agg_uf(*agg),
            d as int == cur@.t * kind_width(cur@.kind),
            d < usize::MAX,
            step == options.nm_options.init_simplex_size,
            imax == options.nm_options.max_iters,
            itol == options.nm_options.tol,
            options.init_guess is Fixed ==> (fixed_guess_ok(*agg, options.init_guess->Fixed_0@)
                && guess0 == options.init_guess->Fixed_0@),
            options.init_guess is Random ==> (guess0.t == options.init_guess->Random_0
                && guess0.kind == options.init_guess->Random_1 && guess0.t >= 1
                && agg.spec_compat(guess0.t) && guess0.t * agg.spec_n() * kind_width(guess0.kind)
                <= usize::MAX && guess0.t * kind_width(guess0.kind) < usize::MAX && guess0.wf()
                && guess0.n == agg.spec_n() && strat_pos(guess0) && (forall|q: int|
                0 <= q < guess0.data.len() ==> crate::strategies::lognormal_draw(
                    #[trigger] guess0.data[q],
                    INIT_MU as int,
                    INIT_SIGMA as int,
                ))),
            spec_solve_rec(
                uf,
                agg.spec_n() as nat,
                cur@,
                options.tol as int,
                step as int,
                imax as nat,
                itol as int,
                (options.max_iters - k) as nat,
            ) == spec_solve_rec(
                uf,
                agg.spec_n() as nat,
                guess0,
                options.tol as int,
                step as int,
                imax as nat,
                itol as int,
                options.max_iters as nat,
            ),
        decreases options.max_iters - k,
    {
        let next = update_strat(agg, &cur, step, imax, itol, d);
        if within_tol(&next, &cur, options.tol) {
            proof {
                assert(spec_solve_rec(
                    uf,
                    agg.spec_n() as nat,
                    cur@,
                    options.tol as int,
                    step as int,
                    imax as nat,
                    itol as int,
                    (options.max_iters - k) as nat,
                ) == next@);
                assert(next@ == spec_solve(
                    uf,
                    agg.spec_n() as nat,
                    guess0,
                    options.max_iters as nat,
                    options.tol as int,
                    step as int,
                    imax as nat,
                    itol as int,
                ));
                if options.init_guess is Random {
                    assert(solved_from_draw(
                        *agg,
                        next@,
                        options.init_guess->Random_0 as int,
                        options.init_guess->Random_1,
                        options.max_iters as nat,
                        options.tol as int,
                        options.nm_options.init_simplex_size as int,
                        options.nm_options.max_iters as nat,
                        options.nm_options.tol as int,
                    ));
                }
            }
            return Ok(next);
        }
        cur = next;
        k = k + 1;
    }
    proof {
        assert(cur@ == spec_solve(
            uf,
            agg.spec_n() as nat,
            guess0,
            options.max_iters as nat,
            options.tol as int,
            step as int,
            imax as nat,
            itol as int,
        ));
        if options.init_guess is Random {
            assert(solved_from_draw(
                *agg,
                cur@,
                options.init_guess->Random_0 as int,
                options.init_guess->Random_1,
                options.max_iters as nat,
                options.tol as int,
                options.nm_options.init_simplex_size as int,
                options.nm_options.max_iters as nat,
                options.nm_options.tol as int,
            ));
        }
    }
    Ok(cur)
}

/// In a well-formed profile the per-player slice is no longer than the whole
/// data array.
proof fn lemma_tw_le_len(s: StratM)
    requires
        s.wf(),
    ensures
        s.t * kind_width(s.kind) <= s.data.len(),
{
    let w = kind_width(s.kind);
    assert(s.t * w * 1 <= (s.t * w) * s.n) by {
        vstd::arithmetic::mul::lemma_mul_left_inequality(s.t * w, 1, s.n);
        vstd::arithmetic::mul::lemma_mul_basics(s.t * w);
        vstd::arithmetic::mul::lemma_mul_nonnegative(s.t, w);
    }
    assert((s.t * w) * s.n == s.t * s.n * w) by {
        vstd::arithmetic::mul::lemma_mul_is_associative(s.t, w, s.n);
        vstd::arithmetic::mul::lemma_mul_is_commutative(w, s.n);
        vstd::arithmetic::mul::lemma_mul_is_associative(s.t, s.n, w);
    }
    vstd::arithmetic::mul::lemma_mul_basics(s.t * w);
}

} // verus!
