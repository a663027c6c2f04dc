//! Risk primitive: the probability that a player stays safe conditional on
//! winning the contest.

use vstd::prelude::*;

use crate::fixed::{fxadd, fxd, fxm, ints, sat64, SCALE};
use crate::fixed::{fx_add, fx_div, fx_mul, fx_neg};
use crate::strategies::dup_vec;
use crate::transcend::{fx_pow, spec_pow};

verus! {

/// Mathematical model of [`WinnerOnlyRisk`].
pub struct RiskM {
    pub theta: Seq<int>,
}

impl RiskM {
    /// Player count.
    pub open spec fn n(&self) -> int {
        self.theta.len() as int
    }

    /// `sigma_i = s_ / (1 + s_)` with `s_ = s_i * p_i^(-theta_i)`.
    pub open spec fn sigma_i(&self, s: Seq<int>, p: Seq<int>, i: int) -> int {
        let s_ = fxm(s[i], spec_pow(p[i], sat64(-self.theta[i])));
        fxd(s_, fxadd(SCALE as int, s_))
    }
}

/// Risk borne by the contest winner only: the safety probability rises in
/// safety output and falls in contest output with elasticity `theta`.
#[derive(Clone, Debug)]
pub struct WinnerOnlyRisk {
    pub theta: Vec<i64>,
}

impl View for WinnerOnlyRisk {
    type V = RiskM;

    open spec fn view(&self) -> RiskM {
        RiskM { theta: ints(self.theta@) }
    }
}

impl WinnerOnlyRisk {
    /// A homogeneous risk function: every player has elasticity `theta`.
    pub fn new(n: usize, theta: i64) -> (r: WinnerOnlyRisk)
        ensures
            r@.n() == n,
            forall|i: int| 0 <= i < n ==> r@.theta[i] == theta as int,
    {
        let mut v: Vec<i64> = Vec::new();
        let mut i: usize = 0;
        while i < n
            invariant
                0 <= i <= n,
                v@.len() == i,
                forall|q: int| 0 <= q < i ==> #[trigger] v@[q] == theta,
            decreases n - i,
        {
            v.push(theta);
            i = i + 1;
        }
        WinnerOnlyRisk { theta: v }
    }

    /// Player count.
    pub fn n(&self) -> (r: usize)
        ensures
            r as int == self@.n(),
    {
        self.theta.len()
    }

    /// An exact copy.
    pub fn dup(&self) -> (r: WinnerOnlyRisk)
        ensures
            r@ == self@,
    {
        let r = WinnerOnlyRisk { theta: dup_vec(&self.theta) };
        proof {
            assert(r@.theta =~= self@.theta);
        }
        r
    }

    /// Safety probability of player `i`, given all outputs.
    pub fn sigma_i(&self, i: usize, s: &Vec<i64>, p: &Vec<i64>) -> (r: i64)
        requires
            i < self@.n(),
            i < s@.len(),
            i < p@.len(),
        ensures
            r as int == self@.sigma_i(ints(s@), ints(p@), i as int),
    {
        let s_ = fx_mul(s[i], fx_pow(p[i], fx_neg(self.theta[i])));
        fx_div(s_, fx_add(SCALE, s_))
    }

    /// Safety probabilities of all players.
    pub fn sigma(&self, s: &Vec<i64>, p: &Vec<i64>) -> (r: Vec<i64>)
        requires
            s@.len() == self@.n(),
            p@.len() == self@.n(),
        ensures
            r@.len() == self@.n(),
            forall|i: int|
                0 <= i < self@.n() ==> (#[trigger] r@[i]) as int == self@.sigma_i(
                    ints(s@),
                    ints(p@),
                    i,
                ),
    {
        let n = self.theta.len();
        let mut out: Vec<i64> = Vec::new();
        let mut i: usize = 0;
        while i < n
            invariant
                0 <= i <= n,
                n as int == self@.n(),
                s@.len() == self@.n(),
                p@.len() == self@.n(),
                out@.len() == i,
                forall|q: int|
                    0 <= q < i ==> (#[trigger] out@[q]) as int == self@.sigma_i(
                        ints(s@),
                        ints(p@),
                        q,
                    ),
            decreases n - i,
        {
            let ghost out_old = out@;
            let v = self.sigma_i(i, s, p);
            out.push(v);
            proof {
                assert forall|q: int| 0 <= q <= i as int implies (#[trigger] out@[q]) as int
                    == self@.sigma_i(ints(s@), ints(p@), q) by {
                    if q < i as int {
                        assert(out@[q] == out_old[q]);
                    } else {
                        assert(out@[q] == v);
                    }
                }
            }
            i = i + 1;
        }
        out
    }
}

} // verus!
