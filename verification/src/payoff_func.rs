//! Single-period payoff: the composition of the six economic primitives.
//!
//! For player `i`,
//! `u_i = sum_j sigma_j q_j reward_i(j) - (1 - sum_j sigma_j q_j) d_i - c_i`:
//! expected reward while the game stays safe, minus the expected disaster
//! cost, minus the action cost.

use vstd::prelude::*;

use crate::cost_func::{CostFn, CostM};
use crate::csf::{csf_q_i, Csf, CsfM};
use crate::disaster_cost::ConstantDisasterCost;
use crate::errors::ConfigError;
use crate::fixed::{fxm, fxsub, ints, sum_sat, SCALE};
use crate::fixed::{fx_add, fx_mul, fx_sub};
use crate::prod_func::{DefaultProd, ProdM};
use crate::reward_func::{LinearReward, RewardM};
use crate::risk_func::{RiskM, WinnerOnlyRisk};
use crate::strategies::{Actions, ActionsM};

verus! {

/// Mathematical model of [`DefaultPayoff`].
pub struct PayoffM {
    pub prod: ProdM,
    pub risk: RiskM,
    pub csf: CsfM,
    pub reward: RewardM,
    pub disaster: Seq<int>,
    pub cost: CostM,
}

impl PayoffM {
    /// Every primitive is well formed and reports the same player count.
    pub open spec fn wf(&self) -> bool {
        &&& self.prod.wf()
        &&& self.reward.wf()
        &&& self.cost.wf()
        &&& self.prod.n() >= 1
        &&& self.risk.n() == self.prod.n()
        &&& self.reward.n() == self.prod.n()
        &&& self.disaster.len() == self.prod.n()
        &&& self.cost.n() == self.prod.n()
    }

    /// Player count.
    pub open spec fn n(&self) -> int {
        self.prod.n()
    }

    /// Safety outputs of all players.
    pub open spec fn s_vec(&self, am: ActionsM) -> Seq<int> {
        Seq::new(self.n() as nat, |j: int| self.prod.s_i(am, j))
    }

    /// Contest outputs of all players.
    pub open spec fn p_vec(&self, am: ActionsM) -> Seq<int> {
        Seq::new(self.n() as nat, |j: int| self.prod.p_i(am, j))
    }

    /// Safety probabilities of all players.
    pub open spec fn sig_vec(&self, am: ActionsM) -> Seq<int> {
        Seq::new(
            self.n() as nat,
            |j: int| self.risk.sigma_i(self.s_vec(am), self.p_vec(am), j),
        )
    }

    /// Allocation shares of all players.
    pub open spec fn q_vec(&self, am: ActionsM) -> Seq<int> {
        Seq::new(self.n() as nat, |j: int| csf_q_i(self.csf, self.p_vec(am), j))
    }

    /// The probability-weighted contest resolution mass:
    /// `sum_j sigma_j * q_j`.
    pub open spec fn safe_mass(&self, am: ActionsM) -> int {
        sum_sat(
            Seq::new(
                self.n() as nat,
                |j: int| fxm(self.sig_vec(am)[j], self.q_vec(am)[j]),
            ),
        )
    }

    /// Expected utility of player `i` for one period's joint actions.
    pub open spec fn u_i(&self, am: ActionsM, i: int) -> int {
        let no_d = sum_sat(
            Seq::new(
                self.n() as nat,
                |j: int|
                    fxm(
                        fxm(self.sig_vec(am)[j], self.q_vec(am)[j]),
                        self.reward.reward_entry(i, self.p_vec(am), j),
                    ),
            ),
        );
        let yes_d = fxm(fxsub(SCALE as int, self.safe_mass(am)), self.disaster[i]);
        fxsub(fxsub(no_d, yes_d), self.cost.c_i(am, i))
    }

    /// Expected utilities of all players.
    pub open spec fn u(&self, am: ActionsM) -> Seq<int> {
        Seq::new(self.n() as nat, |i: int| self.u_i(am, i))
    }
}

/// The default payoff function: the six primitives composed.
#[derive(Clone, Debug)]
pub struct DefaultPayoff {
    pub prod_func: DefaultProd,
    pub risk_func: WinnerOnlyRisk,
    pub csf: Csf,
    pub reward_func: LinearReward,
    pub disaster_cost: ConstantDisasterCost,
    pub cost_func: CostFn,
}

impl View for DefaultPayoff {
    type V = PayoffM;

    open spec fn view(&self) -> PayoffM {
        PayoffM {
            prod: self.prod_func@,
            risk: self.risk_func@,
            csf: self.csf@,
            reward: self.reward_func@,
            disaster: self.disaster_cost@,
            cost: self.cost_func@,
        }
    }
}

impl DefaultPayoff {
    /// Shape invariant.
    pub open spec fn wf(&self) -> bool {
        self@.wf()
    }

    /// Compose the six primitives; fails unless they all report the same
    /// non-zero player count.
    pub fn new(
        prod_func: DefaultProd,
        risk_func: WinnerOnlyRisk,
        csf: Csf,
        reward_func: LinearReward,
        disaster_cost: ConstantDisasterCost,
        cost_func: CostFn,
    ) -> (r: Result<DefaultPayoff, ConfigError>)
        ensures
            r is Ok <==> (prod_func.wf() && reward_func.wf() && cost_func.wf() && prod_func@.n()
                >= 1 && risk_func@.n() == prod_func@.n() && reward_func@.n() == prod_func@.n()
                && disaster_cost@.len() == prod_func@.n() && cost_func@.n() == prod_func@.n()),
            r is Ok ==> ({
                let p = r->Ok_0;
                &&& p.wf()
                &&& p@ == (PayoffM {
                    prod: prod_func@,
                    risk: risk_func@,
                    csf: csf@,
                    reward: reward_func@,
                    disaster: disaster_cost@,
                    cost: cost_func@,
                })
            }),
            r is Err ==> r->Err_0 == ConfigError::LengthMismatch,
    {
        let n = prod_func.a.len();
        if n == 0 || prod_func.alpha.len() != n || prod_func.b.len() != n || prod_func.beta.len()
            != n || reward_func.win_b.len() != reward_func.win_a.len() || reward_func.lose_a.len()
            != reward_func.win_a.len() || reward_func.lose_b.len() != reward_func.win_a.len() {
            return Err(ConfigError::LengthMismatch);
        }
        let cost_wf = match &cost_func {
            CostFn::Unit(_) => true,
            CostFn::Invest(c) => c.r_inv.len() == c.r_x.len(),
        };
        if !cost_wf || risk_func.theta.len() != n || reward_func.win_a.len() != n
            || disaster_cost.d.len() != n || cost_func.n() != n {
            return Err(ConfigError::LengthMismatch);
        }
        Ok(DefaultPayoff { prod_func, risk_func, csf, reward_func, disaster_cost, cost_func })
    }

    /// Player count.
    pub fn n(&self) -> (r: usize)
        requires
            self.wf(),
        ensures
            r as int == self@.n(),
    {
        self.prod_func.n()
    }

    /// An exact copy.
    pub fn dup(&self) -> (r: DefaultPayoff)
        ensures
            r@ == self@,
    {
        DefaultPayoff {
            prod_func: self.prod_func.dup(),
            risk_func: self.risk_func.dup(),
            csf: *&self.csf,
            reward_func: self.reward_func.dup(),
            disaster_cost: self.disaster_cost.dup(),
            cost_func: self.cost_func.dup(),
        }
    }

    /// Expected utility of player `i` for one period's joint actions.
    pub fn u_i(&self, i: usize, actions: &Actions) -> (r: i64)
        requires
            self.wf(),
            actions.wf(),
            actions@.n == self@.n(),
            i < self@.n(),
        ensures
            r as int == self@.u_i(actions@, i as int),
    {
        let ghost pm = self@;
        let ghost am = actions@;
        let n = self.prod_func.n();
        let (s, p) = self.prod_func.f(actions);
        let sigmas = self.risk_func.sigma(&s, &p);
        let qs = self.csf.q(&p);
        let rewards = self.reward_func.reward(i, &p);
        proof {
            assert(ints(s@) =~= pm.s_vec(am));
            assert(ints(p@) =~= pm.p_vec(am));
            assert(ints(sigmas@) =~= pm.sig_vec(am));
            assert(ints(qs@) =~= pm.q_vec(am));
        }
        let ghost mass_seq = Seq::new(
            pm.n() as nat,
            |j: int| fxm(pm.sig_vec(am)[j], pm.q_vec(am)[j]),
        );
        let ghost nod_seq = Seq::new(
            pm.n() as nat,
            |j: int|
                fxm(
                    fxm(pm.sig_vec(am)[j], pm.q_vec(am)[j]),
                    pm.reward.reward_entry(i as int, pm.p_vec(am), j),
                ),
        );
        let mut no_d: i64 = 0;
        let mut mass: i64 = 0;
        let mut j: usize = 0;
        while j < n
            invariant
                0 <= j <= n,
                n as int == pm.n(),
                sigmas@.len() == pm.n(),
                qs@.len() == pm.n(),
                rewards@.len() == pm.n(),
                ints(sigmas@) == pm.sig_vec(am),
                ints(qs@) == pm.q_vec(am),
                forall|q: int|
                    0 <= q < pm.n() ==> (#[trigger] rewards@[q]) as int == pm.reward.reward_entry(
                        i as int,
                        pm.p_vec(am),
                        q,
                    ),
                mass_seq == Seq::new(
                    pm.n() as nat,
                    |q: int| fxm(pm.sig_vec(am)[q], pm.q_vec(am)[q]),
                ),
                nod_seq == Seq::new(
                    pm.n() as nat,
                    |q: int|
                        fxm(
                            fxm(pm.sig_vec(am)[q], pm.q_vec(am)[q]),
                            pm.reward.reward_entry(i as int, pm.p_vec(am), q),
                        ),
                ),
                no_d as int == sum_sat(nod_seq.take(j as int)),
                mass as int == sum_sat(mass_seq.take(j as int)),
            decreases n - j,
        {
            proof {
                assert(nod_seq.take(j as int + 1).drop_last() =~= nod_seq.take(j as int));
                assert(mass_seq.take(j as int + 1).drop_last() =~= mass_seq.take(j as int));
                assert((sigmas@[j as int]) as int == pm.sig_vec(am)[j as int]);
                assert((qs@[j as int]) as int == pm.q_vec(am)[j as int]);
            }
            let sq = fx_mul(sigmas[j], qs[j]);
            no_d = fx_add(no_d, fx_mul(sq, rewards[j]));
            mass = fx_add(mass, sq);
            j = j + 1;
        }
        proof {
            assert(nod_seq.take(pm.n()) =~= nod_seq);
            assert(mass_seq.take(pm.n()) =~= mass_seq);
        }
        let d_i = self.disaster_cost.d_i(i, &s, &p);
        let yes_d = fx_mul(fx_sub(SCALE, mass), d_i);
        let c_i = self.cost_func.c_i(i, actions);
        fx_sub(fx_sub(no_d, yes_d), c_i)
    }

    /// Expected utilities of all players; entry `i` equals `u_i(i)`.
    pub fn u(&self, actions: &Actions) -> (r: Vec<i64>)
        requires
            self.wf(),
            actions.wf(),
            actions@.n == self@.n(),
        ensures
            r@.len() == self@.n(),
            forall|i: int|
                0 <= i < self@.n() ==> (#[trigger] r@[i]) as int == self@.u_i(actions@, i),
    {
        let n = self.prod_func.n();
        let mut out: Vec<i64> = Vec::new();
        let mut i: usize = 0;
        while i < n
            invariant
                0 <= i <= n,
                n as int == self@.n(),
                self.wf(),
                actions.wf(),
                actions@.n == self@.n(),
                out@.len() == i,
                forall|q: int|
                    0 <= q < i ==> (#[trigger] out@[q]) as int == self@.u_i(actions@, q),
            decreases n - i,
        {
            let ghost out_old = out@;
            let v = self.u_i(i, actions);
            out.push(v);
            proof {
                assert forall|q: int| 0 <= q <= i as int implies (#[trigger] out@[q]) as int
                    == self@.u_i(actions@, q) by {
                    if q < i as int {
                        assert(out@[q] == out_old[q]);
                    } else {
                        assert(out@[q] == v);
                    }
                }
            }
            i = i + 1;
        }
        out
    }
}

/// Scalar / vector consistency: the `i`-th entry of the vectorized payoff is
/// exactly the per-player payoff, for every valid player and joint action.
pub proof fn lemma_u_consistency(pm: PayoffM, am: ActionsM, i: int)
    requires
        pm.wf(),
        am.wf(),
        am.n == pm.n(),
        0 <= i < pm.n(),
    ensures
        pm.u(am)[i] == pm.u_i(am, i),
{
}

impl PayoffM {
    /// Total contest-resolution probability for one period:
    /// `sum_j q_j`, the chance that some player wins this period.
    pub open spec fn q_mass(&self, am: ActionsM) -> int {
        sum_sat(self.q_vec(am))
    }
}

impl DefaultPayoff {
    /// Total contest-resolution probability for one period's joint actions.
    pub fn contest_mass(&self, actions: &Actions) -> (r: i64)
        requires
            self.wf(),
            actions.wf(),
            actions@.n == self@.n(),
        ensures
            r as int == self@.q_mass(actions@),
    {
        let (_s, p) = self.prod_func.f(actions);
        let qs = self.csf.q(&p);
        proof {
            assert(ints(p@) =~= self@.p_vec(actions@));
            assert(ints(qs@) =~= self@.q_vec(actions@));
        }
        crate::fixed::fx_sum(&qs)
    }
}

} // verus!
