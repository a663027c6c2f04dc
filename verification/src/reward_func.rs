//! Reward primitive: per-period payoffs to winner and losers, affine in the
//! winner's contest output.

use vstd::prelude::*;

use crate::errors::ConfigError;
use crate::fixed::{fxadd, fxm, ints};
use crate::fixed::{fx_add, fx_mul};
use crate::strategies::dup_vec;

verus! {

/// Mathematical model of [`LinearReward`].
pub struct RewardM {
    pub win_a: Seq<int>,
    pub win_b: Seq<int>,
    pub lose_a: Seq<int>,
    pub lose_b: Seq<int>,
}

impl RewardM {
    /// All four parameter arrays have the same length.
    pub open spec fn wf(&self) -> bool {
        self.win_b.len() == self.win_a.len() && self.lose_a.len() == self.win_a.len()
            && self.lose_b.len() == self.win_a.len()
    }

    /// Player count.
    pub open spec fn n(&self) -> int {
        self.win_a.len() as int
    }

    /// Reward to player `j` when `j` wins: `win_a_j + win_b_j * p_j`.
    pub open spec fn win_i(&self, p: Seq<int>, j: int) -> int {
        fxadd(self.win_a[j], fxm(self.win_b[j], p[j]))
    }

    /// Reward to player `j` when someone else wins: `lose_a_j + lose_b_j * p_j`.
    pub open spec fn lose_i(&self, p: Seq<int>, j: int) -> int {
        fxadd(self.lose_a[j], fxm(self.lose_b[j], p[j]))
    }

    /// Entry `j` of the reward vector from player `i`'s standpoint.
    pub open spec fn reward_entry(&self, i: int, p: Seq<int>, j: int) -> int {
        if j == i {
            self.win_i(p, j)
        } else {
            self.lose_i(p, j)
        }
    }
}

/// Rewards affine in contest output.
#[derive(Clone, Debug)]
pub struct LinearReward {
    pub win_a: Vec<i64>,
    pub win_b: Vec<i64>,
    pub lose_a: Vec<i64>,
    pub lose_b: Vec<i64>,
}

impl View for LinearReward {
    type V = RewardM;

    open spec fn view(&self) -> RewardM {
        RewardM {
            win_a: ints(self.win_a@),
            win_b: ints(self.win_b@),
            lose_a: ints(self.lose_a@),
            lose_b: ints(self.lose_b@),
        }
    }
}

impl LinearReward {
    /// Shape invariant.
    pub open spec fn wf(&self) -> bool {
        self@.wf()
    }

    /// Build the primitive; fails unless all four arrays have equal length.
    pub fn new(win_a: Vec<i64>, win_b: Vec<i64>, lose_a: Vec<i64>, lose_b: Vec<i64>) -> (r:
        Result<LinearReward, ConfigError>)
        ensures
            r is Ok <==> (win_b@.len() == win_a@.len() && lose_a@.len() == win_a@.len()
                && lose_b@.len() == win_a@.len()),
            r is Err ==> r->Err_0 == ConfigError::LengthMismatch,
            r is Ok ==> ({
                let w = r->Ok_0;
                &&& w.wf()
                &&& w@.win_a == ints(win_a@)
                &&& w@.win_b == ints(win_b@)
                &&& w@.lose_a == ints(lose_a@)
                &&& w@.lose_b == ints(lose_b@)
            }),
    {
        if win_b.len() != win_a.len() || lose_a.len() != win_a.len() || lose_b.len()
            != win_a.len() {
            return Err(ConfigError::LengthMismatch);
        }
        Ok(LinearReward { win_a, win_b, lose_a, lose_b })
    }

    /// The default reward: winner receives one, losers receive nothing.
    pub fn default(n: usize) -> (r: LinearReward)
        ensures
            r.wf(),
            r@.n() == n,
            forall|i: int|
                0 <= i < n ==> r@.win_a[i] == crate::fixed::SCALE as int && r@.win_b[i] == 0
                    && r@.lose_a[i] == 0 && r@.lose_b[i] == 0,
    {
        let mut win_a: Vec<i64> = Vec::new();
        let mut zeros1: Vec<i64> = Vec::new();
        let mut zeros2: Vec<i64> = Vec::new();
        let mut zeros3: Vec<i64> = Vec::new();
        let mut i: usize = 0;
        while i < n
            invariant
                0 <= i <= n,
                win_a@.len() == i,
                zeros1@.len() == i,
                zeros2@.len() == i,
                zeros3@.len() == i,
                forall|q: int| 0 <= q < i ==> #[trigger] win_a@[q] == crate::fixed::SCALE,
                forall|q: int| 0 <= q < i ==> #[trigger] zeros1@[q] == 0i64,
                forall|q: int| 0 <= q < i ==> #[trigger] zeros2@[q] == 0i64,
                forall|q: int| 0 <= q < i ==> #[trigger] zeros3@[q] == 0i64,
            decreases n - i,
        {
            win_a.push(crate::fixed::SCALE);
            zeros1.push(0);
            zeros2.push(0);
            zeros3.push(0);
            i = i + 1;
        }
        LinearReward { win_a, win_b: zeros1, lose_a: zeros2, lose_b: zeros3 }
    }

    /// Player count.
    pub fn n(&self) -> (r: usize)
        ensures
            r as int == self@.n(),
    {
        self.win_a.len()
    }

    /// An exact copy.
    pub fn dup(&self) -> (r: LinearReward)
        ensures
            r@ == self@,
    {
        let r = LinearReward {
            win_a: dup_vec(&self.win_a),
            win_b: dup_vec(&self.win_b),
            lose_a: dup_vec(&self.lose_a),
            lose_b: dup_vec(&self.lose_b),
        };
        proof {
            assert(r@.win_a =~= self@.win_a);
            assert(r@.win_b =~= self@.win_b);
            assert(r@.lose_a =~= self@.lose_a);
            assert(r@.lose_b =~= self@.lose_b);
        }
        r
    }

    /// Reward to player `j` when `j` wins.
    pub fn win_i(&self, j: usize, p: &Vec<i64>) -> (r: i64)
        requires
            self.wf(),
            j < self@.n(),
            j < p@.len(),
        ensures
            r as int == self@.win_i(ints(p@), j as int),
    {
        fx_add(self.win_a[j], fx_mul(self.win_b[j], p[j]))
    }

    /// Reward to player `j` when someone else wins.
    pub fn lose_i(&self, j: usize, p: &Vec<i64>) -> (r: i64)
        requires
            self.wf(),
            j < self@.n(),
            j < p@.len(),
        ensures
            r as int == self@.lose_i(ints(p@), j as int),
    {
        fx_add(self.lose_a[j], fx_mul(self.lose_b[j], p[j]))
    }

    /// The reward vector from player `i`'s standpoint: entry `j` is the
    /// win reward if `j == i`, else the lose reward.
    pub fn reward(&self, i: usize, p: &Vec<i64>) -> (r: Vec<i64>)
        requires
            self.wf(),
            p@.len() == self@.n(),
        ensures
            r@.len() == self@.n(),
            forall|j: int|
                0 <= j < self@.n() ==> (#[trigger] r@[j]) as int == self@.reward_entry(
                    i as int,
                    ints(p@),
                    j,
                ),
    {
        let n = self.win_a.len();
        let mut out: Vec<i64> = Vec::new();
        let mut j: usize = 0;
        while j < n
            invariant
                0 <= j <= n,
                n as int == self@.n(),
                self.wf(),
                p@.len() == self@.n(),
                out@.len() == j,
                forall|q: int|
                    0 <= q < j ==> (#[trigger] out@[q]) as int == self@.reward_entry(
                        i as int,
                        ints(p@),
                        q,
                    ),
            decreases n - j,
        {
            let ghost out_old = out@;
            let v = if j == i {
                self.win_i(j, p)
            } else {
                self.lose_i(j, p)
            };
            out.push(v);
            proof {
                assert forall|q: int| 0 <= q <= j as int implies (#[trigger] out@[q]) as int
                    == self@.reward_entry(i as int, ints(p@), q) by {
                    if q < j as int {
                        assert(out@[q] == out_old[q]);
                    } else {
                        assert(out@[q] == v);
                    }
                }
            }
            j = j + 1;
        }
        out
    }
}

} // verus!
