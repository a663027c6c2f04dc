//! Action-cost primitive: the cost of taking a period's action.

use vstd::prelude::*;

use crate::errors::ConfigError;
use crate::fixed::{fxadd, fxm, ints};
use crate::fixed::{fx_add, fx_mul};
use crate::strategies::{Actions, ActionsM, dup_vec};

verus! {

/// Mathematical model of an action-cost function.
pub enum CostM {
    Unit { r: Seq<int> },
    Invest { r_x: Seq<int>, r_inv: Seq<int> },
}

impl CostM {
    /// Parameter arrays agree in length.
    pub open spec fn wf(&self) -> bool {
        match self {
            CostM::Unit { r } => true,
            CostM::Invest { r_x, r_inv } => r_inv.len() == r_x.len(),
        }
    }

    /// Player count.
    pub open spec fn n(&self) -> int {
        match self {
            CostM::Unit { r } => r.len() as int,
            CostM::Invest { r_x, r_inv } => r_x.len() as int,
        }
    }

    /// Cost to player `i` of taking its action: linear in the per-period
    /// inputs and, for the invest form, also in the capacity investments
    /// (which are zero for basic-kind actions).
    pub open spec fn c_i(&self, am: ActionsM, i: int) -> int {
        match self {
            CostM::Unit { r } => fxm(r[i], fxadd(am.xs(i), am.xp(i))),
            CostM::Invest { r_x, r_inv } => fxadd(
                fxm(r_x[i], fxadd(am.xs(i), am.xp(i))),
                fxm(r_inv[i], fxadd(am.inv_s(i), am.inv_p(i))),
            ),
        }
    }
}

/// A fixed unit cost per unit of per-period input.
#[derive(Clone, Debug)]
pub struct FixedUnitCost {
    pub r: Vec<i64>,
}

impl FixedUnitCost {
    /// A homogeneous unit cost for `n` players.
    pub fn from_elem(n: usize, r: i64) -> (c: FixedUnitCost)
        ensures
            c.r@.len() == n,
            forall|i: int| 0 <= i < n ==> #[trigger] c.r@[i] == r,
    {
        let mut v: Vec<i64> = Vec::new();
        let mut i: usize = 0;
        while i < n
            invariant
                0 <= i <= n,
                v@.len() == i,
                forall|q: int| 0 <= q < i ==> #[trigger] v@[q] == r,
            decreases n - i,
        {
            v.push(r);
            i = i + 1;
        }
        FixedUnitCost { r: v }
    }

    /// Player count.
    pub fn n(&self) -> (r: usize)
        ensures
            r as int == self.r@.len(),
    {
        self.r.len()
    }

    /// Cost to player `i`.
    pub fn c_i(&self, i: usize, actions: &Actions) -> (r: i64)
        requires
            actions.wf(),
            i < self.r@.len(),
            i < actions@.n,
        ensures
            r as int == (CostM::Unit { r: ints(self.r@) }).c_i(actions@, i as int),
    {
        fx_mul(self.r[i], fx_add(actions.get(i, 0), actions.get(i, 1)))
    }
}

/// Separate unit costs for per-period inputs and for capacity investments.
#[derive(Clone, Debug)]
pub struct FixedInvestCost {
    pub r_x: Vec<i64>,
    pub r_inv: Vec<i64>,
}

impl FixedInvestCost {
    /// Build from the two arrays; fails unless they have equal length.
    pub fn new(r_x: Vec<i64>, r_inv: Vec<i64>) -> (c: Result<FixedInvestCost, ConfigError>)
        ensures
            c is Ok <==> r_inv@.len() == r_x@.len(),
            c is Err ==> c->Err_0 == ConfigError::LengthMismatch,
            c is Ok ==> ({
                let f = c->Ok_0;
                &&& f.r_x@ == r_x@
                &&& f.r_inv@ == r_inv@
            }),
    {
        if r_inv.len() != r_x.len() {
            return Err(ConfigError::LengthMismatch);
        }
        Ok(FixedInvestCost { r_x, r_inv })
    }

    /// Homogeneous costs for `n` players.
    pub fn from_elems(n: usize, r_x: i64, r_inv: i64) -> (c: FixedInvestCost)
        ensures
            c.r_x@.len() == n,
            c.r_inv@.len() == n,
            forall|i: int| 0 <= i < n ==> #[trigger] c.r_x@[i] == r_x && #[trigger] c.r_inv@[i]
                == r_inv,
    {
        let mut vx: Vec<i64> = Vec::new();
        let mut vi: Vec<i64> = Vec::new();
        let mut i: usize = 0;
        while i < n
            invariant
                0 <= i <= n,
                vx@.len() == i,
                vi@.len() == i,
                forall|q: int| 0 <= q < i ==> #[trigger] vx@[q] == r_x,
                forall|q: int| 0 <= q < i ==> #[trigger] vi@[q] == r_inv,
            decreases n - i,
        {
            vx.push(r_x);
            vi.push(r_inv);
            i = i + 1;
        }
        FixedInvestCost { r_x: vx, r_inv: vi }
    }

    /// Player count.
    pub fn n(&self) -> (r: usize)
        ensures
            r as int == self.r_x@.len(),
    {
        self.r_x.len()
    }

    /// Cost to player `i`.
    pub fn c_i(&self, i: usize, actions: &Actions) -> (r: i64)
        requires
            actions.wf(),
            i < self.r_x@.len(),
            i < self.r_inv@.len(),
            i < actions@.n,
        ensures
            r as int == (CostM::Invest { r_x: ints(self.r_x@), r_inv: ints(self.r_inv@) }).c_i(
                actions@,
                i as int,
            ),
    {
        let (is_, ip_): (i64, i64) = match actions.kind {
            crate::strategies::ActionKind::Invest => (actions.get(i, 2), actions.get(i, 3)),
            crate::strategies::ActionKind::Basic => (0, 0),
        };
        fx_add(
            fx_mul(self.r_x[i], fx_add(actions.get(i, 0), actions.get(i, 1))),
            fx_mul(self.r_inv[i], fx_add(is_, ip_)),
        )
    }
}

/// Either action-cost function, as held by a payoff function.
#[derive(Clone, Debug)]
pub enum CostFn {
    Unit(FixedUnitCost),
    Invest(FixedInvestCost),
}

impl View for CostFn {
    type V = CostM;

    open spec fn view(&self) -> CostM {
        match self {
            CostFn::Unit(c) => CostM::Unit { r: ints(c.r@) },
            CostFn::Invest(c) => CostM::Invest { r_x: ints(c.r_x@), r_inv: ints(c.r_inv@) },
        }
    }
}

impl CostFn {
    /// Shape invariant.
    pub open spec fn wf(&self) -> bool {
        self@.wf()
    }

    /// Player count.
    pub fn n(&self) -> (r: usize)
        ensures
            r as int == self@.n(),
    {
        match self {
            CostFn::Unit(c) => c.n(),
            CostFn::Invest(c) => c.n(),
        }
    }

    /// An exact copy.
    pub fn dup(&self) -> (r: CostFn)
        ensures
            r@ == self@,
    {
        match self {
            CostFn::Unit(c) => {
                let r = CostFn::Unit(FixedUnitCost { r: dup_vec(&c.r) });
                proof {
                    assert(r@->Unit_r =~= self@->Unit_r);
                }
                r
            },
            CostFn::Invest(c) => {
                let r = CostFn::Invest(
                    FixedInvestCost { r_x: dup_vec(&c.r_x), r_inv: dup_vec(&c.r_inv) },
                );
                proof {
                    assert(r@->Invest_r_x =~= self@->Invest_r_x);
                    assert(r@->Invest_r_inv =~= self@->Invest_r_inv);
                }
                r
            },
        }
    }

    /// Cost to player `i`.
    pub fn c_i(&self, i: usize, actions: &Actions) -> (r: i64)
        requires
            self.wf(),
            actions.wf(),
            i < self@.n(),
            i < actions@.n,
        ensures
            r as int == self@.c_i(actions@, i as int),
    {
        match self {
            CostFn::Unit(c) => c.c_i(i, actions),
            CostFn::Invest(c) => c.c_i(i, actions),
        }
    }

    /// Costs of all players.
    pub fn c(&self, actions: &Actions) -> (r: Vec<i64>)
        requires
            self.wf(),
            actions.wf(),
            actions@.n == self@.n(),
        ensures
            r@.len() == self@.n(),
            forall|i: int|
                0 <= i < self@.n() ==> (#[trigger] r@[i]) as int == self@.c_i(actions@, i),
    {
        let n = self.n();
        let mut out: Vec<i64> = Vec::new();
        let mut i: usize = 0;
        while i < n
            invariant
                0 <= i <= n,
                n as int == self@.n(),
                self.wf(),
                actions.wf(),
                actions@.n == self@.n(),
                out@.len() == i,
                forall|q: int|
                    0 <= q < i ==> (#[trigger] out@[q]) as int == self@.c_i(actions@, q),
            decreases n - i,
        {
            let ghost out_old = out@;
            let v = self.c_i(i, actions);
            out.push(v);
            proof {
                assert forall|q: int| 0 <= q <= i as int implies (#[trigger] out@[q]) as int
                    == self@.c_i(actions@, q) by {
                    if q < i as int {
                        assert(out@[q] == out_old[q]);
                    } else {
                        assert(out@[q] == v);
                    }
                }
            }
            i = i + 1;
        }
        out
    }
}

} // verus!
