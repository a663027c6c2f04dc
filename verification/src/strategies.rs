//! Action and strategy-profile containers.
//!
//! An action is one player's decision for one period; a strategy profile is
//! the dense `(T periods, N players, K)` array of all decisions.  The width
//! `K` is a property of the action kind: `Basic` actions hold
//! `(x_s, x_p)` and `Invest` actions additionally hold the capacity
//! investments `(inv_s, inv_p)`.

use vstd::prelude::*;

use crate::errors::ConfigError;
use crate::fixed::fx_add;
use crate::fixed::fx_mul;
use crate::fixed::ints;
use crate::fixed::FX_MAX;
use crate::transcend::fx_exp;

verus! {

/// The two action kinds: plain per-period investment, or additionally a
/// permanent capacity investment.
#[derive(Clone, Copy, Debug, PartialEq, Eq, Structural)]
pub enum ActionKind {
    Basic,
    Invest,
}

/// Number of entries an action of the given kind holds.
pub open spec fn kind_width(k: ActionKind) -> int {
    match k {
        ActionKind::Basic => 2,
        ActionKind::Invest => 4,
    }
}

/// Executable width of an action kind.
pub fn width_of(k: ActionKind) -> (r: usize)
    ensures
        r as int == kind_width(k),
{
    match k {
        ActionKind::Basic => 2,
        ActionKind::Invest => 4,
    }
}

/// Mathematical model of [`Actions`].
pub struct ActionsM {
    pub kind: ActionKind,
    pub n: int,
    pub data: Seq<int>,
}

impl ActionsM {
    /// Shape invariant: at least one player, dense row-major storage.
    pub open spec fn wf(&self) -> bool {
        self.n >= 1 && self.data.len() == self.n * kind_width(self.kind)
    }

    /// Entry `j` of player `i`'s action.
    pub open spec fn entry(&self, i: int, j: int) -> int {
        self.data[i * kind_width(self.kind) + j]
    }

    /// Safety-input investment of player `i`.
    pub open spec fn xs(&self, i: int) -> int {
        self.entry(i, 0)
    }

    /// Production-input investment of player `i`.
    pub open spec fn xp(&self, i: int) -> int {
        self.entry(i, 1)
    }

    /// Permanent safety-capacity investment of player `i` (zero for the
    /// basic kind, which has no such field).
    pub open spec fn inv_s(&self, i: int) -> int {
        if self.kind == ActionKind::Invest {
            self.entry(i, 2)
        } else {
            0
        }
    }

    /// Permanent production-capacity investment of player `i` (zero for the
    /// basic kind).
    pub open spec fn inv_p(&self, i: int) -> int {
        if self.kind == ActionKind::Invest {
            self.entry(i, 3)
        } else {
            0
        }
    }
}

/// Actions of all `n` players for a single period: a dense `n x width`
/// fixed-point array.
#[derive(Clone, Debug)]
pub struct Actions {
    pub kind: ActionKind,
    pub n: usize,
    pub data: Vec<i64>,
}

impl View for Actions {
    type V = ActionsM;

    open spec fn view(&self) -> ActionsM {
        ActionsM { kind: self.kind, n: self.n as int, data: ints(self.data@) }
    }
}

impl Actions {
    /// Shape invariant of the container.
    pub open spec fn wf(&self) -> bool {
        self@.wf()
    }

    /// Player count.
    pub fn n(&self) -> (r: usize)
        ensures
            r as int == self@.n,
    {
        self.n
    }

    /// Entries per player (2 for basic, 4 for invest).
    pub fn nparams(&self) -> (r: usize)
        ensures
            r as int == kind_width(self@.kind),
    {
        width_of(self.kind)
    }

    /// Raw row-major data.
    pub fn data(&self) -> (r: &Vec<i64>)
        ensures
            ints(r@) == self@.data,
    {
        &self.data
    }

    /// Entry `j` of player `i`.
    pub fn get(&self, i: usize, j: usize) -> (r: i64)
        requires
            self.wf(),
            i < self@.n,
            j < kind_width(self@.kind),
        ensures
            r as int == self@.entry(i as int, j as int),
    {
        let _dl = self.data.len();
        proof {
            lemma_entry_in_range(self@, i as int, j as int);
        }
        self.data[i * width_of(self.kind) + j]
    }

    /// An exact copy.
    pub fn dup(&self) -> (r: Actions)
        ensures
            r@ == self@,
    {
        let r = Actions { kind: self.kind, n: self.n, data: dup_vec(&self.data) };
        proof {
            assert(r@.data =~= self@.data);
        }
        r
    }

    /// Build basic-kind actions from per-player inputs.  Fails when the two
    /// arrays differ in length, or are empty.
    pub fn from_inputs(xs: Vec<i64>, xp: Vec<i64>) -> (r: Result<Actions, ConfigError>)
        ensures
            r is Ok <==> (xs@.len() == xp@.len() && xs@.len() >= 1),
            xs@.len() != xp@.len() ==> r == Result::<Actions, ConfigError>::Err(
                ConfigError::LengthMismatch,
            ),
            (xs@.len() == xp@.len() && xs@.len() == 0) ==> r == Result::<
                Actions,
                ConfigError,
            >::Err(ConfigError::EmptyList),
            r is Ok ==> ({
                let a = r->Ok_0;
                &&& a.wf()
                &&& a@.kind == ActionKind::Basic
                &&& a@.n == xs@.len()
                &&& forall|i: int|
                    0 <= i < xs@.len() ==> a@.xs(i) == xs@[i] as int && a@.xp(i) == xp@[i] as int
            }),
    {
        if xs.len() != xp.len() {
            return Err(ConfigError::LengthMismatch);
        }
        if xs.len() == 0 {
            return Err(ConfigError::EmptyList);
        }
        let n = xs.len();
        let mut data: Vec<i64> = Vec::new();
        let mut i: usize = 0;
        while i < n
            invariant
                0 <= i <= n,
                n == xs@.len(),
                n == xp@.len(),
                data@.len() == 2 * i,
                forall|q: int|
                    0 <= q < i ==> data@[2 * q] == xs@[q] && data@[2 * q + 1] == xp@[q],
            decreases n - i,
        {
            data.push(xs[i]);
            data.push(xp[i]);
            i = i + 1;
        }
        let a = Actions { kind: ActionKind::Basic, n, data };
        proof {
            assert forall|i: int| 0 <= i < xs@.len() implies a@.xs(i) == xs@[i] as int && a@.xp(i)
                == xp@[i] as int by {
            }
        }
        Ok(a)
    }

    /// Build invest-kind actions from per-player inputs.  Fails when the four
    /// arrays differ in length, or are empty.
    pub fn from_invest_inputs(
        xs: Vec<i64>,
        xp: Vec<i64>,
        inv_s: Vec<i64>,
        inv_p: Vec<i64>,
    ) -> (r: Result<Actions, ConfigError>)
        ensures
            r is Ok <==> (xs@.len() == xp@.len() && xs@.len() == inv_s@.len() && xs@.len()
                == inv_p@.len() && xs@.len() >= 1),
            r is Ok ==> ({
                let a = r->Ok_0;
                &&& a.wf()
                &&& a@.kind == ActionKind::Invest
                &&& a@.n == xs@.len()
                &&& forall|i: int|
                    0 <= i < xs@.len() ==> a@.xs(i) == xs@[i] as int && a@.xp(i) == xp@[i] as int
                        && a@.inv_s(i) == inv_s@[i] as int && a@.inv_p(i) == inv_p@[i] as int
            }),
            r is Err ==> (r->Err_0 == ConfigError::LengthMismatch || r->Err_0
                == ConfigError::EmptyList),
    {
        if xs.len() != xp.len() || xs.len() != inv_s.len() || xs.len() != inv_p.len() {
            return Err(ConfigError::LengthMismatch);
        }
        if xs.len() == 0 {
            return Err(ConfigError::EmptyList);
        }
        let n = xs.len();
        let mut data: Vec<i64> = Vec::new();
        let mut i: usize = 0;
        while i < n
            invariant
                0 <= i <= n,
                n == xs@.len() && n == xp@.len() && n == inv_s@.len() && n == inv_p@.len(),
                data@.len() == 4 * i,
                forall|q: int|
                    0 <= q < i ==> data@[4 * q] == xs@[q] && data@[4 * q + 1] == xp@[q] && data@[4
                        * q + 2] == inv_s@[q] && data@[4 * q + 3] == inv_p@[q],
            decreases n - i,
        {
            data.push(xs[i]);
            data.push(xp[i]);
            data.push(inv_s[i]);
            data.push(inv_p[i]);
            i = i + 1;
        }
        let a = Actions { kind: ActionKind::Invest, n, data };
        proof {
            assert forall|i: int| 0 <= i < xs@.len() implies a@.xs(i) == xs@[i] as int && a@.xp(i)
                == xp@[i] as int && a@.inv_s(i) == inv_s@[i] as int && a@.inv_p(i) == inv_p@[i]
                as int by {
            }
        }
        Ok(a)
    }

    /// Forget the invest fields, keeping `(x_s, x_p)` only.
    pub fn truncate_to_actions(&self) -> (r: Actions)
        requires
            self.wf(),
            self@.kind == ActionKind::Invest,
        ensures
            r.wf(),
            r@.kind == ActionKind::Basic,
            r@.n == self@.n,
            forall|i: int| 0 <= i < self@.n ==> r@.xs(i) == self@.xs(i) && r@.xp(i) == self@.xp(i),
    {
        let n = self.n;
        let mut data: Vec<i64> = Vec::new();
        let mut i: usize = 0;
        while i < n
            invariant
                0 <= i <= n,
                self.wf(),
                self@.kind == ActionKind::Invest,
                n == self@.n,
                data@.len() == 2 * i,
                forall|q: int|
                    0 <= q < i ==> data@[2 * q] == self@.xs(q) && data@[2 * q + 1] == self@.xp(q),
            decreases n - i,
        {
            let _dl = self.data.len();
            proof {
                lemma_entry_in_range(self@, i as int, 0);
                lemma_entry_in_range(self@, i as int, 1);
            }
            data.push(self.data[4 * i]);
            data.push(self.data[4 * i + 1]);
            i = i + 1;
        }
        Actions { kind: ActionKind::Basic, n, data }
    }
}

/// Row-major entry positions lie inside the data array.
pub proof fn lemma_entry_in_range(a: ActionsM, i: int, j: int)
    requires
        a.wf(),
        0 <= i < a.n,
        0 <= j < kind_width(a.kind),
    ensures
        0 <= i * kind_width(a.kind) + j < a.data.len(),
{
    let w = kind_width(a.kind);
    vstd::arithmetic::mul::lemma_mul_nonnegative(i, w);
    assert((i + 1) * w <= a.n * w) by {
        vstd::arithmetic::mul::lemma_mul_inequality(i + 1, a.n, w);
    }
    assert((i + 1) * w == i * w + w) by {
        vstd::arithmetic::mul::lemma_mul_is_distributive_add_other_way(w, i, 1);
        vstd::arithmetic::mul::lemma_mul_basics(w);
    }
}

/// Copy a vector of machine integers.
pub fn dup_vec(v: &Vec<i64>) -> (r: Vec<i64>)
    ensures
        r@ == v@,
{
    let mut r: Vec<i64> = Vec::new();
    let mut i: usize = 0;
    while i < v.len()
        invariant
            0 <= i <= v@.len(),
            r@ == v@.take(i as int),
        decreases v@.len() - i,
    {
        r.push(v[i]);
        i = i + 1;
    }
    proof {
        assert(v@.take(v@.len() as int) =~= v@);
    }
    r
}

/// Mathematical model of [`Strategies`].
pub struct StratM {
    pub kind: ActionKind,
    pub t: int,
    pub n: int,
    pub data: Seq<int>,
}

impl StratM {
    /// Shape invariant: at least one period and player, dense storage.
    pub open spec fn wf(&self) -> bool {
        self.t >= 1 && self.n >= 1 && self.data.len() == self.t * self.n * kind_width(self.kind)
    }

    /// Entry `j` of player `i` in period `ti`.
    pub open spec fn entry(&self, ti: int, i: int, j: int) -> int {
        self.data[(ti * self.n + i) * kind_width(self.kind) + j]
    }

    /// The joint action of period `ti`.
    pub open spec fn action_at(&self, ti: int) -> ActionsM {
        ActionsM {
            kind: self.kind,
            n: self.n,
            data: self.data.subrange(
                ti * self.n * kind_width(self.kind),
                (ti + 1) * self.n * kind_width(self.kind),
            ),
        }
    }
}

/// A full strategy profile: actions of all `n` players over `t` periods,
/// stored as a dense `t x n x width` fixed-point array.
#[derive(Clone, Debug)]
pub struct Strategies {
    pub kind: ActionKind,
    pub t: usize,
    pub n: usize,
    pub data: Vec<i64>,
}

impl View for Strategies {
    type V = StratM;

    open spec fn view(&self) -> StratM {
        StratM { kind: self.kind, t: self.t as int, n: self.n as int, data: ints(self.data@) }
    }
}

impl Strategies {
    /// Shape invariant of the container.
    pub open spec fn wf(&self) -> bool {
        self@.wf()
    }

    /// Period count.
    pub fn t(&self) -> (r: usize)
        ensures
            r as int == self@.t,
    {
        self.t
    }

    /// Player count.
    pub fn n(&self) -> (r: usize)
        ensures
            r as int == self@.n,
    {
        self.n
    }

    /// Entries per player and period.
    pub fn nparams(&self) -> (r: usize)
        ensures
            r as int == kind_width(self@.kind),
    {
        width_of(self.kind)
    }

    /// Raw row-major data.
    pub fn data(&self) -> (r: &Vec<i64>)
        ensures
            ints(r@) == self@.data,
    {
        &self.data
    }

    /// An exact copy.
    pub fn dup(&self) -> (r: Strategies)
        ensures
            r@ == self@,
    {
        let r = Strategies { kind: self.kind, t: self.t, n: self.n, data: dup_vec(&self.data) };
        proof {
            assert(r@.data =~= self@.data);
        }
        r
    }

    /// Entry `j` of player `i` in period `ti`.
    pub fn get(&self, ti: usize, i: usize, j: usize) -> (r: i64)
        requires
            self.wf(),
            ti < self@.t,
            i < self@.n,
            j < kind_width(self@.kind),
        ensures
            r as int == self@.entry(ti as int, i as int, j as int),
    {
        let dl = self.data.len();
        proof {
            lemma_strat_entry_in_range(self@, ti as int, i as int, j as int);
            vstd::arithmetic::mul::lemma_mul_nonnegative(ti as int, self@.n);
            vstd::arithmetic::mul::lemma_mul_nonnegative(
                (ti as int) * self@.n + i,
                kind_width(self@.kind),
            );
        }
        self.data[(ti * self.n + i) * width_of(self.kind) + j]
    }

    /// Build a profile from a dense row-major array.  Fails when the length
    /// does not equal `t * n * width`, or a dimension is zero.
    pub fn from_data(kind: ActionKind, t: usize, n: usize, data: Vec<i64>) -> (r: Result<
        Strategies,
        ConfigError,
    >)
        ensures
            r is Ok <==> (t >= 1 && n >= 1 && data@.len() == t * n * kind_width(kind)),
            r is Ok ==> ({
                let s = r->Ok_0;
                &&& s.wf()
                &&& s@.kind == kind
                &&& s@.t == t
                &&& s@.n == n
                &&& s@.data == ints(data@)
            }),
            (t == 0 || n == 0) ==> r == Result::<Strategies, ConfigError>::Err(
                ConfigError::EmptyList,
            ),
            (t >= 1 && n >= 1 && data@.len() != t * n * kind_width(kind)) ==> r == Result::<
                Strategies,
                ConfigError,
            >::Err(ConfigError::LengthMismatch),
    {
        if t == 0 || n == 0 {
            return Err(ConfigError::EmptyList);
        }
        let w = width_of(kind);
        let _dl = data.len();
        proof {
            vstd::arithmetic::mul::lemma_mul_upper_bound(
                t as int,
                0xFFFFFFFFFFFFFFFF,
                n as int,
                0xFFFFFFFFFFFFFFFF,
            );
            assert(0xFFFFFFFFFFFFFFFF * 0xFFFFFFFFFFFFFFFF
                < 0xFFFFFFFFFFFFFFFFFFFFFFFFFFFFFFFFu128) by (nonlinear_arith);
        }
        let tn: u128 = (t as u128) * (n as u128);
        if tn > 0xFFFFFFFFFFFFFFFFu128 {
            // The required length exceeds any possible vector length.
            proof {
                assert(t * n * kind_width(kind) >= (t as int) * (n as int) * 1) by {
                    vstd::arithmetic::mul::lemma_mul_left_inequality(
                        (t as int) * (n as int),
                        1,
                        kind_width(kind),
                    );
                }
                vstd::arithmetic::mul::lemma_mul_basics((t as int) * (n as int));
            }
            return Err(ConfigError::LengthMismatch);
        }
        let need: u128 = tn * (w as u128);
        proof {
            vstd::arithmetic::mul::lemma_mul_upper_bound(
                tn as int,
                0xFFFFFFFFFFFFFFFF,
                w as int,
                4,
            );
            assert(0xFFFFFFFFFFFFFFFF * 4 < 0xFFFFFFFFFFFFFFFFFFFFFFFFFFFFFFFFu128)
                by (nonlinear_arith);
            vstd::arithmetic::mul::lemma_mul_is_associative(t as int, n as int, w as int);
        }
        if (data.len() as u128) != need {
            return Err(ConfigError::LengthMismatch);
        }
        Ok(Strategies { kind, t, n, data })
    }
}

/// Row-major entry positions lie inside the profile's data array.
pub proof fn lemma_strat_entry_in_range(s: StratM, ti: int, i: int, j: int)
    requires
        s.wf(),
        0 <= ti < s.t,
        0 <= i < s.n,
        0 <= j < kind_width(s.kind),
    ensures
        0 <= (ti * s.n + i) * kind_width(s.kind) + j < s.data.len(),
        (ti * s.n + i) * kind_width(s.kind) + j < s.t * s.n * kind_width(s.kind),
{
    let w = kind_width(s.kind);
    vstd::arithmetic::mul::lemma_mul_nonnegative(ti, s.n);
    vstd::arithmetic::mul::lemma_mul_nonnegative(ti * s.n + i, w);
    assert(ti * s.n + i + 1 <= s.t * s.n) by {
        vstd::arithmetic::mul::lemma_mul_inequality(ti + 1, s.t, s.n);
        vstd::arithmetic::mul::lemma_mul_is_distributive_add_other_way(s.n, ti, 1);
        vstd::arithmetic::mul::lemma_mul_basics(s.n);
    }
    assert((ti * s.n + i + 1) * w <= (s.t * s.n) * w) by {
        vstd::arithmetic::mul::lemma_mul_inequality(ti * s.n + i + 1, s.t * s.n, w);
    }
    assert((ti * s.n + i + 1) * w == (ti * s.n + i) * w + w) by {
        vstd::arithmetic::mul::lemma_mul_is_distributive_add_other_way(w, ti * s.n + i, 1);
        vstd::arithmetic::mul::lemma_mul_basics(w);
    }
    assert((s.t * s.n) * w == s.t * s.n * w) by {
        vstd::arithmetic::mul::lemma_mul_is_associative(s.t, s.n, w);
    }
}

/// Positions of period `ti`'s block inside the profile data.
pub proof fn lemma_period_range(s: StratM, ti: int)
    requires
        s.wf(),
        0 <= ti < s.t,
    ensures
        0 <= ti * s.n * kind_width(s.kind),
        (ti + 1) * s.n * kind_width(s.kind) <= s.data.len(),
        (ti + 1) * s.n * kind_width(s.kind) == ti * s.n * kind_width(s.kind) + s.n * kind_width(
            s.kind,
        ),
{
    let w = kind_width(s.kind);
    let nw = s.n * w;
    vstd::arithmetic::mul::lemma_mul_nonnegative(s.n, w);
    vstd::arithmetic::mul::lemma_mul_nonnegative(ti, nw);
    assert(ti * s.n * w == ti * nw && (ti + 1) * s.n * w == (ti + 1) * nw && s.t * s.n * w == s.t
        * nw) by {
        vstd::arithmetic::mul::lemma_mul_is_associative(ti, s.n, w);
        vstd::arithmetic::mul::lemma_mul_is_associative(ti + 1, s.n, w);
        vstd::arithmetic::mul::lemma_mul_is_associative(s.t, s.n, w);
    }
    assert((ti + 1) * nw <= s.t * nw) by {
        vstd::arithmetic::mul::lemma_mul_inequality(ti + 1, s.t, nw);
    }
    assert((ti + 1) * nw == ti * nw + nw) by {
        vstd::arithmetic::mul::lemma_mul_is_distributive_add_other_way(nw, ti, 1);
        vstd::arithmetic::mul::lemma_mul_basics(nw);
    }
}

impl Strategies {
    /// Split the profile into its per-period joint actions.
    pub fn to_actions(&self) -> (r: Vec<Actions>)
        requires
            self.wf(),
        ensures
            r@.len() == self@.t,
            forall|ti: int|
                0 <= ti < self@.t ==> (#[trigger] r@[ti])@ == self@.action_at(ti) && r@[ti].wf(),
    {
        let w = width_of(self.kind);
        let _dl0 = self.data.len();
        proof {
            lemma_period_range(self@, 0);
            vstd::arithmetic::mul::lemma_mul_basics(self@.n * kind_width(self@.kind));
        }
        let nw = self.n * w;
        let mut out: Vec<Actions> = Vec::new();
        let mut ti: usize = 0;
        while ti < self.t
            invariant
                0 <= ti <= self@.t,
                self.wf(),
                nw as int == self@.n * kind_width(self@.kind),
                out@.len() == ti,
                forall|q: int|
                    0 <= q < ti ==> (#[trigger] out@[q])@ == self@.action_at(q) && out@[q].wf(),
            decreases self@.t - ti,
        {
            let dl = self.data.len();
            proof {
                lemma_period_range(self@, ti as int);
                vstd::arithmetic::mul::lemma_mul_is_associative(
                    ti as int,
                    self@.n,
                    kind_width(self@.kind),
                );
                vstd::arithmetic::mul::lemma_mul_is_associative(
                    ti as int + 1,
                    self@.n,
                    kind_width(self@.kind),
                );
                vstd::arithmetic::mul::lemma_mul_nonnegative(ti as int, self@.n * kind_width(self@.kind));
            }
            let base = ti * nw;
            let mut data: Vec<i64> = Vec::new();
            let mut idx: usize = 0;
            while idx < nw
                invariant
                    0 <= idx <= nw,
                    self.wf(),
                    nw as int == self@.n * kind_width(self@.kind),
                    0 <= ti < self@.t,
                    base as int == (ti as int) * self@.n * kind_width(self@.kind),
                    base + nw <= dl,
                    dl == self.data@.len(),
                    data@.len() == idx,
                    forall|q: int| 0 <= q < idx ==> data@[q] == self.data@[base + q],
                decreases nw - idx,
            {
                data.push(self.data[base + idx]);
                idx = idx + 1;
            }
            let a = Actions { kind: self.kind, n: self.n, data };
            proof {
                assert(a@.data =~= self@.action_at(ti as int).data);
                lemma_period_range(self@, ti as int);
                vstd::arithmetic::mul::lemma_mul_nonnegative(
                    (ti as int) * self@.n,
                    kind_width(self@.kind),
                );
            }
            out.push(a);
            ti = ti + 1;
        }
        out
    }

    /// Assemble a profile from per-period joint actions.  Fails when the list
    /// is empty, or the actions disagree in kind (`KindMismatch`) or player
    /// count (`LengthMismatch`).
    pub fn from_actions(actions: &Vec<Actions>) -> (r: Result<Strategies, ConfigError>)
        requires
            forall|q: int| 0 <= q < actions@.len() ==> (#[trigger] actions@[q]).wf(),
        ensures
            r is Ok <==> (actions@.len() >= 1 && (forall|q: int|
                0 <= q < actions@.len() ==> (#[trigger] actions@[q])@.kind == actions@[0]@.kind
                    && actions@[q]@.n == actions@[0]@.n)),
            r is Ok ==> ({
                let s = r->Ok_0;
                &&& s.wf()
                &&& s@.t == actions@.len()
                &&& s@.n == actions@[0]@.n
                &&& s@.kind == actions@[0]@.kind
                &&& forall|ti: int|
                    0 <= ti < actions@.len() ==> s@.action_at(ti) == (#[trigger] actions@[ti])@
            }),
            actions@.len() == 0 ==> r == Result::<Strategies, ConfigError>::Err(
                ConfigError::EmptyList,
            ),
    {
        if actions.len() == 0 {
            return Err(ConfigError::EmptyList);
        }
        let kind = actions[0].kind;
        let n = actions[0].n;
        let t = actions.len();
        let w = width_of(kind);
        let _al0 = actions[0].data.len();
        let nw = n * w;
        let mut data: Vec<i64> = Vec::new();
        let mut ti: usize = 0;
        while ti < t
            invariant
                0 <= ti <= t,
                t == actions@.len(),
                forall|q: int| 0 <= q < actions@.len() ==> (#[trigger] actions@[q]).wf(),
                kind == actions@[0]@.kind,
                n as int == actions@[0]@.n,
                nw as int == (n as int) * kind_width(kind),
                data@.len() == ti * nw,
                forall|q: int|
                    0 <= q < ti ==> (#[trigger] actions@[q])@.kind == kind && actions@[q]@.n
                        == n as int,
                forall|q: int|
                    0 <= q < ti ==> ints(data@).subrange(q * nw as int, (q + 1) * nw as int) == (
                    #[trigger] actions@[q])@.data,
            decreases t - ti,
        {
            let a = &actions[ti];
            if !matches!((a.kind, kind), (ActionKind::Basic, ActionKind::Basic) | (
                ActionKind::Invest,
                ActionKind::Invest,
            )) {
                return Err(ConfigError::KindMismatch);
            }
            if a.n != n {
                return Err(ConfigError::LengthMismatch);
            }
            let ghost old_data = data@;
            let mut idx: usize = 0;
            let al = a.data.len();
            proof {
                vstd::arithmetic::mul::lemma_mul_inequality(ti as int + 1, t as int, nw as int);
                vstd::arithmetic::mul::lemma_mul_is_distributive_add_other_way(
                    nw as int,
                    ti as int,
                    1,
                );
                vstd::arithmetic::mul::lemma_mul_basics(nw as int);
                vstd::arithmetic::mul::lemma_mul_upper_bound(
                    t as int,
                    0xFFFFFFFFFFFFFFFF,
                    nw as int,
                    0xFFFFFFFFFFFFFFFF,
                );
            }
            while idx < nw
                invariant
                    0 <= idx <= nw,
                    al == a.data@.len(),
                    al == nw,
                    data@.len() == old_data.len() + idx,
                    data@ == old_data + a.data@.take(idx as int),
                decreases nw - idx,
            {
                data.push(a.data[idx]);
                proof {
                    assert(data@ =~= old_data + a.data@.take(idx as int + 1));
                }
                idx = idx + 1;
            }
            proof {
                assert(data@ =~= old_data + a.data@);
                assert forall|q: int| 0 <= q < ti + 1 implies ints(data@).subrange(
                    q * nw as int,
                    (q + 1) * nw as int,
                ) == (#[trigger] actions@[q])@.data by {
                    vstd::arithmetic::mul::lemma_mul_is_distributive_add_other_way(
                        nw as int,
                        q,
                        1,
                    );
                    vstd::arithmetic::mul::lemma_mul_basics(nw as int);
                    vstd::arithmetic::mul::lemma_mul_nonnegative(q, nw as int);
                    if q < ti {
                        vstd::arithmetic::mul::lemma_mul_inequality(q + 1, ti as int, nw as int);
                        assert(ints(data@).subrange(q * nw as int, (q + 1) * nw as int)
                            =~= ints(old_data).subrange(q * nw as int, (q + 1) * nw as int));
                    } else {
                        assert(ints(data@).subrange(q * nw as int, (q + 1) * nw as int)
                            =~= (actions@[q])@.data);
                    }
                }
            }
            ti = ti + 1;
        }
        let s = Strategies { kind, t, n, data };
        proof {
            assert(s@.wf()) by {
                vstd::arithmetic::mul::lemma_mul_is_associative(
                    t as int,
                    n as int,
                    kind_width(kind),
                );
            }
            assert forall|ti: int| 0 <= ti < actions@.len() implies s@.action_at(ti) == (
            #[trigger] actions@[ti])@ by {
                lemma_period_range(s@, ti);
                vstd::arithmetic::mul::lemma_mul_is_associative(ti, n as int, kind_width(kind));
                vstd::arithmetic::mul::lemma_mul_is_associative(
                    ti + 1,
                    n as int,
                    kind_width(kind),
                );
                assert(s@.action_at(ti).data =~= (actions@[ti])@.data);
            }
        }
        Ok(s)
    }
}

/// A well-formed profile is determined by its per-period actions: two
/// profiles of the same shape whose actions agree in every period are equal.
/// Together with the contracts of [`Strategies::to_actions`] and
/// [`Strategies::from_actions`], this is the loss-free round trip between a
/// profile and its action list.
pub proof fn lemma_actions_roundtrip(s1: StratM, s2: StratM)
    requires
        s1.wf(),
        s2.wf(),
        s1.kind == s2.kind,
        s1.t == s2.t,
        s1.n == s2.n,
        forall|ti: int| 0 <= ti < s1.t ==> s1.action_at(ti) == s2.action_at(ti),
    ensures
        s1 == s2,
{
    let w = kind_width(s1.kind);
    let nw = s1.n * w;
    vstd::arithmetic::mul::lemma_mul_nonnegative(s1.n, w);
    assert(s1.data.len() == s1.t * nw && s2.data.len() == s1.t * nw) by {
        vstd::arithmetic::mul::lemma_mul_is_associative(s1.t, s1.n, w);
    }
    assert(nw >= 1) by {
        vstd::arithmetic::mul::lemma_mul_inequality(1, s1.n, w);
        vstd::arithmetic::mul::lemma_mul_basics(w);
    }
    assert forall|idx: int| 0 <= idx < s1.data.len() implies s1.data[idx] == s2.data[idx] by {
        let ti = idx / nw;
        let off = idx % nw;
        vstd::arithmetic::div_mod::lemma_fundamental_div_mod(idx, nw);
        vstd::arithmetic::div_mod::lemma_mod_division_less_than_divisor(idx, nw);
        vstd::arithmetic::div_mod::lemma_div_pos_is_pos(idx, nw);
        assert(ti < s1.t) by {
            if ti >= s1.t {
                vstd::arithmetic::mul::lemma_mul_inequality(s1.t, ti, nw);
                vstd::arithmetic::mul::lemma_mul_is_commutative(ti, nw);
            }
        }
        lemma_period_range(s1, ti);
        vstd::arithmetic::mul::lemma_mul_is_associative(ti, s1.n, w);
        vstd::arithmetic::mul::lemma_mul_is_commutative(ti, nw);
        assert(s1.action_at(ti).data[off] == s1.data[idx]);
        assert(s2.action_at(ti).data[off] == s2.data[idx]);
    }
    assert(s1.data =~= s2.data);
}

/// Relies on rand::random: draws a value of the requested type from the
/// thread-local generator.  Nothing is promised of the value.
pub assume_specification<T>[ rand::random::<T> ]() -> (r: T)
    where
        rand::distributions::Standard: rand::distributions::Distribution<T>,
;

/// One machine word of randomness.
fn rand_u64() -> u64 {
    rand::random::<u64>()
}

/// The value is the exponential of `mu + sigma * z` for some bounded
/// standard-normal-like deviate `z`: everything that holds of a single
/// log-normal-like entry, whatever the generator returned.
pub open spec fn lognormal_draw(v: int, mu: int, sigma: int) -> bool {
    exists|z: int|
        -59000000 <= z <= 59000000 && v == crate::transcend::spec_exp(
            crate::fixed::fxadd(mu, crate::fixed::fxm(sigma, z)),
        )
}

/// A rough standard-normal draw in fixed point: the centered sum of four
/// 16-bit uniform chunks of one random word, rescaled by its standard
/// deviation (about 37837); values stay within roughly 3.5 standard
/// deviations.
fn rand_normal_fx() -> (r: i64)
    ensures
        -59000000 <= r as int <= 59000000,
{
    let word = rand_u64();
    let c0: i64 = (word & 0xFFFF) as i64;
    let c1: i64 = ((word >> 16) & 0xFFFF) as i64;
    let c2: i64 = ((word >> 32) & 0xFFFF) as i64;
    let c3: i64 = ((word >> 48) & 0xFFFF) as i64;
    proof {
        assert((word & 0xFFFF) <= 0xFFFF && ((word >> 16) & 0xFFFF) <= 0xFFFF && ((word >> 32)
            & 0xFFFF) <= 0xFFFF && ((word >> 48) & 0xFFFF) <= 0xFFFF) by (bit_vector);
    }
    let dev: i64 = c0 + c1 + c2 + c3 - 131070;
    // SCALE / 37837 is about 443.
    dev * 443
}

impl Strategies {
    /// A profile with entries drawn from an approximate log-normal
    /// distribution: `exp(mu + sigma * z)` with `z` roughly standard normal.
    /// Every entry is strictly positive.  Fails when a dimension is zero or
    /// the requested shape cannot be stored.
    pub fn random(t: usize, n: usize, kind: ActionKind, mu: i64, sigma: i64) -> (r: Result<
        Strategies,
        ConfigError,
    >)
        ensures
            r is Ok <==> (t >= 1 && n >= 1 && t * n * kind_width(kind) <= usize::MAX),
            r is Ok ==> ({
                let s = r->Ok_0;
                &&& s.wf()
                &&& s@.kind == kind
                &&& s@.t == t
                &&& s@.n == n
                &&& forall|q: int|
                    0 <= q < s@.data.len() ==> 1 <= #[trigger] s@.data[q] <= FX_MAX as int
                &&& forall|q: int|
                    0 <= q < s@.data.len() ==> lognormal_draw(
                        #[trigger] s@.data[q],
                        mu as int,
                        sigma as int,
                    )
            }),
    {
        if t == 0 || n == 0 {
            return Err(ConfigError::EmptyList);
        }
        let w = width_of(kind);
        proof {
            vstd::arithmetic::mul::lemma_mul_upper_bound(
                t as int,
                0xFFFFFFFFFFFFFFFF,
                n as int,
                0xFFFFFFFFFFFFFFFF,
            );
            assert(0xFFFFFFFFFFFFFFFF * 0xFFFFFFFFFFFFFFFF
                < 0xFFFFFFFFFFFFFFFFFFFFFFFFFFFFFFFFu128) by (nonlinear_arith);
            vstd::arithmetic::mul::lemma_mul_is_associative(t as int, n as int, w as int);
        }
        let tn: u128 = (t as u128) * (n as u128);
        if tn > usize::MAX as u128 {
            proof {
                assert(t * n * kind_width(kind) >= (t as int) * (n as int) * 1) by {
                    vstd::arithmetic::mul::lemma_mul_left_inequality(
                        (t as int) * (n as int),
                        1,
                        kind_width(kind),
                    );
                }
                vstd::arithmetic::mul::lemma_mul_basics((t as int) * (n as int));
            }
            return Err(ConfigError::LengthMismatch);
        }
        proof {
            vstd::arithmetic::mul::lemma_mul_upper_bound(tn as int, usize::MAX as int, w as int, 4);
            assert((usize::MAX as int) * 4 < 0xFFFFFFFFFFFFFFFFFFFFFFFFFFFFFFFF);
            if tn * (w as u128) > usize::MAX as u128 {
                assert(t * n * kind_width(kind) > usize::MAX);
            }
        }
        let need128: u128 = tn * (w as u128);
        if need128 > usize::MAX as u128 {
            return Err(ConfigError::LengthMismatch);
        }
        let need: usize = need128 as usize;
        let mut data: Vec<i64> = Vec::new();
        let mut q: usize = 0;
        while q < need
            invariant
                0 <= q <= need,
                data@.len() == q,
                forall|p: int| 0 <= p < q ==> 1 <= #[trigger] data@[p] <= FX_MAX,
                forall|p: int|
                    0 <= p < q ==> lognormal_draw(
                        (#[trigger] data@[p]) as int,
                        mu as int,
                        sigma as int,
                    ),
            decreases need - q,
        {
            let ghost data_old = data@;
            let z = rand_normal_fx();
            let entry = crate::transcend::fx_exp(fx_add(mu, fx_mul(sigma, z)));
            data.push(entry);
            proof {
                assert(entry as int == crate::transcend::spec_exp(
                    crate::fixed::fxadd(mu as int, crate::fixed::fxm(sigma as int, z as int)),
                ));
                assert(lognormal_draw(entry as int, mu as int, sigma as int));
                assert forall|p: int| 0 <= p < q as int + 1 implies lognormal_draw(
                    (#[trigger] data@[p]) as int,
                    mu as int,
                    sigma as int,
                ) && 1 <= data@[p] <= FX_MAX by {
                    if p < q as int {
                        assert(data@[p] == data_old[p]);
                    } else {
                        assert(data@[p] == entry);
                    }
                }
            }
            q = q + 1;
        }
        let s = Strategies { kind, t, n, data };
        proof {
            assert(s@.wf());
            assert forall|p: int| 0 <= p < s@.data.len() implies 1 <= #[trigger] s@.data[p]
                <= FX_MAX as int && lognormal_draw(s@.data[p], mu as int, sigma as int) by {
                assert(s@.data[p] == data@[p] as int);
            }
        }
        Ok(s)
    }
}

impl Actions {
    /// The safety-input column.
    pub fn xs(&self) -> (r: Vec<i64>)
        requires
            self.wf(),
        ensures
            r@.len() == self@.n,
            forall|i: int| 0 <= i < self@.n ==> (#[trigger] r@[i]) as int == self@.xs(i),
    {
        self.column(0)
    }

    /// The production-input column.
    pub fn xp(&self) -> (r: Vec<i64>)
        requires
            self.wf(),
        ensures
            r@.len() == self@.n,
            forall|i: int| 0 <= i < self@.n ==> (#[trigger] r@[i]) as int == self@.xp(i),
    {
        self.column(1)
    }

    /// The safety-capacity investment column.
    pub fn inv_s(&self) -> (r: Vec<i64>)
        requires
            self.wf(),
            self@.kind == ActionKind::Invest,
        ensures
            r@.len() == self@.n,
            forall|i: int| 0 <= i < self@.n ==> (#[trigger] r@[i]) as int == self@.inv_s(i),
    {
        self.column(2)
    }

    /// The production-capacity investment column.
    pub fn inv_p(&self) -> (r: Vec<i64>)
        requires
            self.wf(),
            self@.kind == ActionKind::Invest,
        ensures
            r@.len() == self@.n,
            forall|i: int| 0 <= i < self@.n ==> (#[trigger] r@[i]) as int == self@.inv_p(i),
    {
        self.column(3)
    }

    /// Column `j` of the action array.
    pub fn column(&self, j: usize) -> (r: Vec<i64>)
        requires
            self.wf(),
            j < kind_width(self@.kind),
        ensures
            r@.len() == self@.n,
            forall|i: int| 0 <= i < self@.n ==> (#[trigger] r@[i]) as int == self@.entry(i, j as int),
    {
        let n = self.n;
        let mut out: Vec<i64> = Vec::new();
        let mut i: usize = 0;
        while i < n
            invariant
                0 <= i <= n,
                n as int == self@.n,
                self.wf(),
                j < kind_width(self@.kind),
                out@.len() == i,
                forall|q: int|
                    0 <= q < i ==> (#[trigger] out@[q]) as int == self@.entry(q, j as int),
            decreases n - i,
        {
            let ghost out_old = out@;
            let v = self.get(i, j);
            out.push(v);
            proof {
                assert forall|q: int| 0 <= q <= i as int implies (#[trigger] out@[q]) as int
                    == self@.entry(q, j as int) by {
                    if q < i as int {
                        assert(out@[q] == out_old[q]);
                    } else {
                        assert(out@[q] == v);
                    }
                }
            }
            i = i + 1;
        }
        out
    }
}

} // verus!
