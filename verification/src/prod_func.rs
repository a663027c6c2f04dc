//! Production primitive: Cobb-Douglas production of safety-relevant and
//! contest-relevant output from each player's two investment inputs.

use vstd::prelude::*;

use crate::errors::ConfigError;
use crate::fixed::{fxadd, fxm};
use crate::fixed::{fx_add, fx_mul};
use crate::strategies::{Actions, ActionsM, dup_vec};
use crate::transcend::{fx_pow, spec_pow};
use crate::fixed::ints;

verus! {

/// Mathematical model of [`DefaultProd`].
pub struct ProdM {
    pub a: Seq<int>,
    pub alpha: Seq<int>,
    pub b: Seq<int>,
    pub beta: Seq<int>,
}

impl ProdM {
    /// All four parameter arrays have the same length.
    pub open spec fn wf(&self) -> bool {
        self.alpha.len() == self.a.len() && self.b.len() == self.a.len() && self.beta.len()
            == self.a.len()
    }

    /// Player count.
    pub open spec fn n(&self) -> int {
        self.a.len() as int
    }

    /// Safety-relevant output of player `i`: `a_i * xs_i ^ alpha_i`.
    pub open spec fn s_i(&self, am: ActionsM, i: int) -> int {
        fxm(self.a[i], spec_pow(am.xs(i), self.alpha[i]))
    }

    /// Contest-relevant output of player `i`: `b_i * xp_i ^ beta_i`.
    pub open spec fn p_i(&self, am: ActionsM, i: int) -> int {
        fxm(self.b[i], spec_pow(am.xp(i), self.beta[i]))
    }

    /// Capacity growth from realized investment: `a_i += inv_s_i`,
    /// `b_i += inv_p_i`; exponents unchanged.
    pub open spec fn mutated(&self, am: ActionsM) -> ProdM {
        ProdM {
            a: Seq::new(self.a.len(), |i: int| fxadd(self.a[i], am.inv_s(i))),
            alpha: self.alpha,
            b: Seq::new(self.b.len(), |i: int| fxadd(self.b[i], am.inv_p(i))),
            beta: self.beta,
        }
    }
}

/// Cobb-Douglas production: `s_i = a_i * xs_i^alpha_i`,
/// `p_i = b_i * xp_i^beta_i`.
#[derive(Clone, Debug)]
pub struct DefaultProd {
    pub a: Vec<i64>,
    pub alpha: Vec<i64>,
    pub b: Vec<i64>,
    pub beta: Vec<i64>,
}

impl View for DefaultProd {
    type V = ProdM;

    open spec fn view(&self) -> ProdM {
        ProdM {
            a: ints(self.a@),
            alpha: ints(self.alpha@),
            b: ints(self.b@),
            beta: ints(self.beta@),
        }
    }
}

impl DefaultProd {
    /// Shape invariant.
    pub open spec fn wf(&self) -> bool {
        self@.wf()
    }

    /// Build the primitive; fails unless all four arrays have equal length.
    pub fn new(a: Vec<i64>, alpha: Vec<i64>, b: Vec<i64>, beta: Vec<i64>) -> (r: Result<
        DefaultProd,
        ConfigError,
    >)
        ensures
            r is Ok <==> (alpha@.len() == a@.len() && b@.len() == a@.len() && beta@.len()
                == a@.len()),
            r is Err ==> r->Err_0 == ConfigError::LengthMismatch,
            r is Ok ==> ({
                let p = r->Ok_0;
                &&& p.wf()
                &&& p@.a == ints(a@)
                &&& p@.alpha == ints(alpha@)
                &&& p@.b == ints(b@)
                &&& p@.beta == ints(beta@)
            }),
    {
        if alpha.len() != a.len() || b.len() != a.len() || beta.len() != a.len() {
            return Err(ConfigError::LengthMismatch);
        }
        Ok(DefaultProd { a, alpha, b, beta })
    }

    /// Player count.
    pub fn n(&self) -> (r: usize)
        ensures
            r as int == self@.n(),
    {
        self.a.len()
    }

    /// An exact copy.
    pub fn dup(&self) -> (r: DefaultProd)
        ensures
            r@ == self@,
    {
        let r = DefaultProd {
            a: dup_vec(&self.a),
            alpha: dup_vec(&self.alpha),
            b: dup_vec(&self.b),
            beta: dup_vec(&self.beta),
        };
        proof {
            assert(r@.a =~= self@.a);
            assert(r@.alpha =~= self@.alpha);
            assert(r@.b =~= self@.b);
            assert(r@.beta =~= self@.beta);
        }
        r
    }

    /// Both outputs of player `i`.
    pub fn f_i(&self, i: usize, actions: &Actions) -> (r: (i64, i64))
        requires
            self.wf(),
            actions.wf(),
            i < self@.n(),
            i < actions@.n,
        ensures
            r.0 as int == self@.s_i(actions@, i as int),
            r.1 as int == self@.p_i(actions@, i as int),
    {
        let xs = actions.get(i, 0);
        let xp = actions.get(i, 1);
        (fx_mul(self.a[i], fx_pow(xs, self.alpha[i])), fx_mul(self.b[i], fx_pow(xp, self.beta[i])))
    }

    /// Outputs of all players: element `i` of each vector is `f_i(i)`.
    pub fn f(&self, actions: &Actions) -> (r: (Vec<i64>, Vec<i64>))
        requires
            self.wf(),
            actions.wf(),
            actions@.n == self@.n(),
        ensures
            r.0@.len() == self@.n(),
            r.1@.len() == self@.n(),
            forall|i: int| 0 <= i < self@.n() ==> (#[trigger] r.0@[i]) as int == self@.s_i(actions@, i),
            forall|i: int| 0 <= i < self@.n() ==> (#[trigger] r.1@[i]) as int == self@.p_i(actions@, i),
    {
        let n = self.a.len();
        let mut s: Vec<i64> = Vec::new();
        let mut p: Vec<i64> = Vec::new();
        let mut i: usize = 0;
        while i < n
            invariant
                0 <= i <= n,
                n as int == self@.n(),
                self.wf(),
                actions.wf(),
                actions@.n == self@.n(),
                s@.len() == i,
                p@.len() == i,
                forall|q: int| 0 <= q < i ==> (#[trigger] s@[q]) as int == self@.s_i(actions@, q),
                forall|q: int| 0 <= q < i ==> (#[trigger] p@[q]) as int == self@.p_i(actions@, q),
            decreases n - i,
        {
            let ghost s_old = s@;
            let ghost p_old = p@;
            let (si, pi) = self.f_i(i, actions);
            s.push(si);
            p.push(pi);
            proof {
                assert forall|q: int| 0 <= q <= i as int implies (#[trigger] s@[q]) as int
                    == self@.s_i(actions@, q) && (#[trigger] p@[q]) as int == self@.p_i(
                    actions@,
                    q,
                ) by {
                    if q < i as int {
                        assert(s@[q] == s_old[q]);
                        assert(p@[q] == p_old[q]);
                    } else {
                        assert(s@[q] == si);
                        assert(p@[q] == pi);
                    }
                }
            }
            i = i + 1;
        }
        (s, p)
    }

    /// Pure mutation: capacity coefficients grow by the realized investment.
    pub fn mutate_on_action(&self, actions: &Actions) -> (r: DefaultProd)
        requires
            self.wf(),
            actions.wf(),
            actions@.n == self@.n(),
        ensures
            r@ == self@.mutated(actions@),
            r.wf(),
    {
        let n = self.a.len();
        let mut a: Vec<i64> = Vec::new();
        let mut b: Vec<i64> = Vec::new();
        let mut i: usize = 0;
        while i < n
            invariant
                0 <= i <= n,
                n as int == self@.n(),
                self.wf(),
                actions.wf(),
                actions@.n == self@.n(),
                a@.len() == i,
                b@.len() == i,
                forall|q: int|
                    0 <= q < i ==> (#[trigger] a@[q]) as int == fxadd(self@.a[q], actions@.inv_s(q)),
                forall|q: int|
                    0 <= q < i ==> (#[trigger] b@[q]) as int == fxadd(self@.b[q], actions@.inv_p(q)),
            decreases n - i,
        {
            let ghost a_old = a@;
            let ghost b_old = b@;
            let (is_, ip_): (i64, i64) = match actions.kind {
                crate::strategies::ActionKind::Invest => (actions.get(i, 2), actions.get(i, 3)),
                crate::strategies::ActionKind::Basic => (0, 0),
            };
            a.push(fx_add(self.a[i], is_));
            b.push(fx_add(self.b[i], ip_));
            proof {
                assert forall|q: int| 0 <= q <= i as int implies (#[trigger] a@[q]) as int
                    == fxadd(self@.a[q], actions@.inv_s(q)) && (#[trigger] b@[q]) as int == fxadd(
                    self@.b[q],
                    actions@.inv_p(q),
                ) by {
                    if q < i as int {
                        assert(a@[q] == a_old[q]);
                        assert(b@[q] == b_old[q]);
                    } else {
                        assert(a@[q] == a@.last());
                        assert(b@[q] == b@.last());
                    }
                }
            }
            i = i + 1;
        }
        let r = DefaultProd { a, alpha: dup_vec(&self.alpha), b, beta: dup_vec(&self.beta) };
        proof {
            assert(r@.a =~= self@.mutated(actions@).a);
            assert(r@.b =~= self@.mutated(actions@).b);
            assert(r@.alpha =~= self@.mutated(actions@).alpha);
            assert(r@.beta =~= self@.mutated(actions@).beta);
        }
        r
    }

    /// In-place form of [`DefaultProd::mutate_on_action`].
    pub fn mutate_on_action_inplace(&mut self, actions: &Actions)
        requires
            old(self).wf(),
            actions.wf(),
            actions@.n == old(self)@.n(),
        ensures
            final(self)@ == old(self)@.mutated(actions@),
            final(self).wf(),
    {
        *self = self.mutate_on_action(actions);
    }
}

/// Production output is weakly monotone in the investment inputs, for
/// non-negative scale coefficients and exponents: raising `xs_i` cannot
/// lower `s_i`, and raising `xp_i` cannot lower `p_i`.
pub proof fn lemma_prod_monotone(p: ProdM, a1: ActionsM, a2: ActionsM, i: int)
    requires
        p.wf(),
        0 <= i < p.n(),
        p.a[i] >= 0,
        p.alpha[i] >= 0,
        p.b[i] >= 0,
        p.beta[i] >= 0,
        a1.xs(i) <= a2.xs(i),
        a1.xp(i) <= a2.xp(i),
    ensures
        p.s_i(a1, i) <= p.s_i(a2, i),
        p.p_i(a1, i) <= p.p_i(a2, i),
{
    crate::transcend::lemma_pow_mono_base(a1.xs(i), a2.xs(i), p.alpha[i]);
    crate::transcend::lemma_pow_mono_base(a1.xp(i), a2.xp(i), p.beta[i]);
    crate::fixed::lemma_fxm_mono(
        spec_pow(a1.xs(i), p.alpha[i]),
        spec_pow(a2.xs(i), p.alpha[i]),
        p.a[i],
    );
    crate::fixed::lemma_fxm_mono(
        spec_pow(a1.xp(i), p.beta[i]),
        spec_pow(a2.xp(i), p.beta[i]),
        p.b[i],
    );
}

} // verus!
