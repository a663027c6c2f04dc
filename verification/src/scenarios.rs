//! Scenario runner: a batch of independent aggregator instances solved with
//! the same options.

use vstd::prelude::*;

use crate::errors::{ConfigError, SolveError};
use crate::solve::{agg_uf, fixed_guess_ok, solve, spec_solve, strat_pos, SolverOptions};
use crate::states::PayoffAggregator;
use crate::strategies::{Strategies, StratM};

verus! {

/// A list of aggregators sharing one player count, each defining an
/// independent equilibrium problem.
#[derive(Debug)]
pub struct Scenario<A: PayoffAggregator> {
    pub aggs: Vec<A>,
}

impl<A: PayoffAggregator> Scenario<A> {
    /// Every aggregator well formed, at least one, all with one player
    /// count.
    pub open spec fn wf(&self) -> bool {
        &&& self.aggs@.len() >= 1
        &&& forall|q: int|
            0 <= q < self.aggs@.len() ==> (#[trigger] self.aggs@[q]).wf()
                && self.aggs@[q].spec_n() == self.aggs@[0].spec_n()
    }

    /// The shared player count.
    pub open spec fn spec_n(&self) -> int {
        self.aggs@[0].spec_n()
    }

    /// Build from a non-empty list of aggregators; fails when the list is
    /// empty or the aggregators disagree about the player count.
    pub fn new(aggs: Vec<A>) -> (r: Result<Scenario<A>, ConfigError>)
        requires
            forall|q: int| 0 <= q < aggs@.len() ==> (#[trigger] aggs@[q]).wf(),
        ensures
            r is Ok <==> (aggs@.len() >= 1 && (forall|q: int|
                0 <= q < aggs@.len() ==> (#[trigger] aggs@[q]).spec_n() == aggs@[0].spec_n())),
            r is Ok ==> ({
                let s = r->Ok_0;
                &&& s.wf()
                &&& s.aggs@ == aggs@
            }),
            aggs@.len() == 0 ==> r == Result::<Scenario<A>, ConfigError>::Err(
                ConfigError::EmptyList,
            ),
    {
        let m = aggs.len();
        if m == 0 {
            return Err(ConfigError::EmptyList);
        }
        let n0 = aggs[0].n();
        let mut q: usize = 1;
        while q < m
            invariant
                1 <= q <= m,
                m == aggs@.len(),
                forall|p: int| 0 <= p < aggs@.len() ==> (#[trigger] aggs@[p]).wf(),
                n0 as int == aggs@[0].spec_n(),
                forall|p: int| 0 <= p < q ==> (#[trigger] aggs@[p]).spec_n() == aggs@[0].spec_n(),
            decreases m - q,
        {
            if aggs[q].n() != n0 {
                return Err(ConfigError::PlayerCountMismatch);
            }
            q = q + 1;
        }
        Ok(Scenario { aggs })
    }

    /// The aggregators.
    pub fn aggs(&self) -> (r: &Vec<A>)
        ensures
            r == &self.aggs,
    {
        &self.aggs
    }

    /// The shared player count.
    pub fn n(&self) -> (r: usize)
        requires
            self.wf(),
        ensures
            r as int == self.spec_n(),
    {
        self.aggs[0].n()
    }

    /// Solve every aggregator with the same options, in order, failing the
    /// whole batch on the first per-item failure.  For a fixed initial
    /// guess, slot `q` of the result is exactly the deterministic
    /// [`spec_solve`] of aggregator `q`.
    pub fn solve(&self, options: &SolverOptions) -> (r: Result<Vec<Strategies>, SolveError>)
        requires
            self.wf(),
            options.wf(),
        ensures
            r is Ok ==> ({
                let v = r->Ok_0;
                &&& v@.len() == self.aggs@.len()
                &&& forall|q: int|
                    0 <= q < v@.len() ==> (#[trigger] v@[q]).wf() && v@[q]@.n == self.spec_n()
                        && strat_pos(v@[q]@)
                &&& (options.init_guess is Fixed ==> forall|q: int|
                    0 <= q < v@.len() ==> (#[trigger] v@[q])@ == spec_solve(
                        agg_uf(self.aggs@[q]),
                        self.spec_n() as nat,
                        options.init_guess->Fixed_0@,
                        options.max_iters as nat,
                        options.tol as int,
                        options.nm_options.init_simplex_size as int,
                        options.nm_options.max_iters as nat,
                        options.nm_options.tol as int,
                    ))
            }),
            options.init_guess is Fixed ==> (r is Ok <==> (forall|q: int|
                0 <= q < self.aggs@.len() ==> fixed_guess_ok(
                    #[trigger] self.aggs@[q],
                    options.init_guess->Fixed_0@,
                ))),
    {
        let m = self.aggs.len();
        let mut out: Vec<Strategies> = Vec::new();
        let mut q: usize = 0;
        while q < m
            invariant
                0 <= q <= m,
                m == self.aggs@.len(),
                self.wf(),
                options.wf(),
                out@.len() == q,
                forall|p: int|
                    0 <= p < q ==> (#[trigger] out@[p]).wf() && out@[p]@.n == self.spec_n()
                        && strat_pos(out@[p]@),
                options.init_guess is Fixed ==> forall|p: int|
                    0 <= p < q ==> (#[trigger] out@[p])@ == spec_solve(
                        agg_uf(self.aggs@[p]),
                        self.spec_n() as nat,
                        options.init_guess->Fixed_0@,
                        options.max_iters as nat,
                        options.tol as int,
                        options.nm_options.init_simplex_size as int,
                        options.nm_options.max_iters as nat,
                        options.nm_options.tol as int,
                    ),
                options.init_guess is Fixed ==> forall|p: int|
                    0 <= p < q ==> fixed_guess_ok(
                        #[trigger] self.aggs@[p],
                        options.init_guess->Fixed_0@,
                    ),
            decreases m - q,
        {
            let ghost out_old = out@;
            match solve(&self.aggs[q], options) {
                Ok(s) => {
                    out.push(s);
                },
                Err(e) => {
                    return Err(e);
                },
            }
            proof {
                assert forall|p: int| 0 <= p <= q as int implies (#[trigger] out@[p]).wf()
                    && out@[p]@.n == self.spec_n() && strat_pos(out@[p]@) by {
                    if p < q as int {
                        assert(out@[p] == out_old[p]);
                    }
                }
            }
            q = q + 1;
        }
        Ok(out)
    }
}

/// Two aggregators with the same utility model, the same player count, the
/// same fixed initial guess and the same options solve to numerically
/// identical profiles: a scenario of identical aggregators returns identical
/// slots.
pub proof fn lemma_identical_aggregators<A: PayoffAggregator>(
    a1: A,
    a2: A,
    guess: StratM,
    max_iters: nat,
    rtol: int,
    step: int,
    imax: nat,
    itol: int,
)
    requires
        a1.spec_n() == a2.spec_n(),
        forall|i: int, s: StratM| #[trigger] a1.spec_u_i(i, s) == a2.spec_u_i(i, s),
    ensures
        spec_solve(agg_uf(a1), a1.spec_n() as nat, guess, max_iters, rtol, step, imax, itol)
            == spec_solve(
            agg_uf(a2),
            a2.spec_n() as nat,
            guess,
            max_iters,
            rtol,
            step,
            imax,
            itol,
        ),
{
    assert forall|i: int, s: StratM| #[trigger] agg_uf(a1)(i, s) == agg_uf(a2)(i, s) by {
    }
    crate::solve::lemma_solve_deterministic(
        agg_uf(a1),
        agg_uf(a2),
        a1.spec_n() as nat,
        guess,
        max_iters,
        rtol,
        step,
        imax,
        itol,
    );
}

} // verus!
