//! Belief states and payoff aggregation over time.
//!
//! A state assigns each player a single-period payoff function (its
//! "belief").  An aggregator combines a state — fixed per period, or evolving
//! from realized investment — with per-player discount factors into a total
//! discounted utility over a whole strategy profile.

use vstd::prelude::*;

use crate::errors::ConfigError;
use crate::fixed::{fxadd, fxm, fxsub, SCALE};
use crate::fixed::{fx_add, fx_mul, fx_sub};
use crate::payoff_func::{DefaultPayoff, PayoffM};
use crate::strategies::{Actions, ActionsM, Strategies, StratM};
use crate::transcend::spec_powi;

verus! {

/// A belief state: an O(1) per-player lookup of single-period payoff
/// functions, one shared by all players or one per player.
pub trait State: Sized {
    /// Internal invariant.
    spec fn wf(&self) -> bool;

    /// Player count.
    spec fn spec_n(&self) -> int;

    /// The per-player beliefs, as payoff models.
    spec fn spec_beliefs(&self) -> Seq<PayoffM>;

    /// A well-formed state has one well-formed belief per player.
    proof fn lemma_beliefs_wf(&self)
        requires
            self.wf(),
        ensures
            self.spec_n() >= 1,
            self.spec_beliefs().len() == self.spec_n(),
            forall|i: int|
                0 <= i < self.spec_n() ==> (#[trigger] self.spec_beliefs()[i]).wf()
                    && self.spec_beliefs()[i].n() == self.spec_n(),
    ;

    /// Player count.
    fn n(&self) -> (r: usize)
        requires
            self.wf(),
        ensures
            r as int == self.spec_n(),
    ;

    /// Player `i`'s belief.
    fn belief(&self, i: usize) -> (r: &DefaultPayoff)
        requires
            self.wf(),
            i < self.spec_n(),
        ensures
            r@ == self.spec_beliefs()[i as int],
            r.wf(),
    ;

    /// An exact copy.
    fn dup(&self) -> (r: Self)
        requires
            self.wf(),
        ensures
            r.wf(),
            r.spec_n() == self.spec_n(),
            r.spec_beliefs() == self.spec_beliefs(),
    ;
}

/// A payoff model whose production capacity grew by a period's realized
/// investment.
pub open spec fn mutated_payoff(pm: PayoffM, am: ActionsM) -> PayoffM {
    PayoffM {
        prod: pm.prod.mutated(am),
        risk: pm.risk,
        csf: pm.csf,
        reward: pm.reward,
        disaster: pm.disaster,
        cost: pm.cost,
    }
}

/// All beliefs advanced by a period's realized investment.
pub open spec fn mutated_beliefs(bs: Seq<PayoffM>, am: ActionsM) -> Seq<PayoffM> {
    bs.map_values(|b: PayoffM| mutated_payoff(b, am))
}

/// A state that evolves when a period's actions are realized: production
/// scale coefficients grow by the invested amounts (a no-op for basic-kind
/// actions, which carry no investment).
pub trait MutatesOnAction: State {
    /// Pure mutation: the advanced state, leaving `self` untouched.
    fn mutate_on_action(&self, actions: &Actions) -> (r: Self)
        requires
            self.wf(),
            actions.wf(),
            actions@.n == self.spec_n(),
        ensures
            r.wf(),
            r.spec_n() == self.spec_n(),
            r.spec_beliefs() == mutated_beliefs(self.spec_beliefs(), actions@),
    ;
}

impl State for DefaultPayoff {
    /// A single payoff function is the common-beliefs state.
    open spec fn wf(&self) -> bool {
        DefaultPayoff::wf(self)
    }

    open spec fn spec_n(&self) -> int {
        self@.n()
    }

    open spec fn spec_beliefs(&self) -> Seq<PayoffM> {
        Seq::new(self@.n() as nat, |i: int| self@)
    }

    proof fn lemma_beliefs_wf(&self) {
    }

    fn n(&self) -> (r: usize) {
        DefaultPayoff::n(self)
    }

    fn belief(&self, i: usize) -> (r: &DefaultPayoff) {
        self
    }

    fn dup(&self) -> (r: Self) {
        let r = DefaultPayoff::dup(self);
        proof {
            assert(State::spec_beliefs(&r) =~= State::spec_beliefs(self));
        }
        r
    }
}

impl MutatesOnAction for DefaultPayoff {
    fn mutate_on_action(&self, actions: &Actions) -> (r: Self) {
        let r = DefaultPayoff {
            prod_func: self.prod_func.mutate_on_action(actions),
            risk_func: self.risk_func.dup(),
            csf: *&self.csf,
            reward_func: self.reward_func.dup(),
            disaster_cost: self.disaster_cost.dup(),
            cost_func: self.cost_func.dup(),
        };
        proof {
            assert(State::spec_beliefs(&r) =~= mutated_beliefs(
                State::spec_beliefs(self),
                actions@,
            ));
        }
        r
    }
}

/// Heterogeneous beliefs: one payoff function per player.
#[derive(Clone, Debug)]
pub struct HetBeliefs {
    pub beliefs: Vec<DefaultPayoff>,
}

impl HetBeliefs {
    /// Build from one belief per player; fails when the list is empty or the
    /// beliefs disagree about the player count.
    pub fn new(beliefs: Vec<DefaultPayoff>) -> (r: Result<HetBeliefs, ConfigError>)
        requires
            forall|i: int| 0 <= i < beliefs@.len() ==> (#[trigger] beliefs@[i]).wf(),
        ensures
            r is Ok <==> (beliefs@.len() >= 1 && (forall|i: int|
                0 <= i < beliefs@.len() ==> (#[trigger] beliefs@[i])@.n() == beliefs@.len())),
            r is Ok ==> ({
                let h = r->Ok_0;
                &&& State::wf(&h)
                &&& h.beliefs@.len() == beliefs@.len()
                &&& forall|i: int|
                    0 <= i < beliefs@.len() ==> (#[trigger] h.beliefs@[i])@ == beliefs@[i]@
            }),
            beliefs@.len() == 0 ==> r == Result::<HetBeliefs, ConfigError>::Err(
                ConfigError::EmptyList,
            ),
    {
        let m = beliefs.len();
        if m == 0 {
            return Err(ConfigError::EmptyList);
        }
        let mut i: usize = 0;
        while i < m
            invariant
                0 <= i <= m,
                m == beliefs@.len(),
                forall|q: int| 0 <= q < beliefs@.len() ==> (#[trigger] beliefs@[q]).wf(),
                forall|q: int| 0 <= q < i ==> (#[trigger] beliefs@[q])@.n() == m,
            decreases m - i,
        {
            if DefaultPayoff::n(&beliefs[i]) != m {
                return Err(ConfigError::PlayerCountMismatch);
            }
            i = i + 1;
        }
        Ok(HetBeliefs { beliefs })
    }
}

impl State for HetBeliefs {
    /// One well-formed belief per player, each reporting the full player
    /// count.
    open spec fn wf(&self) -> bool {
        &&& self.beliefs@.len() >= 1
        &&& forall|i: int|
            0 <= i < self.beliefs@.len() ==> (#[trigger] self.beliefs@[i]).wf()
                && self.beliefs@[i]@.n() == self.beliefs@.len()
    }

    open spec fn spec_n(&self) -> int {
        self.beliefs@.len() as int
    }

    open spec fn spec_beliefs(&self) -> Seq<PayoffM> {
        self.beliefs@.map_values(|b: DefaultPayoff| b@)
    }

    proof fn lemma_beliefs_wf(&self) {
    }

    fn n(&self) -> (r: usize) {
        self.beliefs.len()
    }

    fn belief(&self, i: usize) -> (r: &DefaultPayoff) {
        &self.beliefs[i]
    }

    fn dup(&self) -> (r: Self) {
        let m = self.beliefs.len();
        let mut v: Vec<DefaultPayoff> = Vec::new();
        let mut i: usize = 0;
        while i < m
            invariant
                0 <= i <= m,
                m == self.beliefs@.len(),
                State::wf(self),
                v@.len() == i,
                forall|q: int| 0 <= q < i ==> (#[trigger] v@[q])@ == self.beliefs@[q]@,
            decreases m - i,
        {
            let ghost v_old = v@;
            let b = DefaultPayoff::dup(&self.beliefs[i]);
            v.push(b);
            proof {
                assert forall|q: int| 0 <= q <= i as int implies (#[trigger] v@[q])@
                    == self.beliefs@[q]@ by {
                    if q < i as int {
                        assert(v@[q] == v_old[q]);
                    }
                }
            }
            i = i + 1;
        }
        let r = HetBeliefs { beliefs: v };
        proof {
            assert(State::spec_beliefs(&r) =~= State::spec_beliefs(self));
        }
        r
    }
}

impl MutatesOnAction for HetBeliefs {
    fn mutate_on_action(&self, actions: &Actions) -> (r: Self) {
        let m = self.beliefs.len();
        let mut v: Vec<DefaultPayoff> = Vec::new();
        let mut i: usize = 0;
        while i < m
            invariant
                0 <= i <= m,
                m == self.beliefs@.len(),
                State::wf(self),
                actions.wf(),
                actions@.n == State::spec_n(self),
                v@.len() == i,
                forall|q: int|
                    0 <= q < i ==> (#[trigger] v@[q])@ == mutated_payoff(
                        self.beliefs@[q]@,
                        actions@,
                    ) && v@[q].wf(),
            decreases m - i,
        {
            let ghost v_old = v@;
            let b = MutatesOnAction::mutate_on_action(&self.beliefs[i], actions);
            proof {
                assert(State::spec_beliefs(&self.beliefs@[i as int])[i as int] == self.beliefs@[
                    i as int]@);
                assert(b@ == mutated_beliefs(
                    State::spec_beliefs(&self.beliefs@[i as int]),
                    actions@,
                )[i as int]);
            }
            v.push(b);
            proof {
                assert forall|q: int| 0 <= q <= i as int implies (#[trigger] v@[q])@
                    == mutated_payoff(self.beliefs@[q]@, actions@) && v@[q].wf() by {
                    if q < i as int {
                        assert(v@[q] == v_old[q]);
                    }
                }
            }
            i = i + 1;
        }
        let r = HetBeliefs { beliefs: v };
        proof {
            assert(State::spec_beliefs(&r) =~= mutated_beliefs(
                State::spec_beliefs(self),
                actions@,
            ));
        }
        r
    }
}

/// Total discounted utility of player `i` over the first `t` periods, given
/// the per-period belief schedule: `sum_ti gamma^ti * u_i(belief_ti, a_ti)`.
pub open spec fn discounted_u_i(
    sched: Seq<Seq<PayoffM>>,
    gamma: int,
    i: int,
    s: StratM,
    t: nat,
) -> int
    decreases t,
{
    if t == 0 {
        0
    } else {
        fxadd(
            discounted_u_i(sched, gamma, i, s, (t - 1) as nat),
            fxm(
                spec_powi(gamma, (t - 1) as nat),
                sched[t - 1][i].u_i(s.action_at(t - 1), i),
            ),
        )
    }
}

/// Beliefs after `t` periods of replaying the mutation rule from `b0`.
pub open spec fn dyn_beliefs_at(b0: Seq<PayoffM>, s: StratM, t: nat) -> Seq<PayoffM>
    decreases t,
{
    if t == 0 {
        b0
    } else {
        mutated_beliefs(dyn_beliefs_at(b0, s, (t - 1) as nat), s.action_at(t - 1))
    }
}

/// The whole belief schedule of a dynamic state over `t` periods.
pub open spec fn dyn_schedule(b0: Seq<PayoffM>, s: StratM, t: nat) -> Seq<Seq<PayoffM>> {
    Seq::new(t, |ti: int| dyn_beliefs_at(b0, s, ti as nat))
}

/// Survival probability of player `i` entering period `t`: the running
/// product of "nobody won yet", under player `i`'s beliefs.
pub open spec fn ends_pi(b0: Seq<PayoffM>, s: StratM, i: int, t: nat) -> int
    decreases t,
{
    if t == 0 {
        SCALE as int
    } else {
        fxm(
            ends_pi(b0, s, i, (t - 1) as nat),
            fxsub(
                SCALE as int,
                dyn_beliefs_at(b0, s, (t - 1) as nat)[i].q_mass(s.action_at(t - 1)),
            ),
        )
    }
}

/// Discounted utility with stochastic termination: each period weighted by
/// the survival probability that the contest is still unresolved.
pub open spec fn ends_u_i(b0: Seq<PayoffM>, gamma: int, i: int, s: StratM, t: nat) -> int
    decreases t,
{
    if t == 0 {
        0
    } else {
        fxadd(
            ends_u_i(b0, gamma, i, s, (t - 1) as nat),
            fxm(
                fxm(ends_pi(b0, s, i, (t - 1) as nat), spec_powi(gamma, (t - 1) as nat)),
                dyn_beliefs_at(b0, s, (t - 1) as nat)[i].u_i(s.action_at(t - 1), i),
            ),
        )
    }
}

/// An aggregator: total discounted utility of a whole strategy profile.
pub trait PayoffAggregator: Sized {
    /// Internal invariant.
    spec fn wf(&self) -> bool;

    /// Player count.
    spec fn spec_n(&self) -> int;

    /// Whether a profile with `t` periods fits this aggregator.
    spec fn spec_compat(&self, t: int) -> bool;

    /// Total discounted utility of player `i`.
    spec fn spec_u_i(&self, i: int, s: StratM) -> int;

    /// A well-formed aggregator serves at least one player.
    proof fn lemma_n_pos(&self)
        requires
            self.wf(),
        ensures
            self.spec_n() >= 1,
    ;

    /// Player count.
    fn n(&self) -> (r: usize)
        requires
            self.wf(),
        ensures
            r as int == self.spec_n(),
    ;

    /// Whether a profile with `t` periods fits this aggregator.
    fn check_compat(&self, t: usize) -> (b: bool)
        requires
            self.wf(),
        ensures
            b == self.spec_compat(t as int),
    ;

    /// Total discounted utility of player `i`.
    fn u_i(&self, i: usize, strategies: &Strategies) -> (r: i64)
        requires
            self.wf(),
            strategies.wf(),
            strategies@.n == self.spec_n(),
            self.spec_compat(strategies@.t),
            i < self.spec_n(),
        ensures
            r as int == self.spec_u_i(i as int, strategies@),
    ;

    /// Total discounted utilities of all players; entry `i` equals `u_i(i)`.
    fn u(&self, strategies: &Strategies) -> (r: Vec<i64>)
        requires
            self.wf(),
            strategies.wf(),
            strategies@.n == self.spec_n(),
            self.spec_compat(strategies@.t),
        ensures
            r@.len() == self.spec_n(),
            forall|i: int|
                0 <= i < self.spec_n() ==> (#[trigger] r@[i]) as int == self.spec_u_i(
                    i,
                    strategies@,
                ),
    ;
}

/// One fixed state per period, and exponential discounting.
#[derive(Debug)]
pub struct FixedStateDiscounter<T: State> {
    pub states: Vec<T>,
    pub gammas: Vec<i64>,
}

impl<T: State> FixedStateDiscounter<T> {
    /// The per-period belief schedule.
    pub open spec fn spec_schedule(&self) -> Seq<Seq<PayoffM>> {
        self.states@.map_values(|st: T| st.spec_beliefs())
    }

    /// Build from one state per period and one discount factor per player;
    /// fails when the state list is empty or a state's player count differs
    /// from the discount vector's length.
    pub fn new(states: Vec<T>, gammas: Vec<i64>) -> (r: Result<
        FixedStateDiscounter<T>,
        ConfigError,
    >)
        requires
            forall|q: int| 0 <= q < states@.len() ==> (#[trigger] states@[q]).wf(),
        ensures
            r is Ok <==> (states@.len() >= 1 && (forall|q: int|
                0 <= q < states@.len() ==> (#[trigger] states@[q]).spec_n() == gammas@.len())),
            r is Ok ==> ({
                let f = r->Ok_0;
                &&& f.wf()
                &&& f.states@ == states@
                &&& f.gammas@ == gammas@
            }),
            states@.len() == 0 ==> r == Result::<FixedStateDiscounter<T>, ConfigError>::Err(
                ConfigError::EmptyList,
            ),
    {
        let m = states.len();
        if m == 0 {
            return Err(ConfigError::EmptyList);
        }
        let mut q: usize = 0;
        while q < m
            invariant
                0 <= q <= m,
                m == states@.len(),
                forall|p: int| 0 <= p < states@.len() ==> (#[trigger] states@[p]).wf(),
                forall|p: int| 0 <= p < q ==> (#[trigger] states@[p]).spec_n() == gammas@.len(),
            decreases m - q,
        {
            if states[q].n() != gammas.len() {
                return Err(ConfigError::GammaLength);
            }
            q = q + 1;
        }
        proof {
            let ghost st0 = states@[0];
            st0.lemma_beliefs_wf();
        }
        Ok(FixedStateDiscounter { states, gammas })
    }
}

impl<T: State> PayoffAggregator for FixedStateDiscounter<T> {
    /// At least one state; every state well formed with the shared player
    /// count given by the discount vector.
    open spec fn wf(&self) -> bool {
        &&& self.states@.len() >= 1
        &&& self.gammas@.len() >= 1
        &&& forall|q: int|
            0 <= q < self.states@.len() ==> (#[trigger] self.states@[q]).wf()
                && self.states@[q].spec_n() == self.gammas@.len()
    }

    open spec fn spec_n(&self) -> int {
        self.gammas@.len() as int
    }

    open spec fn spec_compat(&self, t: int) -> bool {
        self.states@.len() == t
    }

    open spec fn spec_u_i(&self, i: int, s: StratM) -> int {
        discounted_u_i(self.spec_schedule(), self.gammas@[i] as int, i, s, s.t as nat)
    }

    proof fn lemma_n_pos(&self) {
    }

    fn n(&self) -> (r: usize) {
        self.gammas.len()
    }

    fn check_compat(&self, t: usize) -> (b: bool) {
        self.states.len() == t
    }

    fn u_i(&self, i: usize, strategies: &Strategies) -> (r: i64) {
        let ghost sched = self.spec_schedule();
        let ghost gamma = self.gammas@[i as int] as int;
        let acts = strategies.to_actions();
        let t = strategies.t();
        let mut total: i64 = 0;
        let mut g: i64 = SCALE;
        let mut ti: usize = 0;
        while ti < t
            invariant
                0 <= ti <= t,
                t as int == strategies@.t,
                self.wf(),
                strategies.wf(),
                strategies@.n == self.spec_n(),
                self.spec_compat(strategies@.t),
                i < self.spec_n(),
                acts@.len() == strategies@.t,
                forall|q: int|
                    0 <= q < strategies@.t ==> (#[trigger] acts@[q])@ == strategies@.action_at(q)
                        && acts@[q].wf(),
                sched == self.spec_schedule(),
                gamma == self.gammas@[i as int] as int,
                total as int == discounted_u_i(sched, gamma, i as int, strategies@, ti as nat),
                g as int == spec_powi(gamma, ti as nat),
            decreases t - ti,
        {
            let st = &self.states[ti];
            proof {
                st.lemma_beliefs_wf();
            }
            let b = st.belief(i);
            let term = fx_mul(g, b.u_i(i, &acts[ti]));
            proof {
                assert(sched[ti as int] == st.spec_beliefs());
                assert(b@ == sched[ti as int][i as int]);
            }
            total = fx_add(total, term);
            g = fx_mul(g, self.gammas[i]);
            ti = ti + 1;
        }
        total
    }

    fn u(&self, strategies: &Strategies) -> (r: Vec<i64>) {
        let n = self.n();
        let mut out: Vec<i64> = Vec::new();
        let mut i: usize = 0;
        while i < n
            invariant
                0 <= i <= n,
                n as int == self.spec_n(),
                self.wf(),
                strategies.wf(),
                strategies@.n == self.spec_n(),
                self.spec_compat(strategies@.t),
                out@.len() == i,
                forall|q: int|
                    0 <= q < i ==> (#[trigger] out@[q]) as int == self.spec_u_i(q, strategies@),
            decreases n - i,
        {
            let ghost out_old = out@;
            let v = self.u_i(i, strategies);
            out.push(v);
            proof {
                assert forall|q: int| 0 <= q <= i as int implies (#[trigger] out@[q]) as int
                    == self.spec_u_i(q, strategies@) by {
                    if q < i as int {
                        assert(out@[q] == out_old[q]);
                    } else {
                        assert(out@[q] == v);
                    }
                }
            }
            i = i + 1;
        }
        out
    }
}

/// A single mutating state, replayed forward each evaluation, and
/// exponential discounting.
#[derive(Debug)]
pub struct DynStateDiscounter<T: State + MutatesOnAction> {
    pub state0: T,
    pub gammas: Vec<i64>,
}

impl<T: State + MutatesOnAction> DynStateDiscounter<T> {
    /// Build from the initial state and one discount factor per player;
    /// fails when the state's player count differs from the discount
    /// vector's length.
    pub fn new(state0: T, gammas: Vec<i64>) -> (r: Result<DynStateDiscounter<T>, ConfigError>)
        requires
            state0.wf(),
        ensures
            r is Ok <==> state0.spec_n() == gammas@.len(),
            r is Err ==> r->Err_0 == ConfigError::GammaLength,
            r is Ok ==> ({
                let d = r->Ok_0;
                &&& d.wf()
                &&& d.state0.spec_beliefs() == state0.spec_beliefs()
                &&& d.gammas@ == gammas@
            }),
    {
        if state0.n() != gammas.len() {
            return Err(ConfigError::GammaLength);
        }
        proof {
            state0.lemma_beliefs_wf();
        }
        Ok(DynStateDiscounter { state0, gammas })
    }
}

impl<T: State + MutatesOnAction> PayoffAggregator for DynStateDiscounter<T> {
    open spec fn wf(&self) -> bool {
        self.state0.wf() && self.state0.spec_n() == self.gammas@.len()
    }

    open spec fn spec_n(&self) -> int {
        self.gammas@.len() as int
    }

    open spec fn spec_compat(&self, t: int) -> bool {
        true
    }

    open spec fn spec_u_i(&self, i: int, s: StratM) -> int {
        discounted_u_i(
            dyn_schedule(self.state0.spec_beliefs(), s, s.t as nat),
            self.gammas@[i] as int,
            i,
            s,
            s.t as nat,
        )
    }

    proof fn lemma_n_pos(&self) {
        self.state0.lemma_beliefs_wf();
    }

    fn n(&self) -> (r: usize) {
        self.gammas.len()
    }

    fn check_compat(&self, t: usize) -> (b: bool) {
        true
    }

    fn u_i(&self, i: usize, strategies: &Strategies) -> (r: i64) {
        let ghost b0 = self.state0.spec_beliefs();
        let ghost sched = dyn_schedule(b0, strategies@, strategies@.t as nat);
        let ghost gamma = self.gammas@[i as int] as int;
        proof {
            self.state0.lemma_beliefs_wf();
        }
        let acts = strategies.to_actions();
        let t = strategies.t();
        let mut cur: T = self.state0.dup();
        let mut total: i64 = 0;
        let mut g: i64 = SCALE;
        let mut ti: usize = 0;
        while ti < t
            invariant
                0 <= ti <= t,
                t as int == strategies@.t,
                self.wf(),
                strategies.wf(),
                strategies@.n == self.spec_n(),
                i < self.spec_n(),
                acts@.len() == strategies@.t,
                forall|q: int|
                    0 <= q < strategies@.t ==> (#[trigger] acts@[q])@ == strategies@.action_at(q)
                        && acts@[q].wf(),
                b0 == self.state0.spec_beliefs(),
                sched == dyn_schedule(b0, strategies@, strategies@.t as nat),
                gamma == self.gammas@[i as int] as int,
                ti < t ==> (cur.wf() && cur.spec_n() == self.spec_n() && cur.spec_beliefs()
                    == dyn_beliefs_at(b0, strategies@, ti as nat)),
                total as int == discounted_u_i(sched, gamma, i as int, strategies@, ti as nat),
                g as int == spec_powi(gamma, ti as nat),
            decreases t - ti,
        {
            proof {
                cur.lemma_beliefs_wf();
                assert(sched[ti as int] == dyn_beliefs_at(b0, strategies@, ti as nat));
            }
            let b = cur.belief(i);
            let term = fx_mul(g, b.u_i(i, &acts[ti]));
            total = fx_add(total, term);
            g = fx_mul(g, self.gammas[i]);
            if ti + 1 < t {
                cur = cur.mutate_on_action(&acts[ti]);
            }
            ti = ti + 1;
        }
        total
    }

    fn u(&self, strategies: &Strategies) -> (r: Vec<i64>) {
        let n = self.n();
        let mut out: Vec<i64> = Vec::new();
        let mut i: usize = 0;
        while i < n
            invariant
                0 <= i <= n,
                n as int == self.spec_n(),
                self.wf(),
                strategies.wf(),
                strategies@.n == self.spec_n(),
                self.spec_compat(strategies@.t),
                out@.len() == i,
                forall|q: int|
                    0 <= q < i ==> (#[trigger] out@[q]) as int == self.spec_u_i(q, strategies@),
            decreases n - i,
        {
            let ghost out_old = out@;
            let v = self.u_i(i, strategies);
            out.push(v);
            proof {
                assert forall|q: int| 0 <= q <= i as int implies (#[trigger] out@[q]) as int
                    == self.spec_u_i(q, strategies@) by {
                    if q < i as int {
                        assert(out@[q] == out_old[q]);
                    } else {
                        assert(out@[q] == v);
                    }
                }
            }
            i = i + 1;
        }
        out
    }
}

/// Decorator over a dynamic discounter: the game ends for discounting
/// purposes once some player wins the contest, so each period's contribution
/// is weighted by the survival probability that no one has won yet.
#[derive(Debug)]
pub struct EndsOnContestWin<T: State + MutatesOnAction> {
    pub child: DynStateDiscounter<T>,
}

impl<T: State + MutatesOnAction> EndsOnContestWin<T> {
    /// Wrap a dynamic discounter.
    pub fn new(child: DynStateDiscounter<T>) -> (r: EndsOnContestWin<T>)
        requires
            child.wf(),
        ensures
            r.wf(),
            r.child.state0.spec_beliefs() == child.state0.spec_beliefs(),
            r.child.gammas@ == child.gammas@,
    {
        EndsOnContestWin { child }
    }
}

impl<T: State + MutatesOnAction> PayoffAggregator for EndsOnContestWin<T> {
    open spec fn wf(&self) -> bool {
        self.child.wf()
    }

    open spec fn spec_n(&self) -> int {
        self.child.spec_n()
    }

    open spec fn spec_compat(&self, t: int) -> bool {
        true
    }

    open spec fn spec_u_i(&self, i: int, s: StratM) -> int {
        ends_u_i(
            self.child.state0.spec_beliefs(),
            self.child.gammas@[i] as int,
            i,
            s,
            s.t as nat,
        )
    }

    proof fn lemma_n_pos(&self) {
        self.child.state0.lemma_beliefs_wf();
    }

    fn n(&self) -> (r: usize) {
        self.child.gammas.len()
    }

    fn check_compat(&self, t: usize) -> (b: bool) {
        true
    }

    fn u_i(&self, i: usize, strategies: &Strategies) -> (r: i64) {
        let ghost b0 = self.child.state0.spec_beliefs();
        let ghost gamma = self.child.gammas@[i as int] as int;
        proof {
            self.child.state0.lemma_beliefs_wf();
        }
        let acts = strategies.to_actions();
        let t = strategies.t();
        let mut cur: T = self.child.state0.dup();
        let mut total: i64 = 0;
        let mut g: i64 = SCALE;
        let mut pi: i64 = SCALE;
        let mut ti: usize = 0;
        while ti < t
            invariant
                0 <= ti <= t,
                t as int == strategies@.t,
                self.wf(),
                strategies.wf(),
                strategies@.n == self.spec_n(),
                i < self.spec_n(),
                acts@.len() == strategies@.t,
                forall|q: int|
                    0 <= q < strategies@.t ==> (#[trigger] acts@[q])@ == strategies@.action_at(q)
                        && acts@[q].wf(),
                b0 == self.child.state0.spec_beliefs(),
                gamma == self.child.gammas@[i as int] as int,
                ti < t ==> (cur.wf() && cur.spec_n() == self.spec_n() && cur.spec_beliefs()
                    == dyn_beliefs_at(b0, strategies@, ti as nat)),
                total as int == ends_u_i(b0, gamma, i as int, strategies@, ti as nat),
                g as int == spec_powi(gamma, ti as nat),
                pi as int == ends_pi(b0, strategies@, i as int, ti as nat),
            decreases t - ti,
        {
            proof {
                cur.lemma_beliefs_wf();
            }
            let b = cur.belief(i);
            let term = fx_mul(fx_mul(pi, g), b.u_i(i, &acts[ti]));
            total = fx_add(total, term);
            g = fx_mul(g, self.child.gammas[i]);
            let mass = b.contest_mass(&acts[ti]);
            pi = fx_mul(pi, fx_sub(SCALE, mass));
            if ti + 1 < t {
                cur = cur.mutate_on_action(&acts[ti]);
            }
            ti = ti + 1;
        }
        total
    }

    fn u(&self, strategies: &Strategies) -> (r: Vec<i64>) {
        let n = self.n();
        let mut out: Vec<i64> = Vec::new();
        let mut i: usize = 0;
        while i < n
            invariant
                0 <= i <= n,
                n as int == self.spec_n(),
                self.wf(),
                strategies.wf(),
                strategies@.n == self.spec_n(),
                self.spec_compat(strategies@.t),
                out@.len() == i,
                forall|q: int|
                    0 <= q < i ==> (#[trigger] out@[q]) as int == self.spec_u_i(q, strategies@),
            decreases n - i,
        {
            let ghost out_old = out@;
            let v = self.u_i(i, strategies);
            out.push(v);
            proof {
                assert forall|q: int| 0 <= q <= i as int implies (#[trigger] out@[q]) as int
                    == self.spec_u_i(q, strategies@) by {
                    if q < i as int {
                        assert(out@[q] == out_old[q]);
                    } else {
                        assert(out@[q] == v);
                    }
                }
            }
            i = i + 1;
        }
        out
    }
}

/// Discounting correctness for one period: with a single period the total
/// discounted utility is exactly the single-period payoff (`gamma^0 == 1`).
pub proof fn lemma_one_period_discounting(
    sched: Seq<Seq<PayoffM>>,
    gamma: int,
    i: int,
    s: StratM,
)
    requires
        s.t == 1,
    ensures
        discounted_u_i(sched, gamma, i, s, 1) == sched[0][i].u_i(s.action_at(0), i),
{
    let u = sched[0][i].u_i(s.action_at(0), i);
    assert(discounted_u_i(sched, gamma, i, s, 0) == 0);
    assert(crate::fixed::FX_MIN as int <= u <= crate::fixed::FX_MAX as int);
    assert(spec_powi(gamma, 0) == SCALE as int);
    assert(fxm(SCALE as int, u) == u) by {
        crate::fixed::lemma_abs_mul(SCALE as int, u);
        crate::fixed::lemma_mul_sign(SCALE as int, u);
        vstd::arithmetic::mul::lemma_mul_is_commutative(SCALE as int, u);
        crate::fixed::lemma_abs_mul(u, SCALE as int);
        vstd::arithmetic::mul::lemma_mul_nonnegative(crate::fixed::sabs(u), SCALE as int);
        assert(crate::fixed::sabs(u) * (SCALE as int) / (SCALE as int) == crate::fixed::sabs(u))
            by {
            vstd::arithmetic::div_mod::lemma_div_by_multiple(crate::fixed::sabs(u), SCALE as int);
            vstd::arithmetic::mul::lemma_mul_is_commutative(crate::fixed::sabs(u), SCALE as int);
        }
    }
}

/// Mutating-state correctness over two periods: the period-one beliefs carry
/// production coefficients grown exactly by the period-zero investments, and
/// the two-period discounted utility is the sum of the period-zero payoff
/// and the discounted payoff of the mutated belief.
pub proof fn lemma_two_period_mutating(b0: Seq<PayoffM>, gamma: int, i: int, s: StratM)
    requires
        s.t == 2,
        0 <= i < b0.len(),
    ensures
        dyn_beliefs_at(b0, s, 1) == mutated_beliefs(b0, s.action_at(0)),
        forall|j: int|
            0 <= j < b0[i].prod.a.len() ==> #[trigger] dyn_beliefs_at(b0, s, 1)[i].prod.a[j]
                == fxadd(b0[i].prod.a[j], s.action_at(0).inv_s(j)),
        forall|j: int|
            0 <= j < b0[i].prod.b.len() ==> #[trigger] dyn_beliefs_at(b0, s, 1)[i].prod.b[j]
                == fxadd(b0[i].prod.b[j], s.action_at(0).inv_p(j)),
        discounted_u_i(dyn_schedule(b0, s, 2), gamma, i, s, 2) == fxadd(
            b0[i].u_i(s.action_at(0), i),
            fxm(
                spec_powi(gamma, 1),
                mutated_beliefs(b0, s.action_at(0))[i].u_i(s.action_at(1), i),
            ),
        ),
{
    let sched = dyn_schedule(b0, s, 2);
    assert(sched[0] == dyn_beliefs_at(b0, s, 0));
    assert(sched[1] == dyn_beliefs_at(b0, s, 1));
    let u0 = b0[i].u_i(s.action_at(0), i);
    assert(discounted_u_i(sched, gamma, i, s, 0) == 0);
    assert(crate::fixed::FX_MIN as int <= u0 <= crate::fixed::FX_MAX as int);
    assert(spec_powi(gamma, 0) == SCALE as int);
    assert(fxm(SCALE as int, u0) == u0) by {
        crate::fixed::lemma_abs_mul(SCALE as int, u0);
        crate::fixed::lemma_mul_sign(SCALE as int, u0);
        vstd::arithmetic::mul::lemma_mul_is_commutative(SCALE as int, u0);
        vstd::arithmetic::mul::lemma_mul_nonnegative(crate::fixed::sabs(u0), SCALE as int);
        assert(crate::fixed::sabs(u0) * (SCALE as int) / (SCALE as int) == crate::fixed::sabs(u0))
            by {
            vstd::arithmetic::div_mod::lemma_div_by_multiple(
                crate::fixed::sabs(u0),
                SCALE as int,
            );
            vstd::arithmetic::mul::lemma_mul_is_commutative(crate::fixed::sabs(u0), SCALE as int);
        }
    }
    assert(discounted_u_i(sched, gamma, i, s, 1) == fxadd(0, fxm(spec_powi(gamma, 0), u0)));
    assert(fxadd(0, u0) == u0);
}

impl<T: State + MutatesOnAction> EndsOnContestWin<T> {
    /// The survival-probability table: entry `(ti, i)` (row-major over `t`
    /// periods and `n` players) is the probability, under player `i`'s
    /// beliefs, that no player has yet won the contest when period `ti`
    /// begins.
    pub fn probas(&self, strategies: &Strategies) -> (r: Vec<i64>)
        requires
            self.wf(),
            strategies.wf(),
            strategies@.n == self.spec_n(),
        ensures
            r@.len() == strategies@.t * self.spec_n(),
            forall|q: int|
                0 <= q < r@.len() ==> (#[trigger] r@[q]) as int == ends_pi(
                    self.child.state0.spec_beliefs(),
                    strategies@,
                    q % self.spec_n(),
                    (q / self.spec_n()) as nat,
                ),
    {
        let ghost b0 = self.child.state0.spec_beliefs();
        let ghost nn = self.spec_n();
        proof {
            self.child.state0.lemma_beliefs_wf();
        }
        let acts = strategies.to_actions();
        let t = strategies.t();
        let n = self.child.gammas.len();
        let mut cur: T = self.child.state0.dup();
        let mut pis: Vec<i64> = Vec::new();
        let mut i0: usize = 0;
        while i0 < n
            invariant
                0 <= i0 <= n,
                pis@.len() == i0,
                forall|q: int| 0 <= q < i0 ==> #[trigger] pis@[q] == SCALE,
            decreases n - i0,
        {
            pis.push(SCALE);
            i0 = i0 + 1;
        }
        let mut out: Vec<i64> = Vec::new();
        let mut ti: usize = 0;
        proof {
            vstd::arithmetic::mul::lemma_mul_upper_bound(
                strategies@.t,
                0xFFFFFFFFFFFFFFFF,
                nn,
                0xFFFFFFFFFFFFFFFF,
            );
        }
        while ti < t
            invariant
                0 <= ti <= t,
                t as int == strategies@.t,
                n as int == nn,
                nn == self.spec_n(),
                self.wf(),
                strategies.wf(),
                strategies@.n == self.spec_n(),
                acts@.len() == strategies@.t,
                forall|q: int|
                    0 <= q < strategies@.t ==> (#[trigger] acts@[q])@ == strategies@.action_at(q)
                        && acts@[q].wf(),
                b0 == self.child.state0.spec_beliefs(),
                pis@.len() == n,
                forall|q: int|
                    0 <= q < n ==> (#[trigger] pis@[q]) as int == ends_pi(
                        b0,
                        strategies@,
                        q,
                        ti as nat,
                    ),
                ti < t ==> (cur.wf() && cur.spec_n() == self.spec_n() && cur.spec_beliefs()
                    == dyn_beliefs_at(b0, strategies@, ti as nat)),
                out@.len() == ti * nn,
                out@.len() <= t * nn,
                forall|q: int|
                    0 <= q < out@.len() ==> (#[trigger] out@[q]) as int == ends_pi(
                        b0,
                        strategies@,
                        q % nn,
                        (q / nn) as nat,
                    ),
            decreases t - ti,
        {
            proof {
                cur.lemma_beliefs_wf();
                vstd::arithmetic::mul::lemma_mul_nonnegative(ti as int, nn);
                vstd::arithmetic::mul::lemma_mul_inequality(ti as int + 1, t as int, nn);
                vstd::arithmetic::mul::lemma_mul_is_distributive_add_other_way(nn, ti as int, 1);
                vstd::arithmetic::mul::lemma_mul_basics(nn);
            }
            let mut ii: usize = 0;
            while ii < n
                invariant
                    0 <= ii <= n,
                    n as int == nn,
                    pis@.len() == n,
                    0 <= ti,
                    (ti as int) * nn + nn <= t as int * nn,
                    forall|q: int|
                        0 <= q < n ==> (#[trigger] pis@[q]) as int == ends_pi(
                            b0,
                            strategies@,
                            q,
                            ti as nat,
                        ),
                    out@.len() == ti * nn + ii,
                    forall|q: int|
                        0 <= q < out@.len() ==> (#[trigger] out@[q]) as int == ends_pi(
                            b0,
                            strategies@,
                            q % nn,
                            (q / nn) as nat,
                        ),
                decreases n - ii,
            {
                let ghost out_old = out@;
                out.push(pis[ii]);
                proof {
                    let q0 = (ti as int) * nn + ii as int;
                    vstd::arithmetic::div_mod::lemma_fundamental_div_mod_converse(
                        q0,
                        nn,
                        ti as int,
                        ii as int,
                    );
                    assert forall|q: int| 0 <= q < out@.len() implies (#[trigger] out@[q]) as int
                        == ends_pi(b0, strategies@, q % nn, (q / nn) as nat) by {
                        if q < q0 {
                            assert(out@[q] == out_old[q]);
                        } else {
                            assert(out@[q] == pis@[ii as int]);
                        }
                    }
                }
                ii = ii + 1;
            }
            let mut npis: Vec<i64> = Vec::new();
            let mut jj: usize = 0;
            while jj < n
                    invariant
                        0 <= jj <= n,
                        n as int == nn,
                        nn == self.spec_n(),
                        self.wf(),
                        strategies.wf(),
                        strategies@.n == self.spec_n(),
                        0 <= ti < t,
                        t as int == strategies@.t,
                        acts@.len() == strategies@.t,
                        forall|q: int|
                            0 <= q < strategies@.t ==> (#[trigger] acts@[q])@
                                == strategies@.action_at(q) && acts@[q].wf(),
                        b0 == self.child.state0.spec_beliefs(),
                        cur.wf(),
                        cur.spec_n() == self.spec_n(),
                        cur.spec_beliefs() == dyn_beliefs_at(b0, strategies@, ti as nat),
                        pis@.len() == n,
                        forall|q: int|
                            0 <= q < n ==> (#[trigger] pis@[q]) as int == ends_pi(
                                b0,
                                strategies@,
                                q,
                                ti as nat,
                            ),
                        npis@.len() == jj,
                        forall|q: int|
                            0 <= q < jj ==> (#[trigger] npis@[q]) as int == ends_pi(
                                b0,
                                strategies@,
                                q,
                                (ti + 1) as nat,
                            ),
                    decreases n - jj,
                {
                    let ghost npis_old = npis@;
                    proof {
                        cur.lemma_beliefs_wf();
                    }
                    let b = cur.belief(jj);
                    let mass = b.contest_mass(&acts[ti]);
                    let v = fx_mul(pis[jj], fx_sub(SCALE, mass));
                    npis.push(v);
                    proof {
                        assert forall|q: int| 0 <= q <= jj as int implies (#[trigger] npis@[q])
                            as int == ends_pi(b0, strategies@, q, (ti + 1) as nat) by {
                            if q < jj as int {
                                assert(npis@[q] == npis_old[q]);
                            } else {
                                assert(npis@[q] == v);
                            }
                        }
                    }
                    jj = jj + 1;
                }
            pis = npis;
            if ti + 1 < t {
                cur = cur.mutate_on_action(&acts[ti]);
            }
            proof {
                vstd::arithmetic::mul::lemma_mul_is_distributive_add_other_way(nn, ti as int, 1);
                vstd::arithmetic::mul::lemma_mul_basics(nn);
            }
            ti = ti + 1;
        }
        proof {
            vstd::arithmetic::mul::lemma_mul_is_commutative(t as int, nn);
        }
        out
    }
}

/// A fixed-state aggregator over basic actions: the classic exponential
/// discounter.
pub type ExponentialDiscounter<T> = FixedStateDiscounter<T>;

/// A dynamic-state aggregator whose state grows from realized investment.
pub type InvestExpDiscounter<T> = DynStateDiscounter<T>;

impl<T: State> FixedStateDiscounter<T> {
    /// The per-player discount factors.
    pub fn gammas(&self) -> (r: &Vec<i64>)
        ensures
            r == &self.gammas,
    {
        &self.gammas
    }
}

impl<T: State + MutatesOnAction> DynStateDiscounter<T> {
    /// The per-player discount factors.
    pub fn gammas(&self) -> (r: &Vec<i64>)
        ensures
            r == &self.gammas,
    {
        &self.gammas
    }
}

} // verus!
