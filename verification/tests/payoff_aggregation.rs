//! Payoff composition and discounted aggregation.

use dynapai::cost_func::{CostFn, FixedInvestCost, FixedUnitCost};
use dynapai::csf::{Csf, DefaultCSF, MaybeNoWinCSF};
use dynapai::disaster_cost::ConstantDisasterCost;
use dynapai::errors::ConfigError;
use dynapai::fixed::{fx_add, fx_mul, SCALE};
use dynapai::payoff_func::DefaultPayoff;
use dynapai::prod_func::DefaultProd;
use dynapai::reward_func::LinearReward;
use dynapai::risk_func::WinnerOnlyRisk;
use dynapai::states::{
    DynStateDiscounter, EndsOnContestWin, FixedStateDiscounter, HetBeliefs, MutatesOnAction,
    PayoffAggregator, State,
};
use dynapai::strategies::{Actions, Strategies};

/// The worked example: two symmetric players with power-of-two parameters so
/// every intermediate value is exact.
fn example_payoff() -> DefaultPayoff {
    DefaultPayoff::new(
        DefaultProd::new(
            vec![SCALE, SCALE],
            vec![SCALE / 2, SCALE / 2],
            vec![2 * SCALE, 2 * SCALE],
            vec![SCALE / 2, SCALE / 2],
        )
        .unwrap(),
        WinnerOnlyRisk::new(2, SCALE),
        Csf::Default(DefaultCSF),
        LinearReward::default(2),
        ConstantDisasterCost { d: vec![SCALE, SCALE] },
        CostFn::Unit(FixedUnitCost::from_elem(2, 1677722)),
    )
    .unwrap()
}

fn example_actions() -> Actions {
    Actions::from_inputs(vec![4 * SCALE, 4 * SCALE], vec![4 * SCALE, 4 * SCALE]).unwrap()
}

#[test]
fn payoff_exact_value() {
    let pf = example_payoff();
    let a = example_actions();
    // sigma = 1/3 (truncated), q = 1/2, rewards (1, 0) for player 0:
    // u_0 = sigma*q*1 - (1 - 2*sigma*q) * 1 - 0.1 * 8 = -21810386 fixed.
    assert_eq!(pf.u_i(0, &a), -21810386);
}

#[test]
fn payoff_scalar_vector_consistency() {
    // u_i(i, a) equals the i-th entry of u(a), for every player.
    let pf = example_payoff();
    let a = example_actions();
    let all = pf.u(&a);
    assert_eq!(all.len(), 2);
    for i in 0..2 {
        assert_eq!(all[i], pf.u_i(i, &a));
    }
}

#[test]
fn payoff_validation() {
    let bad = DefaultPayoff::new(
        DefaultProd::new(vec![SCALE], vec![SCALE], vec![SCALE], vec![SCALE]).unwrap(),
        WinnerOnlyRisk::new(2, SCALE),
        Csf::Default(DefaultCSF),
        LinearReward::default(1),
        ConstantDisasterCost { d: vec![SCALE] },
        CostFn::Unit(FixedUnitCost::from_elem(1, 0)),
    );
    assert_eq!(bad.unwrap_err(), ConfigError::LengthMismatch);
}

#[test]
fn het_beliefs_lookup() {
    let pf = example_payoff();
    let other = example_payoff();
    let het = HetBeliefs::new(vec![pf, other]).unwrap();
    assert_eq!(State::n(&het), 2);
    let a = example_actions();
    assert_eq!(het.belief(0).u_i(0, &a), -21810386);
    assert_eq!(
        HetBeliefs::new(vec![]).unwrap_err(),
        ConfigError::EmptyList
    );
    assert_eq!(
        HetBeliefs::new(vec![example_payoff()]).unwrap_err(),
        ConfigError::PlayerCountMismatch
    );
}

#[test]
fn one_period_discounting_is_payoff() {
    // With a single period, gamma^0 = 1: aggregate utility equals the
    // single-period payoff exactly.
    let pf = example_payoff();
    let a = example_actions();
    let u_direct = pf.u_i(0, &a);
    let agg =
        FixedStateDiscounter::new(vec![example_payoff()], vec![SCALE / 2, SCALE / 2]).unwrap();
    let strat = Strategies::from_actions(&vec![a]).unwrap();
    assert_eq!(agg.u_i(0, &strat), u_direct);
    assert_eq!(agg.n(), 2);
    assert_eq!(agg.u(&strat)[0], u_direct);
}

#[test]
fn fixed_state_discounting_two_periods() {
    // U_i = u + gamma * u for two identical periods.
    let g = SCALE / 2;
    let agg = FixedStateDiscounter::new(
        vec![example_payoff(), example_payoff()],
        vec![g, g],
    )
    .unwrap();
    let a = example_actions();
    let u = example_payoff().u_i(0, &a);
    let strat = Strategies::from_actions(&vec![a.dup(), a]).unwrap();
    assert_eq!(agg.u_i(0, &strat), fx_add(u, fx_mul(g, u)));
}

#[test]
fn fixed_state_validation() {
    let r = FixedStateDiscounter::new(vec![example_payoff()], vec![SCALE]);
    assert_eq!(r.unwrap_err(), ConfigError::GammaLength);
    let r2: Result<FixedStateDiscounter<DefaultPayoff>, _> =
        FixedStateDiscounter::new(vec![], vec![SCALE, SCALE]);
    assert_eq!(r2.unwrap_err(), ConfigError::EmptyList);
}

fn invest_payoff() -> DefaultPayoff {
    DefaultPayoff::new(
        DefaultProd::new(
            vec![SCALE, SCALE],
            vec![SCALE / 2, SCALE / 2],
            vec![2 * SCALE, 2 * SCALE],
            vec![SCALE / 2, SCALE / 2],
        )
        .unwrap(),
        WinnerOnlyRisk::new(2, SCALE),
        Csf::Default(DefaultCSF),
        LinearReward::default(2),
        ConstantDisasterCost { d: vec![SCALE, SCALE] },
        CostFn::Invest(FixedInvestCost::from_elems(2, 1677722, 838861)),
    )
    .unwrap()
}

#[test]
fn mutating_state_two_periods() {
    // For a 2-period invest profile, the period-1 production parameters are
    // a + inv_s and b + inv_p, and the aggregate utility is the manual sum
    // of the discounted per-period utilities against that mutated state.
    let g = SCALE / 2;
    let pf = invest_payoff();
    let a0 = Actions::from_invest_inputs(
        vec![4 * SCALE, 4 * SCALE],
        vec![4 * SCALE, 4 * SCALE],
        vec![3 * SCALE, 3 * SCALE],
        vec![5 * SCALE, 5 * SCALE],
    )
    .unwrap();
    let a1 = Actions::from_invest_inputs(
        vec![SCALE, SCALE],
        vec![SCALE, SCALE],
        vec![0, 0],
        vec![0, 0],
    )
    .unwrap();
    let mutated = MutatesOnAction::mutate_on_action(&pf, &a0);
    assert_eq!(mutated.prod_func.a, vec![4 * SCALE, 4 * SCALE]);
    assert_eq!(mutated.prod_func.b, vec![7 * SCALE, 7 * SCALE]);

    let manual = fx_add(pf.u_i(0, &a0), fx_mul(g, mutated.u_i(0, &a1)));
    let agg = DynStateDiscounter::new(invest_payoff(), vec![g, g]).unwrap();
    let strat = Strategies::from_actions(&vec![a0, a1]).unwrap();
    assert_eq!(agg.u_i(0, &strat), manual);
}

#[test]
fn ends_on_contest_win_weighting() {
    let g = SCALE / 2;
    let pf = invest_payoff();
    let child = DynStateDiscounter::new(invest_payoff(), vec![g, g]).unwrap();
    let agg = EndsOnContestWin::new(child);
    let a0 = Actions::from_invest_inputs(
        vec![4 * SCALE, 4 * SCALE],
        vec![4 * SCALE, 4 * SCALE],
        vec![0, 0],
        vec![0, 0],
    )
    .unwrap();
    let strat = Strategies::from_actions(&vec![a0.dup(), a0.dup()]).unwrap();
    // Survival entering period 0 is one for both players.
    let probas = agg.probas(&strat);
    assert_eq!(probas.len(), 4);
    assert_eq!(&probas[0..2], &[SCALE, SCALE]);
    // After period 0 the contest resolves with total share q = 1, so the
    // period-1 survival is zero and the weighted utility is just period 0.
    assert_eq!(&probas[2..4], &[0, 0]);
    assert_eq!(agg.u_i(0, &strat), pf.u_i(0, &a0));
}

#[test]
fn ends_on_contest_win_partial_survival() {
    // With the no-win CSF the contest may stay unresolved, so survival decays
    // strictly between zero and one period over period.
    let g = SCALE / 2;
    let pf = DefaultPayoff::new(
        DefaultProd::new(
            vec![SCALE, SCALE],
            vec![SCALE / 2, SCALE / 2],
            vec![2 * SCALE, 2 * SCALE],
            vec![SCALE / 2, SCALE / 2],
        )
        .unwrap(),
        WinnerOnlyRisk::new(2, SCALE),
        Csf::MaybeNoWin(MaybeNoWinCSF::new(SCALE)),
        LinearReward::default(2),
        ConstantDisasterCost { d: vec![SCALE, SCALE] },
        CostFn::Invest(FixedInvestCost::from_elems(2, 1677722, 838861)),
    )
    .unwrap();
    let child = DynStateDiscounter::new(pf, vec![g, g]).unwrap();
    let agg = EndsOnContestWin::new(child);
    let a = Actions::from_invest_inputs(
        vec![4 * SCALE, 4 * SCALE],
        vec![4 * SCALE, 4 * SCALE],
        vec![0, 0],
        vec![0, 0],
    )
    .unwrap();
    let strat = Strategies::from_actions(&vec![a.dup(), a.dup(), a]).unwrap();
    let probas = agg.probas(&strat);
    assert_eq!(probas.len(), 6);
    assert_eq!(&probas[0..2], &[SCALE, SCALE]);
    // Strictly decreasing but never reaching zero: shares sum below one.
    assert!(0 < probas[2] && probas[2] < SCALE);
    assert!(0 < probas[4] && probas[4] < probas[2]);
}
