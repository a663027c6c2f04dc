//! The best-response solver and the scenario runner.

use dynapai::cost_func::{CostFn, FixedInvestCost, FixedUnitCost};
use dynapai::csf::{Csf, DefaultCSF};
use dynapai::disaster_cost::ConstantDisasterCost;
use dynapai::errors::{ConfigError, SolveError};
use dynapai::fixed::SCALE;
use dynapai::payoff_func::DefaultPayoff;
use dynapai::prod_func::DefaultProd;
use dynapai::reward_func::LinearReward;
use dynapai::risk_func::WinnerOnlyRisk;
use dynapai::scenarios::Scenario;
use dynapai::solve::{solve, within_tol, InitGuess, NMOptions, SolverOptions};
use dynapai::states::{DynStateDiscounter, FixedStateDiscounter, PayoffAggregator};
use dynapai::strategies::{ActionKind, Strategies};

/// A payoff in the shape of the reference scenario: Cobb-Douglas production
/// with a = b = 10, alpha = beta = 1/2, risk exponent 1/2, winner-takes-one
/// reward, unit disaster cost, action cost 0.1.
fn reference_payoff(n: usize) -> DefaultPayoff {
    DefaultPayoff::new(
        DefaultProd::new(
            vec![10 * SCALE; n],
            vec![SCALE / 2; n],
            vec![10 * SCALE; n],
            vec![SCALE / 2; n],
        )
        .unwrap(),
        WinnerOnlyRisk::new(n, SCALE / 2),
        Csf::Default(DefaultCSF),
        LinearReward::default(n),
        ConstantDisasterCost { d: vec![SCALE; n] },
        CostFn::Unit(FixedUnitCost::from_elem(n, 1677722)),
    )
    .unwrap()
}

fn reference_aggregator(t: usize) -> FixedStateDiscounter<DefaultPayoff> {
    let states: Vec<DefaultPayoff> = (0..t).map(|_| reference_payoff(2)).collect();
    FixedStateDiscounter::new(states, vec![15099494, 13421773]).unwrap()
}

/// Deliberately loose tolerances (about 1e-3 and 1e-4) so the budgeted runs
/// in these tests finish quickly; the defaults are tighter.
fn small_options(guess: Strategies, outer: u64, inner: u64) -> SolverOptions {
    SolverOptions {
        init_guess: InitGuess::Fixed(guess),
        max_iters: outer,
        tol: 16777,
        nm_options: NMOptions { init_simplex_size: 1677722, max_iters: inner, tol: 1678 },
    }
}

#[test]
fn reference_scenario_runs() {
    // N = 2 players, basic actions, T = 10 periods, discounts 0.9 and 0.8:
    // the solver terminates within its budget and returns a (10, 2, 2)
    // profile with strictly positive entries.
    let agg = reference_aggregator(10);
    let guess = Strategies::from_data(ActionKind::Basic, 10, 2, vec![SCALE / 2; 40]).unwrap();
    let result = solve(&agg, &small_options(guess, 2, 25)).unwrap();
    assert_eq!(result.t(), 10);
    assert_eq!(result.n(), 2);
    assert_eq!(result.nparams(), 2);
    assert_eq!(result.data().len(), 40);
    for &v in result.data().iter() {
        assert!(v >= 1);
    }
}

#[test]
fn solver_shape_and_guess_errors() {
    let agg = reference_aggregator(3);
    // Wrong period count for a fixed-state aggregator.
    let wrong_t = Strategies::from_data(ActionKind::Basic, 2, 2, vec![SCALE; 8]).unwrap();
    assert_eq!(
        solve(&agg, &small_options(wrong_t, 5, 5)).unwrap_err(),
        SolveError::Shape
    );
    // Wrong player count.
    let wrong_n = Strategies::from_data(ActionKind::Basic, 3, 3, vec![SCALE; 18]).unwrap();
    assert_eq!(
        solve(&agg, &small_options(wrong_n, 5, 5)).unwrap_err(),
        SolveError::Shape
    );
    // A non-positive entry defeats the log transform.
    let non_pos = Strategies::from_data(ActionKind::Basic, 3, 2, vec![0; 12]).unwrap();
    assert_eq!(
        solve(&agg, &small_options(non_pos, 5, 5)).unwrap_err(),
        SolveError::NonPositiveGuess
    );
    assert!(SolveError::Shape.describe().len() > 0);
}

#[test]
fn solver_deterministic_for_fixed_guess() {
    let agg = reference_aggregator(2);
    let guess = Strategies::from_data(ActionKind::Basic, 2, 2, vec![SCALE / 2; 8]).unwrap();
    let r1 = solve(&agg, &small_options(guess.dup(), 2, 15)).unwrap();
    let r2 = solve(&agg, &small_options(guess, 2, 15)).unwrap();
    assert_eq!(r1.data(), r2.data());
}

#[test]
fn solver_random_init() {
    let agg = reference_aggregator(2);
    let opts = SolverOptions {
        init_guess: InitGuess::Random(2, ActionKind::Basic),
        max_iters: 1,
        tol: 16777,
        nm_options: NMOptions { init_simplex_size: 1677722, max_iters: 10, tol: 1678 },
    };
    let r = solve(&agg, &opts).unwrap();
    assert_eq!(r.t(), 2);
    assert_eq!(r.n(), 2);
    for &v in r.data().iter() {
        assert!(v >= 1);
    }
}

#[test]
fn converged_profile_is_stable() {
    // Idempotence at a fixed point: one extra outer iteration started from a
    // converged profile moves no entry beyond tolerance.
    let agg = reference_aggregator(1);
    let guess = Strategies::from_data(ActionKind::Basic, 1, 2, vec![SCALE; 4]).unwrap();
    let converged = solve(&agg, &small_options(guess, 40, 120)).unwrap();
    let once_more = solve(&agg, &small_options(converged.dup(), 1, 120)).unwrap();
    assert!(within_tol(&once_more, &converged, 16777));
}

#[test]
fn scenario_identical_aggregators() {
    // Two identical aggregators with identical fixed guesses return two
    // numerically identical profiles.
    let scenario =
        Scenario::new(vec![reference_aggregator(2), reference_aggregator(2)]).unwrap();
    assert_eq!(scenario.n(), 2);
    assert_eq!(scenario.aggs().len(), 2);
    let guess = Strategies::from_data(ActionKind::Basic, 2, 2, vec![SCALE / 2; 8]).unwrap();
    let results = scenario.solve(&small_options(guess, 2, 15)).unwrap();
    assert_eq!(results.len(), 2);
    assert_eq!(results[0].data(), results[1].data());
}

#[test]
fn scenario_validation_and_failure() {
    let empty: Result<Scenario<FixedStateDiscounter<DefaultPayoff>>, _> = Scenario::new(vec![]);
    assert_eq!(empty.unwrap_err(), ConfigError::EmptyList);

    let one_player = FixedStateDiscounter::new(
        vec![reference_payoff(1), reference_payoff(1)],
        vec![15099494],
    )
    .unwrap();
    let two_player = reference_aggregator(2);
    assert_eq!(
        Scenario::new(vec![two_player, one_player]).unwrap_err(),
        ConfigError::PlayerCountMismatch
    );

    // A bad guess fails the whole batch.
    let scenario = Scenario::new(vec![reference_aggregator(2)]).unwrap();
    let bad = Strategies::from_data(ActionKind::Basic, 1, 2, vec![SCALE; 4]).unwrap();
    assert_eq!(
        scenario.solve(&small_options(bad, 1, 5)).unwrap_err(),
        SolveError::Shape
    );
}

#[test]
fn default_options() {
    // Outer relative tolerance about 1e-6 (17 units); the inner standard
    // deviation tolerance is one representable unit.
    let guess = Strategies::from_data(ActionKind::Basic, 1, 1, vec![SCALE, SCALE]).unwrap();
    let o = SolverOptions::from_init_guess(guess);
    assert_eq!(o.max_iters, 200);
    assert_eq!(o.tol, 17);
    assert_eq!(o.nm_options.max_iters, 200);
    assert_eq!(o.nm_options.tol, 1);
    let r = SolverOptions::random_init(7);
    assert!(matches!(r.init_guess, InitGuess::Random(7, ActionKind::Basic)));
    assert_eq!(r.tol, 17);
    let nm = NMOptions::default();
    assert_eq!(nm.init_simplex_size, 1677722);
    assert_eq!(nm.tol, 1);
}

#[test]
fn solver_runs_on_mutating_invest_state() {
    let payoff = DefaultPayoff::new(
        DefaultProd::new(
            vec![10 * SCALE; 2],
            vec![SCALE / 2; 2],
            vec![10 * SCALE; 2],
            vec![SCALE / 2; 2],
        )
        .unwrap(),
        WinnerOnlyRisk::new(2, SCALE / 2),
        Csf::Default(DefaultCSF),
        LinearReward::default(2),
        ConstantDisasterCost { d: vec![SCALE; 2] },
        CostFn::Invest(FixedInvestCost::from_elems(2, 1677722, 838861)),
    )
    .unwrap();
    let agg = DynStateDiscounter::new(payoff, vec![15099494, 13421773]).unwrap();
    let guess = Strategies::from_data(ActionKind::Invest, 2, 2, vec![SCALE / 2; 16]).unwrap();
    let result = solve(&agg, &small_options(guess, 1, 12)).unwrap();
    assert_eq!(result.t(), 2);
    assert_eq!(result.n(), 2);
    assert_eq!(result.nparams(), 4);
    for &v in result.data().iter() {
        assert!(v >= 1);
    }
}
