//! Action containers and the six economic primitives.

use dynapai::cost_func::{CostFn, FixedInvestCost, FixedUnitCost};
use dynapai::csf::{Csf, DefaultCSF, MaybeNoWinCSF};
use dynapai::disaster_cost::ConstantDisasterCost;
use dynapai::errors::ConfigError;
use dynapai::fixed::SCALE;
use dynapai::prod_func::DefaultProd;
use dynapai::reward_func::LinearReward;
use dynapai::risk_func::WinnerOnlyRisk;
use dynapai::strategies::{ActionKind, Actions, Strategies};

#[test]
fn actions_from_inputs_and_columns() {
    let a = Actions::from_inputs(vec![SCALE, 2 * SCALE], vec![3 * SCALE, 4 * SCALE]).unwrap();
    assert_eq!(a.n(), 2);
    assert_eq!(a.nparams(), 2);
    assert_eq!(a.xs(), vec![SCALE, 2 * SCALE]);
    assert_eq!(a.xp(), vec![3 * SCALE, 4 * SCALE]);
    assert_eq!(a.get(1, 0), 2 * SCALE);
}

#[test]
fn actions_validation_errors() {
    assert_eq!(
        Actions::from_inputs(vec![1], vec![1, 2]).unwrap_err(),
        ConfigError::LengthMismatch
    );
    assert_eq!(
        Actions::from_inputs(vec![], vec![]).unwrap_err(),
        ConfigError::EmptyList
    );
    assert!(ConfigError::LengthMismatch.describe().len() > 0);
}

#[test]
fn invest_actions_and_truncation() {
    let a = Actions::from_invest_inputs(
        vec![SCALE],
        vec![2 * SCALE],
        vec![3 * SCALE],
        vec![4 * SCALE],
    )
    .unwrap();
    assert_eq!(a.nparams(), 4);
    assert_eq!(a.inv_s(), vec![3 * SCALE]);
    assert_eq!(a.inv_p(), vec![4 * SCALE]);
    let b = a.truncate_to_actions();
    assert_eq!(b.nparams(), 2);
    assert_eq!(b.xs(), vec![SCALE]);
    assert_eq!(b.xp(), vec![2 * SCALE]);
}

#[test]
fn strategies_roundtrip() {
    // Round trip: from_actions(to_actions(p)) == p, entry for entry.
    let p = Strategies::from_data(
        ActionKind::Basic,
        3,
        2,
        (0..12).map(|x| (x + 1) * SCALE).collect(),
    )
    .unwrap();
    let acts = p.to_actions();
    assert_eq!(acts.len(), 3);
    let q = Strategies::from_actions(&acts).unwrap();
    assert_eq!(q.t(), p.t());
    assert_eq!(q.n(), p.n());
    assert_eq!(q.data(), p.data());
}

#[test]
fn strategies_validation() {
    assert_eq!(
        Strategies::from_data(ActionKind::Basic, 2, 2, vec![0; 7]).unwrap_err(),
        ConfigError::LengthMismatch
    );
    assert_eq!(
        Strategies::from_data(ActionKind::Basic, 0, 2, vec![]).unwrap_err(),
        ConfigError::EmptyList
    );
}

#[test]
fn random_strategies_positive() {
    let s = Strategies::random(4, 3, ActionKind::Invest, -SCALE, SCALE / 10).unwrap();
    assert_eq!(s.t(), 4);
    assert_eq!(s.n(), 3);
    assert_eq!(s.nparams(), 4);
    for &v in s.data().iter() {
        assert!(v >= 1);
    }
}

#[test]
fn prod_cobb_douglas_exact() {
    let prod = DefaultProd::new(
        vec![SCALE, SCALE],
        vec![SCALE / 2, SCALE / 2],
        vec![2 * SCALE, 2 * SCALE],
        vec![SCALE / 2, SCALE / 2],
    )
    .unwrap();
    let a = Actions::from_inputs(vec![4 * SCALE, 4 * SCALE], vec![4 * SCALE, 4 * SCALE]).unwrap();
    let (s, p) = prod.f(&a);
    // s_i = 1 * 4^(1/2) = 2, p_i = 2 * 4^(1/2) = 4, exactly.
    assert_eq!(s, vec![2 * SCALE, 2 * SCALE]);
    assert_eq!(p, vec![4 * SCALE, 4 * SCALE]);
    assert_eq!(prod.f_i(0, &a), (2 * SCALE, 4 * SCALE));
}

#[test]
fn prod_monotone_in_inputs() {
    // Raising an investment input weakly raises the matching output.
    let prod = DefaultProd::new(
        vec![3 * SCALE],
        vec![SCALE / 2],
        vec![3 * SCALE],
        vec![SCALE / 3],
    )
    .unwrap();
    let mut last_s = i64::MIN;
    let mut last_p = i64::MIN;
    for x in [0, SCALE / 2, SCALE, 2 * SCALE, 5 * SCALE, 50 * SCALE] {
        let a = Actions::from_inputs(vec![x], vec![x]).unwrap();
        let (s, p) = prod.f_i(0, &a);
        assert!(s >= last_s);
        assert!(p >= last_p);
        last_s = s;
        last_p = p;
    }
}

#[test]
fn prod_validation_and_mutation() {
    assert_eq!(
        DefaultProd::new(vec![1], vec![1, 2], vec![1], vec![1]).unwrap_err(),
        ConfigError::LengthMismatch
    );
    let prod = DefaultProd::new(vec![SCALE], vec![SCALE], vec![2 * SCALE], vec![SCALE]).unwrap();
    let a = Actions::from_invest_inputs(vec![0], vec![0], vec![5 * SCALE], vec![7 * SCALE])
        .unwrap();
    let m = prod.mutate_on_action(&a);
    assert_eq!(m.a, vec![6 * SCALE]);
    assert_eq!(m.b, vec![9 * SCALE]);
    // Basic actions carry no investment: mutation is the identity.
    let basic = Actions::from_inputs(vec![SCALE], vec![SCALE]).unwrap();
    let m2 = prod.mutate_on_action(&basic);
    assert_eq!(m2.a, vec![SCALE]);
    assert_eq!(m2.b, vec![2 * SCALE]);
}

#[test]
fn risk_sigma_exact() {
    let risk = WinnerOnlyRisk::new(1, SCALE);
    // s = 2, p = 4: s * p^-1 = 1/2; sigma = (1/2) / (3/2) = 1/3 (truncated).
    let sig = risk.sigma(&vec![2 * SCALE], &vec![4 * SCALE]);
    assert_eq!(sig, vec![5592405]);
    assert_eq!(risk.sigma_i(0, &vec![2 * SCALE], &vec![4 * SCALE]), 5592405);
}

#[test]
fn default_csf_shares() {
    let csf = DefaultCSF;
    let q = csf.q(&vec![SCALE, 3 * SCALE]);
    assert_eq!(q, vec![SCALE / 4, 3 * SCALE / 4]);
    // Shares sum to at most one.
    assert!(q.iter().sum::<i64>() <= SCALE);
    // All-zero outputs allocate nothing.
    assert_eq!(csf.q(&vec![0, 0]), vec![0, 0]);
    assert_eq!(csf.q_i(1, &vec![0, 0]), 0);
}

#[test]
fn maybe_no_win_csf() {
    let csf = MaybeNoWinCSF::default();
    assert_eq!(csf.scale, SCALE);
    // q_i = p_i / (1 + sum p): total mass strictly below one.
    let q = csf.q(&vec![SCALE, SCALE]);
    assert_eq!(q, vec![fx(1.0 / 3.0), fx(1.0 / 3.0)]);
    assert!(q.iter().sum::<i64>() < SCALE);
    assert_eq!(csf.q(&vec![0, 0]), vec![0, 0]);
    let wrapped = Csf::MaybeNoWin(MaybeNoWinCSF::new(2 * SCALE));
    assert_eq!(wrapped.q_i(0, &vec![0]), 0);
}

/// Nearest fixed-point value below the given float, matching truncated
/// division: 1/3 in fixed point is floor(S*S / 3S).
fn fx(x: f64) -> i64 {
    (x * SCALE as f64).floor() as i64
}

#[test]
fn reward_linear() {
    let r = LinearReward::default(3);
    let p = vec![SCALE, SCALE, SCALE];
    // Winner gets one, losers get nothing.
    assert_eq!(r.reward(1, &p), vec![0, SCALE, 0]);
    assert_eq!(r.win_i(1, &p), SCALE);
    assert_eq!(r.lose_i(0, &p), 0);
    let affine =
        LinearReward::new(vec![SCALE], vec![SCALE / 2], vec![0], vec![0]).unwrap();
    // win = 1 + p/2 = 2 at p = 2.
    assert_eq!(affine.win_i(0, &vec![2 * SCALE]), 2 * SCALE);
    assert_eq!(
        LinearReward::new(vec![1], vec![], vec![], vec![]).unwrap_err(),
        ConfigError::LengthMismatch
    );
}

#[test]
fn disaster_and_costs() {
    let d = ConstantDisasterCost { d: vec![SCALE, 2 * SCALE] };
    assert_eq!(d.d(&vec![0, 0], &vec![0, 0]), vec![SCALE, 2 * SCALE]);
    assert_eq!(d.d_i(1, &vec![0, 0], &vec![0, 0]), 2 * SCALE);

    let unit = FixedUnitCost::from_elem(2, SCALE / 2);
    let a = Actions::from_inputs(vec![SCALE, SCALE], vec![3 * SCALE, SCALE]).unwrap();
    // c_0 = (1 + 3) / 2 = 2.
    assert_eq!(unit.c_i(0, &a), 2 * SCALE);

    let invest = FixedInvestCost::from_elems(1, SCALE, SCALE / 2);
    let ia = Actions::from_invest_inputs(vec![SCALE], vec![SCALE], vec![2 * SCALE], vec![0])
        .unwrap();
    // c = 1 * (1 + 1) + (1/2) * (2 + 0) = 3.
    assert_eq!(invest.c_i(0, &ia), 3 * SCALE);
    assert_eq!(
        FixedInvestCost::new(vec![1], vec![1, 2]).unwrap_err(),
        ConfigError::LengthMismatch
    );
    let wrapped = CostFn::Invest(invest);
    assert_eq!(wrapped.c(&ia), vec![3 * SCALE]);
}

#[test]
fn from_actions_kind_mismatch() {
    let basic = Actions::from_inputs(vec![SCALE], vec![SCALE]).unwrap();
    let invest =
        Actions::from_invest_inputs(vec![SCALE], vec![SCALE], vec![0], vec![0]).unwrap();
    assert_eq!(
        Strategies::from_actions(&vec![basic, invest]).unwrap_err(),
        ConfigError::KindMismatch
    );
    let a1 = Actions::from_inputs(vec![SCALE], vec![SCALE]).unwrap();
    let a2 = Actions::from_inputs(vec![SCALE, SCALE], vec![SCALE, SCALE]).unwrap();
    assert_eq!(
        Strategies::from_actions(&vec![a1, a2]).unwrap_err(),
        ConfigError::LengthMismatch
    );
    assert_eq!(
        Strategies::from_actions(&vec![]).unwrap_err(),
        ConfigError::EmptyList
    );
}

#[test]
fn error_descriptions_nonempty() {
    for e in [
        ConfigError::LengthMismatch,
        ConfigError::EmptyList,
        ConfigError::GammaLength,
        ConfigError::PlayerCountMismatch,
        ConfigError::KindMismatch,
    ] {
        assert!(!e.describe().is_empty());
    }
}
