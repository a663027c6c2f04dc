//! Equilibrium engine for a repeated multi-player contest game of strategic
//! investment under risk.
//!
//! All quantities are signed fixed-point numbers: an `i64` holding the value
//! scaled by [`fixed::SCALE`].  Every arithmetic operation saturates at
//! [`fixed::FX_MAX`] / [`fixed::FX_MIN`] and has an exact integer contract, so
//! the whole payoff / aggregation / solver pipeline is a deterministic,
//! fully specified function of its inputs.
//!
//! The key laws are stated and proved where their subjects live:
//! monotonicity of production in its inputs
//! ([`prod_func::lemma_prod_monotone`]), contest-success shares summing to
//! at most one ([`csf::lemma_default_csf_sum`], [`csf::lemma_no_win_csf_sum`],
//! [`csf::lemma_csf_zero`]), scalar/vector payoff consistency
//! ([`payoff_func::lemma_u_consistency`]), the profile/action-list round
//! trip ([`strategies::lemma_actions_roundtrip`]), one-period discounting
//! ([`states::lemma_one_period_discounting`]), two-period state mutation
//! ([`states::lemma_two_period_mutating`]), and solver determinism
//! ([`solve::lemma_solve_deterministic`],
//! [`scenarios::lemma_identical_aggregators`]).

pub mod errors;
pub mod fixed;
pub mod cost_func;
pub mod csf;
pub mod disaster_cost;
pub mod payoff_func;
pub mod prod_func;
pub mod reward_func;
pub mod risk_func;
pub mod scenarios;
pub mod solve;
pub mod states;
pub mod strategies;
pub mod utils;
pub mod transcend;
