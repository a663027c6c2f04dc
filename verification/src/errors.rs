//! Error taxonomy: configuration errors at construction time, and solver
//! errors while computing an equilibrium.

use vstd::prelude::*;

verus! {

/// Construction-time validation failure: which invariant the arguments broke.
#[derive(Clone, Copy, Debug, PartialEq, Eq, Structural)]
pub enum ConfigError {
    /// A primitive's parameter arrays do not all have the same length.
    LengthMismatch,
    /// A list that must be non-empty (beliefs, states, aggregators) was empty.
    EmptyList,
    /// The discount vector's length differs from the player count.
    GammaLength,
    /// Aggregators in a scenario report different player counts.
    PlayerCountMismatch,
    /// An action container's kind or width does not match its context.
    KindMismatch,
}

impl ConfigError {
    /// Human-readable account of the failed validation.
    pub fn describe(&self) -> (r: String)
        ensures
            r@.len() > 0,
    {
        match self {
            ConfigError::LengthMismatch => {
                let s = "all parameter arrays must have the same length";
                proof {
                    reveal_strlit("all parameter arrays must have the same length");
                }
                s.to_string()
            },
            ConfigError::EmptyList => {
                let s = "list must be non-empty";
                proof {
                    reveal_strlit("list must be non-empty");
                }
                s.to_string()
            },
            ConfigError::GammaLength => {
                let s = "discount vector length must equal the player count";
                proof {
                    reveal_strlit("discount vector length must equal the player count");
                }
                s.to_string()
            },
            ConfigError::PlayerCountMismatch => {
                let s = "all aggregators must have the same player count";
                proof {
                    reveal_strlit("all aggregators must have the same player count");
                }
                s.to_string()
            },
            ConfigError::KindMismatch => {
                let s = "action kind does not match this context";
                proof {
                    reveal_strlit("action kind does not match this context");
                }
                s.to_string()
            },
        }
    }
}

/// Failure while solving: either the profile shape does not fit the
/// aggregator, or a supplied starting profile has a non-positive entry, which
/// the log-space transform cannot accept.
#[derive(Clone, Copy, Debug, PartialEq, Eq, Structural)]
pub enum SolveError {
    /// Profile period count incompatible with the aggregator's states.
    Shape,
    /// A fixed initial guess holds an entry below one representable unit.
    NonPositiveGuess,
}

impl SolveError {
    /// Human-readable account of the failure.
    pub fn describe(&self) -> (r: String)
        ensures
            r@.len() > 0,
    {
        match self {
            SolveError::Shape => {
                let s = "profile shape does not match the aggregator";
                proof {
                    reveal_strlit("profile shape does not match the aggregator");
                }
                s.to_string()
            },
            SolveError::NonPositiveGuess => {
                let s = "initial guess entries must be strictly positive";
                proof {
                    reveal_strlit("initial guess entries must be strictly positive");
                }
                s.to_string()
            },
        }
    }
}

} // verus!
