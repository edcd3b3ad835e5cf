//! A simplex solver for linear programs in standard form, over exact
//! rational numbers: maximize `c . x` subject to `A x <= b` and `x >= 0`.
//!
//! The program goes into slack form, a first phase finds a feasible basis
//! or finds that there is none, and the improvement loop then pivots by
//! Bland's rule until no variable improves the objective or until one
//! improves it without limit.

pub mod auxiliary;
pub mod equations;
pub mod laws;
pub mod model;
pub mod natural;
pub mod optimize;
pub mod partition;
pub mod phase_one;
pub mod rational;
pub mod slack;
pub mod solver;
pub mod sums;
pub mod tableau;

pub use model::{ConfigError, StandardForm};
pub use phase_one::{initialize_simplex, initialize_simplex_bounded, SolveError};
pub use rational::Rational;
pub use slack::SlackForm;
pub use solver::{simplex, simplex_bounded, LPResult};
