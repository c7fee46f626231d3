//! Exponential moving averages over a bounded window of observations,
//! computed in exact rational arithmetic.
//!
//! Two engines implement the same capability: `EmaFast` folds every
//! observation ever seen into one running value, while `EmaCorrect`
//! recomputes the average from the current window alone on every update.
//! They agree on the first value they report and diverge afterwards,
//! because the fast engine keeps the influence of evicted observations.

pub mod engine;
pub mod laws;
pub mod model;
pub mod rational;

pub use engine::compute_ema;
pub use engine::EmaComputation;
pub use engine::EmaCorrect;
pub use engine::EmaFast;
pub use engine::DEFAULT_WINDOW_SIZE;
pub use rational::Rat;
pub use rational::Ratio;
