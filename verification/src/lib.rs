//! Mean-variance portfolio construction over exact rational arithmetic.
//!
//! The pipeline derives simple periodic returns from aligned price series,
//! estimates a sample covariance matrix through one of two interchangeable
//! backends, solves for the global minimum-variance portfolio, and traces an
//! efficient frontier by solving a target-return-constrained quadratic
//! program for a grid of targets. All numeric state is held in [`rational::Ratio`],
//! an exact fraction of 128-bit integers, so every contract pins the value of
//! a result as a mathematical rational rather than a floating approximation.

pub mod covariance;
pub mod errors;
pub mod filter;
pub mod frontier;
pub mod linalg;
pub mod mvp;
pub mod optimize;
pub mod periods;
pub mod rational;
pub mod series;
pub mod solve;
