//! Error taxonomy of the pipeline.
//!
//! Every failure is surfaced to the immediate caller; nothing is retried or
//! recovered internally. Exact arithmetic adds two failure sources the
//! floating pipeline silently absorbed as non-finite values: a return whose
//! previous price is zero, and an intermediate value that leaves `i128`.

use vstd::prelude::*;

verus! {

/// Failures of return extraction and covariance estimation.
#[derive(Clone, Copy, Debug, PartialEq, Eq, Structural)]
pub enum CovarianceError {
    /// Fewer than two usable asset return series in the batch.
    InsufficientObservations,
    /// Return-series lengths disagree across assets.
    UnevenSampleLength,
    /// A return would divide by a zero price.
    ZeroPrice,
    /// Sample covariance needs at least two time samples per asset.
    InsufficientSamples,
    /// An intermediate exact value left the 128-bit range.
    ArithmeticOverflow,
}

/// Failures of the portfolio solvers.
#[derive(Clone, Copy, Debug, PartialEq, Eq, Structural)]
pub enum OptimizerError {
    /// The covariance matrix is singular; inversion-based solving failed.
    SingularCovariance,
    /// The requested target return lies above every expected return.
    OptimizationInfeasible,
    /// The solver produced no certified optimum.
    OptimizationFailed,
    /// An intermediate exact value left the 128-bit range.
    ArithmeticOverflow,
}

} // verus!
