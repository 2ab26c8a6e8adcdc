use crate::error::MetricError;
use vstd::prelude::*;

verus! {

/// Common interface of streaming metrics: batches come in through `update`, `reset` drops
/// every accumulated state, and `compute` reports a value once enough data has been seen.
pub trait Metric<Input> {
    type Output;

    /// Incorporates another batch of predictions and targets.
    fn update(&mut self, input: Input) -> Result<(), MetricError>;

    /// Drops any accumulated state.
    fn reset(&mut self);

    /// The value over every batch seen; `None` until there is one to report.
    fn compute(&self) -> Option<Self::Output>;
}

/// How a stream of per-sample values is reduced to one.
#[derive(Clone, Copy, Debug, PartialEq, Eq, Structural)]
pub enum Reduction {
    Sum,
    Mean,
    Max,
    Min,
}

impl Default for Reduction {
    /// The mean, the usual default.
    fn default() -> (r: Reduction)
        ensures
            r == Reduction::Mean,
    {
        Reduction::Mean
    }
}

/// What a root-mean-squared error is divided by to normalise it.
#[derive(Clone, Copy, Debug, PartialEq, Eq, Structural)]
pub enum NormalizationType {
    /// The mean of the targets.
    Mean,
    /// The range of the targets.
    Range,
    /// The standard deviation of the targets.
    Std,
    /// The Euclidean norm of the targets.
    L2,
}

impl Default for NormalizationType {
    /// Normalisation by the mean, the usual default.
    fn default() -> (n: NormalizationType)
        ensures
            n == NormalizationType::Mean,
    {
        NormalizationType::Mean
    }
}

} // verus!
