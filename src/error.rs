use vstd::prelude::*;

verus! {

/// What an input was expected to satisfy when it was rejected.
#[derive(Clone, Copy, Debug, PartialEq, Eq, Structural)]
pub enum Expected {
    /// A score within the closed range between the two bounds, given as bit patterns.
    WithinRange { min: u64, max: u64 },
    /// A label strictly below this number of classes.
    LabelBelow { num_classes: usize },
    /// A prediction row holding exactly one score per class.
    RowLength { num_classes: usize },
}

/// Errors emitted by metrics when incoming batches cannot be processed.
#[derive(Clone, Copy, Debug, PartialEq, Eq, Structural)]
pub enum MetricError {
    /// `predictions.len()` and `targets.len()` differ.
    LengthMismatch { predictions: usize, targets: usize },
    /// A class index is outside the configured range.
    InvalidClassIndex { class: usize, num_classes: usize },
    /// Multilabel inputs do not align with the expected shape.
    InvalidLabelShape { total_labels: usize, num_labels: usize },
    /// An input value fails validation: a score out of range, a label outside the class
    /// domain, or a prediction row of the wrong length. `got` is the offending value (the bit
    /// pattern of a score, a label, or a row length).
    IncompatibleInput { expected: Expected, got: u64 },
}

} // verus!
