use crate::error::{Expected, MetricError};
use crate::score::Score;
use vstd::prelude::*;

verus! {

/// Accepts `input` when `min <= input <= max` under floating-point comparison, NaN never
/// included; otherwise reports the range and the offending bit pattern.
pub fn verify_range(input: Score, min: Score, max: Score) -> (r: Result<(), MetricError>)
    ensures
        r is Ok <==> input.spec_within(min, max),
        r is Err ==> r == Err::<(), MetricError>(
            MetricError::IncompatibleInput {
                expected: Expected::WithinRange { min: min.bits, max: max.bits },
                got: input.bits,
            },
        ),
{
    if input.within(&min, &max) {
        Ok(())
    } else {
        Err(
            MetricError::IncompatibleInput {
                expected: Expected::WithinRange { min: min.bits, max: max.bits },
                got: input.bits,
            },
        )
    }
}

/// Accepts a class label strictly below `num_classes`.
pub fn verify_label(input: usize, num_classes: usize) -> (r: Result<(), MetricError>)
    ensures
        r is Ok <==> input < num_classes,
        r is Err ==> r == Err::<(), MetricError>(
            MetricError::IncompatibleInput {
                expected: Expected::LabelBelow { num_classes },
                got: input as u64,
            },
        ),
{
    if input < num_classes {
        Ok(())
    } else {
        Err(
            MetricError::IncompatibleInput {
                expected: Expected::LabelBelow { num_classes },
                got: input as u64,
            },
        )
    }
}

/// Accepts the labels `0` and `1`.
pub fn verify_binary_label(input: usize) -> (r: Result<(), MetricError>)
    ensures
        r is Ok <==> input < 2,
        r is Err ==> r == Err::<(), MetricError>(
            MetricError::IncompatibleInput {
                expected: Expected::LabelBelow { num_classes: 2 },
                got: input as u64,
            },
        ),
{
    verify_label(input, 2)
}

} // verus!
