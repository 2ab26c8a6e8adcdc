use crate::classification::stat_scores::{binary_batch_verdict, BinaryStatScores};
use crate::error::MetricError;
use crate::score::Score;
use vstd::prelude::*;

verus! {

/// The 2×2 confusion matrix of binary classification, laid out `[[tp, fp], [fn, tn]]`.
#[derive(Clone, Debug)]
pub struct BinaryConfusionMatrix {
    pub stat_scores: BinaryStatScores,
}

impl Default for BinaryConfusionMatrix {
    /// A matrix over predictions thresholded at `0.5`.
    fn default() -> (m: Self)
        ensures
            m.wf(),
            m.stat_scores.is_empty(),
            m.stat_scores.threshold.bits == 0x3FE0_0000_0000_0000,
    {
        BinaryConfusionMatrix { stat_scores: BinaryStatScores::default() }
    }
}

impl BinaryConfusionMatrix {
    /// The counts are consistent (see the accumulator's own `wf`).
    pub open spec fn wf(&self) -> bool {
        self.stat_scores.wf()
    }

    /// A matrix over predictions thresholded at `threshold`, which must lie in `[0, 1]`.
    pub fn new(threshold: Score) -> (m: Self)
        requires
            threshold.is_probability(),
        ensures
            m.wf(),
            m.stat_scores.is_empty(),
            m.stat_scores.threshold == threshold,
    {
        BinaryConfusionMatrix { stat_scores: BinaryStatScores::new(threshold) }
    }

    /// Counts one batch (see [`BinaryStatScores::update`]).
    pub fn update(&mut self, predictions: &[Score], targets: &[usize]) -> (r: Result<
        (),
        MetricError,
    >)
        requires
            old(self).wf(),
            old(self).stat_scores.total + predictions@.len() <= usize::MAX,
        ensures
            final(self).wf(),
            r == binary_batch_verdict(predictions@, targets@),
            r is Err ==> *final(self) == *old(self),
            r is Ok ==> old(self).stat_scores.counted(final(self).stat_scores, predictions@, targets@),
    {
        self.stat_scores.update(predictions, targets)
    }

    /// Forgets every sample; the threshold stays.
    pub fn reset(&mut self)
        requires
            old(self).wf(),
        ensures
            final(self).wf(),
            final(self).stat_scores.is_empty(),
            final(self).stat_scores.threshold == old(self).stat_scores.threshold,
    {
        self.stat_scores.reset();
    }

    /// The matrix `[[tp, fp], [fn, tn]]`, or `None` before any sample.
    pub fn compute(&self) -> (r: Option<[[usize; 2]; 2]>)
        requires
            self.wf(),
        ensures
            r is None <==> self.stat_scores.total == 0,
            r matches Some(m) ==> {
                &&& m[0][0] == self.stat_scores.true_positive
                &&& m[0][1] == self.stat_scores.false_positive
                &&& m[1][0] == self.stat_scores.false_negative
                &&& m[1][1] == self.stat_scores.true_negative
            },
    {
        let s = &self.stat_scores;
        if s.total == 0 {
            None
        } else {
            Some([[s.true_positive, s.false_positive], [s.false_negative, s.true_negative]])
        }
    }
}

} // verus!
