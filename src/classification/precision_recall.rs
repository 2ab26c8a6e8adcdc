use crate::average::Ratio;
use crate::classification::stat_scores::{binary_batch_verdict, BinaryStatScores};
use crate::error::MetricError;
use crate::score::Score;
use crate::average::{average, spec_average, Average, AverageMethod, WeightedRatio};
use crate::classification::stat_scores::{multiclass_batch_verdict, MulticlassStatScores};
use vstd::prelude::*;

verus! {

/// Thresholded precision for binary classification: `tp / (tp + fp)`.
#[derive(Clone, Debug)]
pub struct BinaryPrecision {
    pub stat_scores: BinaryStatScores,
}

impl Default for BinaryPrecision {
    /// A metric over predictions thresholded at `0.5`.
    fn default() -> (m: Self)
        ensures
            m.wf(),
            m.stat_scores.is_empty(),
            m.stat_scores.threshold.bits == 0x3FE0_0000_0000_0000,
    {
        BinaryPrecision { stat_scores: BinaryStatScores::default() }
    }
}

impl BinaryPrecision {
    /// The counts are consistent (see the accumulator's own `wf`).
    pub open spec fn wf(&self) -> bool {
        self.stat_scores.wf()
    }

    /// `tp / (tp + fp)`, undefined without predicted positives.
    pub open spec fn spec_compute(&self) -> Option<Ratio> {
        let s = self.stat_scores;
        if s.total == 0 || s.true_positive + s.false_positive == 0 {
            None
        } else {
            Some(
                Ratio {
                    numerator: (s.true_positive) as u128,
                    denominator: (s.true_positive + s.false_positive) as u128,
                },
            )
        }
    }

    /// A metric over predictions thresholded at `threshold`, which must lie in `[0, 1]`.
    pub fn new(threshold: Score) -> (m: Self)
        requires
            threshold.is_probability(),
        ensures
            m.wf(),
            m.stat_scores.is_empty(),
            m.stat_scores.threshold == threshold,
    {
        BinaryPrecision { stat_scores: BinaryStatScores::new(threshold) }
    }

    /// Counts one batch (see [`BinaryStatScores::update`]).
    pub fn update(&mut self, predictions: &[Score], targets: &[usize]) -> (r: Result<
        (),
        MetricError,
    >)
        requires
            old(self).wf(),
            old(self).stat_scores.total + predictions@.len() <= usize::MAX,
        ensures
            final(self).wf(),
            r == binary_batch_verdict(predictions@, targets@),
            r is Err ==> *final(self) == *old(self),
            r is Ok ==> old(self).stat_scores.counted(final(self).stat_scores, predictions@, targets@),
    {
        self.stat_scores.update(predictions, targets)
    }

    /// Forgets every sample; the threshold stays.
    pub fn reset(&mut self)
        requires
            old(self).wf(),
        ensures
            final(self).wf(),
            final(self).stat_scores.is_empty(),
            final(self).stat_scores.threshold == old(self).stat_scores.threshold,
            final(self).spec_compute() is None,
    {
        self.stat_scores.reset();
    }

    /// The metric over every sample counted so far; `None` before any sample, or where the
    /// ratio has a zero denominator.
    pub fn compute(&self) -> (r: Option<Ratio>)
        requires
            self.wf(),
        ensures
            r == self.spec_compute(),
    {
        let s = &self.stat_scores;
        if s.total == 0 || (s.true_positive as u128) + (s.false_positive as u128) == 0 {
            None
        } else {
            Some(Ratio { numerator: (s.true_positive as u128), denominator: (s.true_positive as u128) + (s.false_positive as u128) })
        }
    }
}

/// Multiclass precision, per class `tp[k] / (tp[k] + fp[k])`, averaged.
#[derive(Clone, Debug)]
pub struct MulticlassPrecision {
    pub stat_scores: MulticlassStatScores,
    pub average_method: AverageMethod,
}

impl MulticlassPrecision {
    /// The counts are consistent (see the accumulator's own `wf`).
    pub open spec fn wf(&self) -> bool {
        self.stat_scores.wf()
    }

    /// The per-class precisions `tp[k] / (tp[k] + fp[k])`, averaged.
    pub open spec fn spec_compute(&self) -> Option<Seq<WeightedRatio>> {
        let s = self.stat_scores;
        if s.total == 0 {
            None
        } else {
            spec_average(
                s.spec_per_class(1, 0, 0),
                s.spec_per_class(1, 1, 0),
                s.spec_per_class(1, 0, 1),
                self.average_method,
            )
        }
    }

    /// A metric over `num_classes` classes, at least two, averaged by `average_method`.
    pub fn new(num_classes: usize, average_method: AverageMethod) -> (m: Self)
        requires
            num_classes >= 2,
        ensures
            m.wf(),
            m.stat_scores.is_empty(),
            m.stat_scores.num_classes == num_classes,
            m.average_method == average_method,
    {
        MulticlassPrecision { stat_scores: MulticlassStatScores::new(num_classes), average_method }
    }

    /// Counts one batch (see [`MulticlassStatScores::update`]).
    pub fn update(&mut self, predictions: &[&[Score]], targets: &[usize]) -> (r: Result<
        (),
        MetricError,
    >)
        requires
            old(self).wf(),
            old(self).stat_scores.total + predictions@.len() <= usize::MAX,
        ensures
            final(self).wf(),
            final(self).average_method == old(self).average_method,
            r == multiclass_batch_verdict(predictions@, targets@, old(self).stat_scores.num_classes),
            r is Err ==> *final(self) == *old(self),
            r is Ok ==> old(self).stat_scores.counted(final(self).stat_scores, predictions@, targets@),
    {
        self.stat_scores.update(predictions, targets)
    }

    /// Forgets every sample; the classes and the averaging method stay.
    pub fn reset(&mut self)
        requires
            old(self).wf(),
        ensures
            final(self).wf(),
            final(self).stat_scores.is_empty(),
            final(self).stat_scores.num_classes == old(self).stat_scores.num_classes,
            final(self).average_method == old(self).average_method,
            final(self).spec_compute() is None,
    {
        self.stat_scores.reset();
    }

    /// The averaged metric over every sample counted so far; `None` before any sample, or
    /// where no class has a defined ratio to average.
    pub fn compute(&self) -> (r: Option<Average>)
        requires
            self.wf(),
        ensures
            r matches Some(a) ==> self.spec_compute() == Some(a.terms@),
            r is None ==> self.spec_compute() is None,
    {
        if self.stat_scores.total == 0 {
            return None;
        }
        let numerators = self.stat_scores.per_class(1, 0, 0);
        let denominators = self.stat_scores.per_class(1, 1, 0);
        let supports = self.stat_scores.per_class(1, 0, 1);
        average(
            numerators.as_slice(),
            denominators.as_slice(),
            supports.as_slice(),
            self.average_method,
        )
    }
}

/// Thresholded recall for binary classification: `tp / (tp + fn)`.
#[derive(Clone, Debug)]
pub struct BinaryRecall {
    pub stat_scores: BinaryStatScores,
}

impl Default for BinaryRecall {
    /// A metric over predictions thresholded at `0.5`.
    fn default() -> (m: Self)
        ensures
            m.wf(),
            m.stat_scores.is_empty(),
            m.stat_scores.threshold.bits == 0x3FE0_0000_0000_0000,
    {
        BinaryRecall { stat_scores: BinaryStatScores::default() }
    }
}

impl BinaryRecall {
    /// The counts are consistent (see the accumulator's own `wf`).
    pub open spec fn wf(&self) -> bool {
        self.stat_scores.wf()
    }

    /// `tp / (tp + fn)`, undefined without actual positives.
    pub open spec fn spec_compute(&self) -> Option<Ratio> {
        let s = self.stat_scores;
        if s.total == 0 || s.true_positive + s.false_negative == 0 {
            None
        } else {
            Some(
                Ratio {
                    numerator: (s.true_positive) as u128,
                    denominator: (s.true_positive + s.false_negative) as u128,
                },
            )
        }
    }

    /// A metric over predictions thresholded at `threshold`, which must lie in `[0, 1]`.
    pub fn new(threshold: Score) -> (m: Self)
        requires
            threshold.is_probability(),
        ensures
            m.wf(),
            m.stat_scores.is_empty(),
            m.stat_scores.threshold == threshold,
    {
        BinaryRecall { stat_scores: BinaryStatScores::new(threshold) }
    }

    /// Counts one batch (see [`BinaryStatScores::update`]).
    pub fn update(&mut self, predictions: &[Score], targets: &[usize]) -> (r: Result<
        (),
        MetricError,
    >)
        requires
            old(self).wf(),
            old(self).stat_scores.total + predictions@.len() <= usize::MAX,
        ensures
            final(self).wf(),
            r == binary_batch_verdict(predictions@, targets@),
            r is Err ==> *final(self) == *old(self),
            r is Ok ==> old(self).stat_scores.counted(final(self).stat_scores, predictions@, targets@),
    {
        self.stat_scores.update(predictions, targets)
    }

    /// Forgets every sample; the threshold stays.
    pub fn reset(&mut self)
        requires
            old(self).wf(),
        ensures
            final(self).wf(),
            final(self).stat_scores.is_empty(),
            final(self).stat_scores.threshold == old(self).stat_scores.threshold,
            final(self).spec_compute() is None,
    {
        self.stat_scores.reset();
    }

    /// The metric over every sample counted so far; `None` before any sample, or where the
    /// ratio has a zero denominator.
    pub fn compute(&self) -> (r: Option<Ratio>)
        requires
            self.wf(),
        ensures
            r == self.spec_compute(),
    {
        let s = &self.stat_scores;
        if s.total == 0 || (s.true_positive as u128) + (s.false_negative as u128) == 0 {
            None
        } else {
            Some(Ratio { numerator: (s.true_positive as u128), denominator: (s.true_positive as u128) + (s.false_negative as u128) })
        }
    }
}

} // verus!
