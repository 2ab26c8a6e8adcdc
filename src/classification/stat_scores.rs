use crate::average::total_of;
use crate::error::{Expected, MetricError};
use crate::score::{Score, ONE_BITS};
use crate::tally::{
    count_where, lemma_count_where_bounded, lemma_sum_bounds,
    lemma_sum_update, lemma_sum_zeros, sum,
};
use crate::utils::{verify_binary_label, verify_label, verify_range};
use vstd::prelude::*;

verus! {

/// True when every prediction is a probability and every target is `0` or `1`.
pub open spec fn valid_binary_sample(prediction: Score, target: usize) -> bool {
    prediction.is_probability() && target < 2
}

/// The error that a binary batch reports for the sample it rejects.
pub open spec fn binary_sample_error(prediction: Score, target: usize) -> MetricError {
    if !prediction.is_probability() {
        MetricError::IncompatibleInput {
            expected: Expected::WithinRange { min: 0, max: ONE_BITS },
            got: prediction.bits,
        }
    } else {
        MetricError::IncompatibleInput {
            expected: Expected::LabelBelow { num_classes: 2 },
            got: target as u64,
        }
    }
}

/// The verdict on a binary batch: the error of its first invalid sample, if any.
pub open spec fn binary_batch_verdict(predictions: Seq<Score>, targets: Seq<usize>) -> Result<
    (),
    MetricError,
> {
    if predictions.len() != targets.len() {
        Err(
            MetricError::LengthMismatch {
                predictions: predictions.len() as usize,
                targets: targets.len() as usize,
            },
        )
    } else if exists|i: int|
        0 <= i < predictions.len() && !valid_binary_sample(predictions[i], targets[i]) {
        let i = choose|i: int|
            0 <= i < predictions.len() && !valid_binary_sample(predictions[i], targets[i]) && (
            forall|j: int| 0 <= j < i ==> valid_binary_sample(predictions[j], targets[j]));
        Err(binary_sample_error(predictions[i], targets[i]))
    } else {
        Ok(())
    }
}

/// The number of samples in the batch whose thresholded prediction is `predicted` and whose
/// target is positive exactly when `actual` holds.
pub open spec fn binary_tally(
    predictions: Seq<Score>,
    targets: Seq<usize>,
    threshold: Score,
    predicted: bool,
    actual: bool,
) -> nat {
    count_where(
        predictions.len(),
        |i: int|
            predictions[i].spec_greater(threshold) == predicted && (targets[i] == 1) == actual,
    )
}

/// Confusion-matrix counts for binary classification of thresholded probabilities.
#[derive(Clone, Debug)]
pub struct BinaryStatScores {
    pub true_positive: usize,
    pub false_positive: usize,
    pub false_negative: usize,
    pub true_negative: usize,
    pub total: usize,
    /// A prediction strictly above the threshold counts as positive.
    pub threshold: Score,
}

impl Default for BinaryStatScores {
    /// Fresh counts with the threshold `0.5`.
    fn default() -> (s: Self)
        ensures
            s.wf(),
            s.is_empty(),
            s.threshold.bits == 0x3FE0_0000_0000_0000,
    {
        Self::new(Score::half())
    }
}

impl BinaryStatScores {
    /// Every sample seen falls in exactly one of the four counts, and the threshold is a
    /// probability.
    pub open spec fn wf(&self) -> bool {
        &&& self.true_positive + self.false_positive + self.false_negative + self.true_negative
            == self.total
        &&& self.threshold.is_probability()
    }

    /// The accumulator holds no sample.
    pub open spec fn is_empty(&self) -> bool {
        &&& self.true_positive == 0
        &&& self.false_positive == 0
        &&& self.false_negative == 0
        &&& self.true_negative == 0
        &&& self.total == 0
    }

    /// `next` is `self` with the batch counted: each sample lands in the count that its
    /// thresholded prediction and its target select.
    pub open spec fn counted(self, next: Self, predictions: Seq<Score>, targets: Seq<usize>) -> bool {
        let t = self.threshold;
        &&& next.threshold == t
        &&& next.true_positive == self.true_positive + binary_tally(
            predictions,
            targets,
            t,
            true,
            true,
        )
        &&& next.false_positive == self.false_positive + binary_tally(
            predictions,
            targets,
            t,
            true,
            false,
        )
        &&& next.false_negative == self.false_negative + binary_tally(
            predictions,
            targets,
            t,
            false,
            true,
        )
        &&& next.true_negative == self.true_negative + binary_tally(
            predictions,
            targets,
            t,
            false,
            false,
        )
        &&& next.total == self.total + predictions.len()
    }

    /// Fresh counts for the given threshold, which must lie in `[0, 1]`.
    pub fn new(threshold: Score) -> (s: Self)
        requires
            threshold.is_probability(),
        ensures
            s.wf(),
            s.is_empty(),
            s.threshold == threshold,
    {
        BinaryStatScores {
            true_positive: 0,
            false_positive: 0,
            false_negative: 0,
            true_negative: 0,
            total: 0,
            threshold,
        }
    }

    /// Validates a whole batch before anything is counted: the lengths, then each sample in
    /// order, its prediction before its target.
    pub fn validate_batch(predictions: &[Score], targets: &[usize]) -> (r: Result<(), MetricError>)
        ensures
            r == binary_batch_verdict(predictions@, targets@),
    {
        if predictions.len() != targets.len() {
            return Err(
                MetricError::LengthMismatch {
                    predictions: predictions.len(),
                    targets: targets.len(),
                },
            );
        }
        let n = predictions.len();
        let mut i: usize = 0;
        while i < n
            invariant
                n == predictions@.len(),
                n == targets@.len(),
                i <= n,
                forall|j: int| 0 <= j < i ==> valid_binary_sample(predictions@[j], targets@[j]),
            decreases n - i,
        {
            let verdict = verify_range(predictions[i], Score::zero(), Score::one());
            if verdict.is_err() {
                proof {
                    let ghost ii = i as int;
                    assert(!valid_binary_sample(predictions@[ii], targets@[ii]));
                    let k = choose|k: int|
                        0 <= k < predictions@.len() && !valid_binary_sample(
                            predictions@[k],
                            targets@[k],
                        ) && (forall|j: int|
                            0 <= j < k ==> valid_binary_sample(predictions@[j], targets@[j]));
                    assert(k == ii);
                }
                return verdict;
            }
            let verdict = verify_binary_label(targets[i]);
            if verdict.is_err() {
                proof {
                    let ghost ii = i as int;
                    assert(!valid_binary_sample(predictions@[ii], targets@[ii]));
                    let k = choose|k: int|
                        0 <= k < predictions@.len() && !valid_binary_sample(
                            predictions@[k],
                            targets@[k],
                        ) && (forall|j: int|
                            0 <= j < k ==> valid_binary_sample(predictions@[j], targets@[j]));
                    assert(k == ii);
                }
                return verdict;
            }
            i = i + 1;
        }
        Ok(())
    }

    /// Counts one batch. A prediction above the threshold is a predicted positive; a target of
    /// `1` is an actual positive. A batch that is rejected leaves every count unchanged.
    pub fn update(&mut self, predictions: &[Score], targets: &[usize]) -> (r: Result<
        (),
        MetricError,
    >)
        requires
            old(self).wf(),
            old(self).total + predictions@.len() <= usize::MAX,
        ensures
            final(self).wf(),
            r == binary_batch_verdict(predictions@, targets@),
            r is Err ==> *final(self) == *old(self),
            r is Ok ==> old(self).counted(*final(self), predictions@, targets@),
    {
        let verdict = Self::validate_batch(predictions, targets);
        if verdict.is_err() {
            return verdict;
        }
        let ghost start = *self;
        let ghost t = self.threshold;
        let n = predictions.len();
        let mut i: usize = 0;
        while i < n
            invariant
                n == predictions@.len(),
                n == targets@.len(),
                i <= n,
                start.wf(),
                start.total + n <= usize::MAX,
                self.wf(),
                self.threshold == t,
                t == start.threshold,
                forall|j: int| 0 <= j < n ==> valid_binary_sample(predictions@[j], targets@[j]),
                self.total == start.total + i,
                self.true_positive == start.true_positive + binary_tally(
                    predictions@.take(i as int),
                    targets@.take(i as int),
                    t,
                    true,
                    true,
                ),
                self.false_positive == start.false_positive + binary_tally(
                    predictions@.take(i as int),
                    targets@.take(i as int),
                    t,
                    true,
                    false,
                ),
                self.false_negative == start.false_negative + binary_tally(
                    predictions@.take(i as int),
                    targets@.take(i as int),
                    t,
                    false,
                    true,
                ),
                self.true_negative == start.true_negative + binary_tally(
                    predictions@.take(i as int),
                    targets@.take(i as int),
                    t,
                    false,
                    false,
                ),
            decreases n - i,
        {
            let predicted = predictions[i].greater(&self.threshold);
            let actual = targets[i] == 1;
            if predicted && actual {
                self.true_positive = self.true_positive + 1;
            } else if predicted && !actual {
                self.false_positive = self.false_positive + 1;
            } else if !predicted && actual {
                self.false_negative = self.false_negative + 1;
            } else {
                self.true_negative = self.true_negative + 1;
            }
            self.total = self.total + 1;
            proof {
                let ghost ii = i as int;
                let p1 = predictions@.take(ii + 1);
                let t1 = targets@.take(ii + 1);
                let p0 = predictions@.take(ii);
                let t0 = targets@.take(ii);
                assert(p1.take(ii) =~= p0);
                assert(t1.take(ii) =~= t0);
                lemma_tally_step(p1, t1, t, true, true);
                lemma_tally_step(p1, t1, t, true, false);
                lemma_tally_step(p1, t1, t, false, true);
                lemma_tally_step(p1, t1, t, false, false);
            }
            i = i + 1;
        }
        proof {
            assert(predictions@.take(n as int) =~= predictions@);
            assert(targets@.take(n as int) =~= targets@);
        }
        Ok(())
    }

    /// Clears every count; the threshold stays.
    pub fn reset(&mut self)
        requires
            old(self).wf(),
        ensures
            final(self).wf(),
            final(self).is_empty(),
            final(self).threshold == old(self).threshold,
    {
        self.true_positive = 0;
        self.false_positive = 0;
        self.false_negative = 0;
        self.true_negative = 0;
        self.total = 0;
    }
}

/// Extending a batch by one sample adds that sample's outcome to the matching tally.
proof fn lemma_tally_step(
    predictions: Seq<Score>,
    targets: Seq<usize>,
    threshold: Score,
    predicted: bool,
    actual: bool,
)
    requires
        predictions.len() == targets.len(),
        predictions.len() > 0,
    ensures
        ({
            let n = predictions.len() - 1;
            binary_tally(predictions, targets, threshold, predicted, actual) == binary_tally(
                predictions.take(n),
                targets.take(n),
                threshold,
                predicted,
                actual,
            ) + if predictions[n].spec_greater(threshold) == predicted && (targets[n] == 1)
                == actual {
                1nat
            } else {
                0nat
            }
        }),
{
    let n = predictions.len() - 1;
    let p0 = predictions.take(n);
    let t0 = targets.take(n);
    let f = |i: int|
        predictions[i].spec_greater(threshold) == predicted && (targets[i] == 1) == actual;
    let g = |i: int| p0[i].spec_greater(threshold) == predicted && (t0[i] == 1) == actual;
    crate::tally::lemma_count_where_ext(n as nat, f, g);
    lemma_count_where_bounded(n as nat, f);
}

} // verus!

verus! {

/// The index of the first maximal score of a row.
pub open spec fn first_max(row: Seq<Score>) -> int
    decreases row.len(),
{
    if row.len() <= 1 {
        0
    } else {
        let m = first_max(row.drop_last());
        if row.last().spec_rank() > row[m].spec_rank() {
            row.len() - 1
        } else {
            m
        }
    }
}

/// `first_max` picks a score that no other exceeds and that every earlier score falls short of.
pub proof fn lemma_first_max(row: Seq<Score>)
    requires
        row.len() >= 1,
    ensures
        0 <= first_max(row) < row.len(),
        forall|j: int|
            0 <= j < row.len() ==> (#[trigger] row[j]).spec_rank() <= row[first_max(row)].spec_rank(),
        forall|j: int|
            0 <= j < first_max(row) ==> (#[trigger] row[j]).spec_rank() < row[first_max(
                row,
            )].spec_rank(),
    decreases row.len(),
{
    if row.len() > 1 {
        let p = row.drop_last();
        lemma_first_max(p);
        assert forall|j: int| 0 <= j < p.len() implies p[j] == row[j] by {}
    }
}

/// The class predicted for a row: the first class of maximal score.
pub fn argmax(row: &[Score]) -> (r: usize)
    requires
        row@.len() >= 1,
    ensures
        r == first_max(row@),
        r < row@.len(),
        forall|j: int| 0 <= j < row@.len() ==> (#[trigger] row@[j]).spec_rank() <= row@[r as int].spec_rank(),
        forall|j: int| 0 <= j < r ==> (#[trigger] row@[j]).spec_rank() < row@[r as int].spec_rank(),
{
    proof {
        lemma_first_max(row@);
    }
    let mut best: usize = 0;
    let mut j: usize = 1;
    while j < row.len()
        invariant
            1 <= j <= row@.len(),
            best < j,
            best == first_max(row@.take(j as int)),
        decreases row@.len() - j,
    {
        proof {
            let t = row@.take(j + 1);
            assert(t.drop_last() =~= row@.take(j as int));
            assert(t[best as int] == row@[best as int]);
        }
        if row[j].rank() > row[best].rank() {
            best = j;
        }
        j = j + 1;
    }
    proof {
        assert(row@.take(j as int) =~= row@);
    }
    best
}

/// True when a sample's target names a class and its row holds one score per class.
pub open spec fn valid_multiclass_sample(row: Seq<Score>, target: usize, num_classes: usize) -> bool {
    target < num_classes && row.len() == num_classes
}

/// The error that a multiclass batch reports for the sample it rejects.
pub open spec fn multiclass_sample_error(row: Seq<Score>, target: usize, num_classes: usize) -> MetricError {
    if target >= num_classes {
        MetricError::IncompatibleInput {
            expected: Expected::LabelBelow { num_classes },
            got: target as u64,
        }
    } else {
        MetricError::IncompatibleInput {
            expected: Expected::RowLength { num_classes },
            got: row.len() as u64,
        }
    }
}

/// The verdict on a multiclass batch: the error of its first invalid sample, if any.
pub open spec fn multiclass_batch_verdict(
    predictions: Seq<&[Score]>,
    targets: Seq<usize>,
    num_classes: usize,
) -> Result<(), MetricError> {
    if predictions.len() != targets.len() {
        Err(
            MetricError::LengthMismatch {
                predictions: predictions.len() as usize,
                targets: targets.len() as usize,
            },
        )
    } else if exists|i: int|
        0 <= i < predictions.len() && !valid_multiclass_sample(
            predictions[i]@,
            targets[i],
            num_classes,
        ) {
        let i = choose|i: int|
            0 <= i < predictions.len() && !valid_multiclass_sample(
                predictions[i]@,
                targets[i],
                num_classes,
            ) && (forall|j: int|
                0 <= j < i ==> valid_multiclass_sample(predictions[j]@, targets[j], num_classes));
        Err(multiclass_sample_error(predictions[i]@, targets[i], num_classes))
    } else {
        Ok(())
    }
}

/// The number of the first `n` samples whose target is class `k` exactly when `target_is_k`
/// holds and whose predicted class is `k` exactly when `predicted_is_k` holds.
pub open spec fn class_tally(
    predictions: Seq<&[Score]>,
    targets: Seq<usize>,
    n: nat,
    k: int,
    target_is_k: bool,
    predicted_is_k: bool,
) -> nat {
    count_where(
        n,
        |i: int|
            (targets[i] == k) == target_is_k && (first_max(predictions[i]@) == k)
                == predicted_is_k,
    )
}

/// One-vs-rest confusion-matrix counts for each class of a multiclass problem.
#[derive(Clone, Debug)]
pub struct MulticlassStatScores {
    pub true_positive: Vec<usize>,
    pub false_positive: Vec<usize>,
    pub false_negative: Vec<usize>,
    pub true_negative: Vec<usize>,
    pub total_per_class: Vec<usize>,
    pub total: usize,
    pub num_classes: usize,
}

/// A vector of `n` zero counters.
fn zeros(n: usize) -> (v: Vec<usize>)
    ensures
        v@.len() == n,
        forall|k: int| 0 <= k < n ==> v@[k] == 0,
{
    let mut v: Vec<usize> = Vec::new();
    let mut i: usize = 0;
    while i < n
        invariant
            i <= n,
            v@.len() == i,
            forall|k: int| 0 <= k < i ==> v@[k] == 0,
        decreases n - i,
    {
        v.push(0);
        i = i + 1;
    }
    v
}

impl MulticlassStatScores {
    /// Each sample gives every class exactly one verdict, so every class has seen every
    /// sample; each sample is the true or false positive of exactly one class (its predicted
    /// class) and the true positive or false negative of exactly one class (its target).
    pub open spec fn wf(&self) -> bool {
        let c = self.num_classes as int;
        &&& c >= 2
        &&& self.true_positive@.len() == c
        &&& self.false_positive@.len() == c
        &&& self.false_negative@.len() == c
        &&& self.true_negative@.len() == c
        &&& self.total_per_class@.len() == c
        &&& forall|k: int|
            0 <= k < c ==> #[trigger] self.total_per_class@[k] == self.true_positive@[k]
                + self.false_positive@[k] + self.false_negative@[k] + self.true_negative@[k]
        &&& forall|k: int| 0 <= k < c ==> #[trigger] self.total_per_class@[k] == self.total
        &&& sum(self.true_positive@) + sum(self.false_positive@) == self.total
        &&& sum(self.true_positive@) + sum(self.false_negative@) == self.total
    }

    /// The accumulator holds no sample.
    pub open spec fn is_empty(&self) -> bool {
        let c = self.num_classes as int;
        &&& self.total == 0
        &&& forall|k: int| 0 <= k < c ==> #[trigger] self.true_positive@[k] == 0
        &&& forall|k: int| 0 <= k < c ==> #[trigger] self.false_positive@[k] == 0
        &&& forall|k: int| 0 <= k < c ==> #[trigger] self.false_negative@[k] == 0
        &&& forall|k: int| 0 <= k < c ==> #[trigger] self.true_negative@[k] == 0
    }

    /// `next` is `self` with the batch counted: every sample gives each class one verdict.
    pub open spec fn counted(self, next: Self, predictions: Seq<&[Score]>, targets: Seq<usize>) -> bool {
        let n = predictions.len();
        let c = self.num_classes as int;
        &&& next.num_classes == self.num_classes
        &&& next.total_per_class@.len() == c
        &&& next.total == self.total + n
        &&& forall|k: int|
            0 <= k < c ==> #[trigger] next.true_positive@[k] == self.true_positive@[k] + class_tally(
                predictions,
                targets,
                n,
                k,
                true, true,
            )
        &&& forall|k: int|
            0 <= k < c ==> #[trigger] next.false_negative@[k] == self.false_negative@[k] + class_tally(
                predictions,
                targets,
                n,
                k,
                true, false,
            )
        &&& forall|k: int|
            0 <= k < c ==> #[trigger] next.false_positive@[k] == self.false_positive@[k] + class_tally(
                predictions,
                targets,
                n,
                k,
                false, true,
            )
        &&& forall|k: int|
            0 <= k < c ==> #[trigger] next.true_negative@[k] == self.true_negative@[k] + class_tally(
                predictions,
                targets,
                n,
                k,
                false, false,
            )
        &&& forall|k: int|
            0 <= k < c ==> #[trigger] next.total_per_class@[k] == self.total_per_class@[k] + n
    }

    /// Fresh counts for `num_classes` classes, at least two.
    pub fn new(num_classes: usize) -> (s: Self)
        requires
            num_classes >= 2,
        ensures
            s.wf(),
            s.is_empty(),
            s.num_classes == num_classes,
    {
        let s = MulticlassStatScores {
            true_positive: zeros(num_classes),
            false_positive: zeros(num_classes),
            false_negative: zeros(num_classes),
            true_negative: zeros(num_classes),
            total_per_class: zeros(num_classes),
            total: 0,
            num_classes,
        };
        proof {
            lemma_sum_zeros(s.true_positive@);
            lemma_sum_zeros(s.false_positive@);
            lemma_sum_zeros(s.false_negative@);
        }
        s
    }

    /// Validates a whole batch before anything is counted: the lengths, then each sample in
    /// order, its target before its row.
    pub fn validate_batch(predictions: &[&[Score]], targets: &[usize], num_classes: usize) -> (r: Result<
        (),
        MetricError,
    >)
        ensures
            r == multiclass_batch_verdict(predictions@, targets@, num_classes),
    {
        if predictions.len() != targets.len() {
            return Err(
                MetricError::LengthMismatch {
                    predictions: predictions.len(),
                    targets: targets.len(),
                },
            );
        }
        let n = predictions.len();
        let mut i: usize = 0;
        while i < n
            invariant
                n == predictions@.len(),
                n == targets@.len(),
                i <= n,
                forall|j: int|
                    0 <= j < i ==> valid_multiclass_sample(
                        predictions@[j]@,
                        targets@[j],
                        num_classes,
                    ),
            decreases n - i,
        {
            let row: &[Score] = predictions[i];
            let verdict = verify_label(targets[i], num_classes);
            let bad_row = row.len() != num_classes;
            if verdict.is_err() || bad_row {
                proof {
                    let ghost ii = i as int;
                    assert(!valid_multiclass_sample(predictions@[ii]@, targets@[ii], num_classes));
                    let k = choose|k: int|
                        0 <= k < predictions@.len() && !valid_multiclass_sample(
                            predictions@[k]@,
                            targets@[k],
                            num_classes,
                        ) && (forall|j: int|
                            0 <= j < k ==> valid_multiclass_sample(
                                predictions@[j]@,
                                targets@[j],
                                num_classes,
                            ));
                    assert(k == ii);
                }
                if verdict.is_err() {
                    return verdict;
                }
                return Err(
                    MetricError::IncompatibleInput {
                        expected: Expected::RowLength { num_classes },
                        got: row.len() as u64,
                    },
                );
            }
            i = i + 1;
        }
        Ok(())
    }
}

impl MulticlassStatScores {
    /// Counts one batch. Each sample's predicted class is the first class of maximal score in
    /// its row (a NaN score is ordered by its bit pattern). For every class `k`, the sample is
    /// a true positive where `k` is both its target and its prediction, a false negative where
    /// `k` is only its target, a false positive where `k` is only its prediction, and a true
    /// negative otherwise. A batch that is rejected leaves every count unchanged.
    pub fn update(&mut self, predictions: &[&[Score]], targets: &[usize]) -> (r: Result<
        (),
        MetricError,
    >)
        requires
            old(self).wf(),
            old(self).total + predictions@.len() <= usize::MAX,
        ensures
            final(self).wf(),
            final(self).num_classes == old(self).num_classes,
            r == multiclass_batch_verdict(predictions@, targets@, old(self).num_classes),
            r is Err ==> *final(self) == *old(self),
            r is Ok ==> old(self).counted(*final(self), predictions@, targets@),
    {
        let verdict = Self::validate_batch(predictions, targets, self.num_classes);
        if verdict.is_err() {
            return verdict;
        }
        let ghost start = *self;
        let n = predictions.len();
        let c = self.num_classes;
        let mut i: usize = 0;
        while i < n
            invariant
                n == predictions@.len(),
                n == targets@.len(),
                i <= n,
                c == self.num_classes,
                c == start.num_classes,
                start.wf(),
                start.total + n <= usize::MAX,
                forall|j: int|
                    0 <= j < n ==> valid_multiclass_sample(
                        #[trigger] predictions@[j]@,
                        targets@[j],
                        c,
                    ),
                self.wf(),
                self.total == start.total + i,
                forall|k: int|
                    0 <= k < c ==> #[trigger] self.true_positive@[k] == start.true_positive@[k] + class_tally(
                        predictions@,
                        targets@,
                        i as nat,
                        k,
                        true, true,
                    ),
                forall|k: int|
                    0 <= k < c ==> #[trigger] self.false_negative@[k] == start.false_negative@[k] + class_tally(
                        predictions@,
                        targets@,
                        i as nat,
                        k,
                        true, false,
                    ),
                forall|k: int|
                    0 <= k < c ==> #[trigger] self.false_positive@[k] == start.false_positive@[k] + class_tally(
                        predictions@,
                        targets@,
                        i as nat,
                        k,
                        false, true,
                    ),
                forall|k: int|
                    0 <= k < c ==> #[trigger] self.true_negative@[k] == start.true_negative@[k] + class_tally(
                        predictions@,
                        targets@,
                        i as nat,
                        k,
                        false, false,
                    ),
                forall|k: int|
                    0 <= k < c ==> #[trigger] self.total_per_class@[k]
                        == start.total_per_class@[k] + i,
            decreases n - i,
        {
            let row: &[Score] = predictions[i];
            let target = targets[i];
            proof {
                assert(valid_multiclass_sample(predictions@[i as int]@, targets@[i as int], c));
            }
            let predicted = argmax(row);
            let ghost before = *self;
            let mut class_idx: usize = 0;
            while class_idx < c
                invariant
                    c == self.num_classes,
                    c >= 2,
                    self.true_positive@.len() == c,
                    self.false_positive@.len() == c,
                    self.false_negative@.len() == c,
                    self.true_negative@.len() == c,
                    self.total_per_class@.len() == c,
                    target < c,
                    predicted < c,
                    class_idx <= c,
                    self.total == before.total,
                    before.total < usize::MAX,
                    before.wf(),
                    before.num_classes == c,
                    forall|k: int|
                        0 <= k < c ==> #[trigger] self.true_positive@[k] == before.true_positive@[k] + if k
                            < class_idx && k == target && k == predicted {
                            1int
                        } else {
                            0int
                        },
                    forall|k: int|
                        0 <= k < c ==> #[trigger] self.false_negative@[k] == before.false_negative@[k] + if k
                            < class_idx && k == target && k != predicted {
                            1int
                        } else {
                            0int
                        },
                    forall|k: int|
                        0 <= k < c ==> #[trigger] self.false_positive@[k] == before.false_positive@[k] + if k
                            < class_idx && k != target && k == predicted {
                            1int
                        } else {
                            0int
                        },
                    forall|k: int|
                        0 <= k < c ==> #[trigger] self.true_negative@[k] == before.true_negative@[k] + if k
                            < class_idx && k != target && k != predicted {
                            1int
                        } else {
                            0int
                        },
                    forall|k: int|
                        0 <= k < c ==> #[trigger] self.total_per_class@[k]
                            == before.total_per_class@[k] + if k < class_idx {
                            1int
                        } else {
                            0int
                        },
                    sum(self.true_positive@) + sum(self.false_positive@) == before.total + if (
                    predicted as int) < class_idx {
                        1int
                    } else {
                        0int
                    },
                    sum(self.true_positive@) + sum(self.false_negative@) == before.total + if (
                    target as int) < class_idx {
                        1int
                    } else {
                        0int
                    },
                decreases c - class_idx,
            {
                let k = class_idx;
                proof {
                    let ki = k as int;
                    assert(before.total_per_class@[ki] == before.total);
                    assert(self.true_positive@[ki] == before.true_positive@[ki]);
                    assert(self.false_positive@[ki] == before.false_positive@[ki]);
                    assert(self.false_negative@[ki] == before.false_negative@[ki]);
                    assert(self.true_negative@[ki] == before.true_negative@[ki]);
                    assert(self.total_per_class@[ki] == before.total_per_class@[ki]);
                }
                if k == target {
                    if k == predicted {
                        let v = self.true_positive[k];
                        let ghost prev = self.true_positive@;
                        self.true_positive.set(k, v + 1);
                        proof {
                            lemma_sum_update(prev, k as int, (v + 1) as usize);
                        }
                    } else {
                        let v = self.false_negative[k];
                        let ghost prev = self.false_negative@;
                        self.false_negative.set(k, v + 1);
                        proof {
                            lemma_sum_update(prev, k as int, (v + 1) as usize);
                        }
                    }
                } else if k == predicted {
                    let v = self.false_positive[k];
                    let ghost prev = self.false_positive@;
                    self.false_positive.set(k, v + 1);
                    proof {
                        lemma_sum_update(prev, k as int, (v + 1) as usize);
                    }
                } else {
                    let v = self.true_negative[k];
                    self.true_negative.set(k, v + 1);
                }
                let v = self.total_per_class[k];
                self.total_per_class.set(k, v + 1);
                class_idx = class_idx + 1;
            }
            self.total = self.total + 1;
            proof {
                assert forall|k: int| 0 <= k < c implies #[trigger] self.total_per_class@[k]
                    == self.total && self.total_per_class@[k] == start.total_per_class@[k] + i
                    + 1 by {
                    assert(before.total_per_class@[k] == before.total);
                }
                assert forall|k: int| 0 <= k < c implies #[trigger] self.true_positive@[k]
                    == start.true_positive@[k] + class_tally(
                    predictions@,
                    targets@,
                    (i + 1) as nat,
                    k,
                    true, true,
                ) by {
                    lemma_class_tally_next(predictions@, targets@, i as nat, k, true, true);
                }
                assert forall|k: int| 0 <= k < c implies #[trigger] self.false_negative@[k]
                    == start.false_negative@[k] + class_tally(
                    predictions@,
                    targets@,
                    (i + 1) as nat,
                    k,
                    true, false,
                ) by {
                    lemma_class_tally_next(predictions@, targets@, i as nat, k, true, false);
                }
                assert forall|k: int| 0 <= k < c implies #[trigger] self.false_positive@[k]
                    == start.false_positive@[k] + class_tally(
                    predictions@,
                    targets@,
                    (i + 1) as nat,
                    k,
                    false, true,
                ) by {
                    lemma_class_tally_next(predictions@, targets@, i as nat, k, false, true);
                }
                assert forall|k: int| 0 <= k < c implies #[trigger] self.true_negative@[k]
                    == start.true_negative@[k] + class_tally(
                    predictions@,
                    targets@,
                    (i + 1) as nat,
                    k,
                    false, false,
                ) by {
                    lemma_class_tally_next(predictions@, targets@, i as nat, k, false, false);
                }
            }
            i = i + 1;
        }
        Ok(())
    }

    /// Clears every count; the number of classes stays.
    pub fn reset(&mut self)
        requires
            old(self).wf(),
        ensures
            final(self).wf(),
            final(self).is_empty(),
            final(self).num_classes == old(self).num_classes,
    {
        *self = Self::new(self.num_classes);
    }
}

/// Counting one more sample adds it to the tally where its verdict for class `k` matches.
proof fn lemma_class_tally_next(
    predictions: Seq<&[Score]>,
    targets: Seq<usize>,
    n: nat,
    k: int,
    target_is_k: bool,
    predicted_is_k: bool,
)
    ensures
        class_tally(predictions, targets, n + 1, k, target_is_k, predicted_is_k) == class_tally(
            predictions,
            targets,
            n,
            k,
            target_is_k,
            predicted_is_k,
        ) + if (targets[n as int] == k) == target_is_k && (first_max(predictions[n as int]@)
            == k) == predicted_is_k {
            1nat
        } else {
            0nat
        },
{
}

/// Summed over the classes, the per-class totals count every sample once per class.
pub proof fn lemma_class_totals(s: &MulticlassStatScores)
    requires
        s.wf(),
    ensures
        sum(s.total_per_class@) == s.num_classes * s.total,
{
    crate::tally::lemma_sum_constant(s.total_per_class@, s.total);
}

impl MulticlassStatScores {
    /// The per-class combination `x * tp[k] + y * fp[k] + z * fn[k]` of the counts.
    pub open spec fn spec_per_class(&self, x: int, y: int, z: int) -> Seq<u128> {
        Seq::new(
            self.num_classes as nat,
            |k: int|
                (x * self.true_positive@[k] + y * self.false_positive@[k] + z
                    * self.false_negative@[k]) as u128,
        )
    }

    /// Computes `x * tp[k] + y * fp[k] + z * fn[k]` for every class `k`.
    pub fn per_class(&self, x: u128, y: u128, z: u128) -> (v: Vec<u128>)
        requires
            self.wf(),
            x <= 2,
            y <= 2,
            z <= 2,
        ensures
            v@ == self.spec_per_class(x as int, y as int, z as int),
            total_of(v@) == x * sum(self.true_positive@) + y * sum(self.false_positive@) + z * sum(
                self.false_negative@,
            ),
            total_of(v@) <= 4 * self.total,
    {
        let c = self.num_classes;
        let mut v: Vec<u128> = Vec::new();
        let mut k: usize = 0;
        proof {
            lemma_sum_bounds(self.true_positive@);
            lemma_sum_bounds(self.false_positive@);
            lemma_sum_bounds(self.false_negative@);
        }
        while k < c
            invariant
                self.wf(),
                c == self.num_classes,
                k <= c,
                x <= 2,
                y <= 2,
                z <= 2,
                v@.len() == k,
                forall|j: int|
                    0 <= j < k ==> #[trigger] v@[j] == (x * self.true_positive@[j] + y
                        * self.false_positive@[j] + z * self.false_negative@[j]) as u128,
                total_of(v@) == x * sum(self.true_positive@.take(k as int)) + y * sum(
                    self.false_positive@.take(k as int),
                ) + z * sum(self.false_negative@.take(k as int)),
            decreases c - k,
        {
            let ghost ki = k as int;
            let tp = self.true_positive[k] as u128;
            let fp = self.false_positive[k] as u128;
            let fnc = self.false_negative[k] as u128;
            proof {
                assert(self.total_per_class@[ki] == self.total);
                assert(x * tp <= 2 * tp && y * fp <= 2 * fp && z * fnc <= 2 * fnc)
                    by (nonlinear_arith)
                    requires
                        x <= 2,
                        y <= 2,
                        z <= 2,
                ;
                let ghost prev = v@;
                assert(self.true_positive@.take(ki + 1).drop_last() =~= self.true_positive@.take(ki));
                assert(self.false_positive@.take(ki + 1).drop_last() =~= self.false_positive@.take(ki));
                assert(self.false_negative@.take(ki + 1).drop_last() =~= self.false_negative@.take(ki));
                assert(x * sum(self.true_positive@.take(ki + 1)) == x * sum(self.true_positive@.take(ki)) + x * tp)
                    by (nonlinear_arith)
                    requires
                        sum(self.true_positive@.take(ki + 1)) == sum(self.true_positive@.take(ki)) + tp,
                ;
                assert(y * sum(self.false_positive@.take(ki + 1)) == y * sum(self.false_positive@.take(ki)) + y * fp)
                    by (nonlinear_arith)
                    requires
                        sum(self.false_positive@.take(ki + 1)) == sum(self.false_positive@.take(ki)) + fp,
                ;
                assert(z * sum(self.false_negative@.take(ki + 1)) == z * sum(self.false_negative@.take(ki)) + z * fnc)
                    by (nonlinear_arith)
                    requires
                        sum(self.false_negative@.take(ki + 1)) == sum(self.false_negative@.take(ki)) + fnc,
                ;
            }
            let value = x * tp + y * fp + z * fnc;
            let ghost prev = v@;
            v.push(value);
            proof {
                assert(v@.drop_last() =~= prev);
            }
            k = k + 1;
        }
        proof {
            assert(v@ =~= self.spec_per_class(x as int, y as int, z as int));
            assert(self.true_positive@.take(c as int) =~= self.true_positive@);
            assert(self.false_positive@.take(c as int) =~= self.false_positive@);
            assert(self.false_negative@.take(c as int) =~= self.false_negative@);
            let a = sum(self.true_positive@);
            let b = sum(self.false_positive@);
            let d = sum(self.false_negative@);
            assert(x * a + y * b + z * d <= 4 * self.total) by (nonlinear_arith)
                requires
                    a + b == self.total,
                    a + d == self.total,
                    a >= 0,
                    b >= 0,
                    d >= 0,
                    x <= 2,
                    y <= 2,
                    z <= 2,
                    x >= 0,
                    y >= 0,
                    z >= 0,
            ;
        }
        v
    }
}


/// The four outcome tallies of a batch split it: every sample lands in exactly one.
proof fn lemma_binary_tallies_partition(predictions: Seq<Score>, targets: Seq<usize>, threshold: Score)
    requires
        predictions.len() == targets.len(),
    ensures
        binary_tally(predictions, targets, threshold, true, true) + binary_tally(
            predictions,
            targets,
            threshold,
            true,
            false,
        ) + binary_tally(predictions, targets, threshold, false, true) + binary_tally(
            predictions,
            targets,
            threshold,
            false,
            false,
        ) == predictions.len(),
    decreases predictions.len(),
{
    if predictions.len() > 0 {
        let n = predictions.len() - 1;
        lemma_binary_tallies_partition(predictions.take(n), targets.take(n), threshold);
        lemma_tally_step(predictions, targets, threshold, true, true);
        lemma_tally_step(predictions, targets, threshold, true, false);
        lemma_tally_step(predictions, targets, threshold, false, true);
        lemma_tally_step(predictions, targets, threshold, false, false);
    }
}

/// Counting a batch keeps `tp + fp + fn + tn == total`: each sample adds one to exactly one
/// of the four counts and one to the total.
pub proof fn lemma_counted_keeps_total(
    s: BinaryStatScores,
    next: BinaryStatScores,
    predictions: Seq<Score>,
    targets: Seq<usize>,
)
    requires
        s.wf(),
        predictions.len() == targets.len(),
        s.counted(next, predictions, targets),
    ensures
        next.true_positive + next.false_positive + next.false_negative + next.true_negative
            == next.total,
{
    lemma_binary_tallies_partition(predictions, targets, s.threshold);
}

/// Counting a batch keeps the per-class totals summing to `num_classes * total`: each sample
/// adds one to the total of every class.
pub proof fn lemma_counted_keeps_class_totals(
    s: MulticlassStatScores,
    next: MulticlassStatScores,
    predictions: Seq<&[Score]>,
    targets: Seq<usize>,
)
    requires
        s.wf(),
        s.counted(next, predictions, targets),
    ensures
        sum(next.total_per_class@) == next.num_classes * next.total,
{
    assert forall|k: int| 0 <= k < next.total_per_class@.len() implies #[trigger] next.total_per_class@[k]
        == next.total by {
        assert(s.total_per_class@[k] == s.total);
    }
    crate::tally::lemma_sum_constant(next.total_per_class@, next.total);
}

} // verus!
