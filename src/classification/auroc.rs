use crate::average::Ratio;
use crate::classification::stat_scores::{binary_batch_verdict, valid_binary_sample, BinaryStatScores};
use crate::error::MetricError;
use crate::score::Score;
use crate::tally::{
    lemma_sum_bounds, lemma_sum_first, lemma_sum_split, lemma_sum_update, lemma_sum_zeros,
    sum,
};
use crate::classification::rank::{
    concordance, count_at, count_label, count_positive_above, lemma_column_at_least,
    lemma_concordance_permutation, lemma_concordance_same_order, lemma_count_at_push,
    lemma_count_labels, lemma_count_at_bounded, lemma_row_positive, lemma_column_negative,
    count_negative_below, row_weight, column_weight, lemma_counts_above, lemma_row_at_least,
    RankedSample,
};
use vstd::prelude::*;

verus! {

/// The exact AUROC of the samples: the probability that a random positive outranks a random
/// negative, ties counting one half, as the ratio `concordance / (2 * positives * negatives)`.
/// Undefined without a positive or without a negative.
pub open spec fn spec_exact_auroc(samples: Seq<RankedSample>) -> Option<Ratio> {
    let p = count_label(samples, true);
    let n = count_label(samples, false);
    if p == 0 || n == 0 {
        None
    } else {
        Some(
            Ratio {
                numerator: concordance(samples) as u128,
                denominator: (2 * p * n) as u128,
            },
        )
    }
}

/// Relies on `slice::sort_unstable_by_key`: it reorders the samples so that their ranks never
/// decrease, keeping every sample.
#[verifier::external_body]
fn sort_by_rank(samples: &mut Vec<RankedSample>)
    ensures
        final(samples)@.to_multiset() == old(samples)@.to_multiset(),
        forall|i: int, j: int|
            0 <= i <= j < final(samples)@.len() ==> (#[trigger] final(samples)@[i]).0 <= (
            #[trigger] final(samples)@[j]).0,
{
    samples.sort_unstable_by_key(|s| s.0);
}

/// `2ab` stays below `2^127` when `a + b` fits in 64 bits.
proof fn lemma_pair_product_bound(a: int, b: int)
    requires
        a >= 0,
        b >= 0,
        a + b <= 0xFFFF_FFFF_FFFF_FFFF,
    ensures
        2 * a * b <= 0x8000_0000_0000_0000_0000_0000_0000_0000,
{
    assert(4 * a * b <= (a + b) * (a + b)) by (nonlinear_arith)
        requires
            a >= 0,
            b >= 0,
    ;
    assert((a + b) * (a + b) <= 0xFFFF_FFFF_FFFF_FFFF * 0xFFFF_FFFF_FFFF_FFFF) by (nonlinear_arith)
        requires
            a + b >= 0,
            a + b <= 0xFFFF_FFFF_FFFF_FFFF,
    ;
    assert(0xFFFF_FFFF_FFFF_FFFF * 0xFFFF_FFFF_FFFF_FFFF <= 2
        * 0x8000_0000_0000_0000_0000_0000_0000_0000) by (nonlinear_arith);
    assert(2 * a * b <= 0x8000_0000_0000_0000_0000_0000_0000_0000) by (nonlinear_arith)
        requires
            4 * a * b <= 2 * 0x8000_0000_0000_0000_0000_0000_0000_0000,
    ;
}

/// Sorts a copy of the samples by rank, then sweeps it from the highest rank down, one group of
/// tied samples at a time, adding each group's trapezoid under the ROC curve:
/// `negatives_in_group * (positives_before + positives_after)`, which is twice its area.
pub fn exact_auroc(samples: &Vec<RankedSample>) -> (r: Option<Ratio>)
    ensures
        r == spec_exact_auroc(samples@),
        r matches Some(q) ==> 0 < q.denominator && q.numerator <= q.denominator,
{
    let mut sorted: Vec<RankedSample> = Vec::new();
    let mut k: usize = 0;
    while k < samples.len()
        invariant
            k <= samples@.len(),
            sorted@ == samples@.take(k as int),
        decreases samples@.len() - k,
    {
        sorted.push(samples[k]);
        k = k + 1;
        proof {
            assert(sorted@ =~= samples@.take(k as int));
        }
    }
    proof {
        assert(samples@.take(k as int) =~= samples@);
    }
    sort_by_rank(&mut sorted);
    let ghost t = sorted@;
    proof {
        broadcast use vstd::seq_lib::group_to_multiset_ensures;

        lemma_concordance_permutation(samples@, t);
        vstd::seq_lib::to_multiset_len(samples@);
        vstd::seq_lib::to_multiset_len(t);
    }
    let n = sorted.len();
    let mut tp: u128 = 0;
    let mut fp: u128 = 0;
    let mut area: u128 = 0;
    let mut i: usize = n;
    proof {
        assert(t.subrange(n as int, n as int) =~= Seq::<RankedSample>::empty());
    }
    while i > 0
        invariant
            t == sorted@,
            n == t.len(),
            i <= n,
            forall|a: int, b: int| 0 <= a <= b < n ==> (#[trigger] t[a]).0 <= (#[trigger] t[b]).0,
            i == 0 || i == n || t[i - 1].0 < t[i as int].0,
            area == concordance(t.subrange(i as int, n as int)),
            tp == count_label(t.subrange(i as int, n as int), true),
            fp == count_label(t.subrange(i as int, n as int), false),
            tp + fp == n - i,
            area <= 2 * tp * fp,
        decreases i,
    {
        let current = sorted[i - 1].0;
        let mut gp: u128 = 0;
        let mut gn: u128 = 0;
        let mut j: usize = i;
        proof {
            let s = t.subrange(i as int, n as int);
            assert forall|m: int| 0 <= m < s.len() implies (#[trigger] s[m]).0 > current by {
                assert(s[m] == t[i + m]);
                assert(t[i as int].0 <= t[i + m].0);
            }
            lemma_counts_above(s, current);
        }
        while j > 0 && sorted[j - 1].0 == current
            invariant
                t == sorted@,
                n == t.len(),
                0 < i <= n,
                j <= i,
                forall|a: int, b: int|
                    0 <= a <= b < n ==> (#[trigger] t[a]).0 <= (#[trigger] t[b]).0,
                i == n || t[i - 1].0 < t[i as int].0,
                current == t[i - 1].0,
                forall|m: int| j <= m < i ==> (#[trigger] t[m]).0 == current,
                gp == count_at(t.subrange(j as int, n as int), true, current),
                gn == count_at(t.subrange(j as int, n as int), false, current),
                tp == count_positive_above(t.subrange(j as int, n as int), current),
                count_label(t.subrange(j as int, n as int), true) == tp + gp,
                count_label(t.subrange(j as int, n as int), false) == fp + gn,
                concordance(t.subrange(j as int, n as int)) == area + gn * (2 * tp + gp),
                tp + fp == n - i,
                gp + gn == i - j,
            decreases j,
        {
            proof {
                let x = t[j - 1];
                let s = t.subrange(j as int, n as int);
                let s2 = t.subrange(j - 1, n as int);
                assert(s2.skip(1) =~= s);
                assert(s2[0] == x);
                assert forall|m: int| 0 <= m < s.len() implies (#[trigger] s[m]).0 >= x.0 by {
                    assert(s[m] == t[j + m]);
                    if j + m >= i {
                        assert(t[i - 1].0 <= t[j + m].0);
                    }
                }
                lemma_row_at_least(x, s);
                lemma_column_at_least(s, x);
                if x.1 {
                    assert(area + gn * (2 * tp + gp) + gn == area + gn * (2 * tp + (gp + 1)))
                        by (nonlinear_arith);
                } else {
                    assert(area + gn * (2 * tp + gp) + (2 * tp + gp) == area + (gn + 1) * (2 * tp
                        + gp)) by (nonlinear_arith);
                }
            }
            if sorted[j - 1].1 {
                gp = gp + 1;
            } else {
                gn = gn + 1;
            }
            j = j - 1;
        }
        proof {
            if j > 0 {
                assert(t[j - 1].0 <= t[j as int].0);
            }
            let a = tp + gp;
            let b = fp + gn;
            assert(area + gn * (2 * tp + gp) <= 2 * a * b) by (nonlinear_arith)
                requires
                    area <= 2 * tp * fp,
                    a == tp + gp,
                    b == fp + gn,
                    tp >= 0,
                    fp >= 0,
                    gp >= 0,
                    gn >= 0,
            ;
            assert(gn * (2 * tp + gp) <= area + gn * (2 * tp + gp));
            lemma_pair_product_bound(a as int, b as int);
        }
        area = area + gn * (2 * tp + gp);
        tp = tp + gp;
        fp = fp + gn;
        i = j;
    }
    proof {
        assert(t.subrange(0, n as int) =~= t);
        lemma_count_labels(t);
    }
    if tp == 0 || fp == 0 {
        None
    } else {
        proof {
            lemma_pair_product_bound(tp as int, fp as int);
            assert(2 * tp * fp > 0) by (nonlinear_arith)
                requires
                    tp > 0,
                    fp > 0,
            ;
        }
        Some(Ratio { numerator: area, denominator: 2 * tp * fp })
    }
}

/// Twice the area under the ROC curve enclosed by the trapezoids of buckets `i` and above,
/// swept from the highest bucket down: each bucket adds its negatives times the positives
/// above it plus the positives above and in it.
pub open spec fn binned_area(pos: Seq<usize>, neg: Seq<usize>, i: int) -> int
    decreases pos.len() - i,
{
    if i < 0 || i >= pos.len() {
        0
    } else {
        binned_area(pos, neg, i + 1) + neg[i] * (2 * sum(pos.subrange(i + 1, pos.len() as int))
            + pos[i])
    }
}

/// The binned AUROC of two histograms, `binned_area / (2 * positives * negatives)`;
/// undefined without a positive or without a negative.
pub open spec fn spec_binned_auroc(pos: Seq<usize>, neg: Seq<usize>) -> Option<Ratio> {
    let p = sum(pos);
    let n = sum(neg);
    if p == 0 || n == 0 {
        None
    } else {
        Some(Ratio { numerator: binned_area(pos, neg, 0) as u128, denominator: (2 * p * n) as u128 })
    }
}

/// Sweeps the buckets from the highest down, adding each bucket's trapezoid.
pub fn binned_auroc(pos_hist: &Vec<usize>, neg_hist: &Vec<usize>) -> (r: Option<Ratio>)
    requires
        pos_hist@.len() == neg_hist@.len(),
        sum(pos_hist@) + sum(neg_hist@) <= usize::MAX,
    ensures
        r == spec_binned_auroc(pos_hist@, neg_hist@),
        r matches Some(q) ==> 0 < q.denominator && q.numerator <= q.denominator,
{
    let len = pos_hist.len();
    let ghost pos = pos_hist@;
    let ghost neg = neg_hist@;
    let mut tp: u128 = 0;
    let mut fp: u128 = 0;
    let mut area: u128 = 0;
    let mut b: usize = len;
    proof {
        assert(pos.subrange(len as int, len as int) =~= Seq::<usize>::empty());
        assert(neg.subrange(len as int, len as int) =~= Seq::<usize>::empty());
        lemma_sum_bounds(pos);
        lemma_sum_bounds(neg);
    }
    while b > 0
        invariant
            pos == pos_hist@,
            neg == neg_hist@,
            len == pos.len(),
            len == neg.len(),
            b <= len,
            sum(pos) + sum(neg) <= usize::MAX,
            sum(pos) >= 0,
            sum(neg) >= 0,
            tp == sum(pos.subrange(b as int, len as int)),
            fp == sum(neg.subrange(b as int, len as int)),
            area == binned_area(pos, neg, b as int),
            area <= 2 * tp * fp,
        decreases b,
    {
        let ghost bi = (b - 1) as int;
        proof {
            let ps = pos.subrange(bi, len as int);
            let ns = neg.subrange(bi, len as int);
            lemma_sum_first(ps);
            lemma_sum_first(ns);
            assert(ps.skip(1) =~= pos.subrange(bi + 1, len as int));
            assert(ns.skip(1) =~= neg.subrange(bi + 1, len as int));
            lemma_sum_split(pos, bi);
            lemma_sum_split(neg, bi);
            lemma_sum_bounds(pos.take(bi));
            lemma_sum_bounds(neg.take(bi));
            lemma_sum_bounds(ps);
            lemma_sum_bounds(ns);
        }
        let p = pos_hist[b - 1] as u128;
        let n = neg_hist[b - 1] as u128;
        proof {
            let a = tp + p;
            let c = fp + n;
            assert(area + n * (2 * tp + p) <= 2 * a * c) by (nonlinear_arith)
                requires
                    area <= 2 * tp * fp,
                    a == tp + p,
                    c == fp + n,
                    tp >= 0,
                    fp >= 0,
                    p >= 0,
                    n >= 0,
            ;
            assert(n * (2 * tp + p) <= area + n * (2 * tp + p));
            lemma_pair_product_bound(a as int, c as int);
        }
        area = area + n * (2 * tp + p);
        tp = tp + p;
        fp = fp + n;
        b = b - 1;
    }
    proof {
        assert(pos.subrange(0, len as int) =~= pos);
        assert(neg.subrange(0, len as int) =~= neg);
    }
    if tp == 0 || fp == 0 {
        None
    } else {
        proof {
            lemma_pair_product_bound(tp as int, fp as int);
            assert(2 * tp * fp > 0) by (nonlinear_arith)
                requires
                    tp > 0,
                    fp > 0,
            ;
        }
        Some(Ratio { numerator: area, denominator: 2 * tp * fp })
    }
}

/// The samples of a batch as the rank statistic sees them.
pub open spec fn ranked(predictions: Seq<Score>, targets: Seq<usize>) -> Seq<RankedSample> {
    Seq::new(predictions.len(), |i: int| (predictions[i].spec_rank() as u64, targets[i] == 1))
}

/// The samples of a batch with each score replaced by its bucket among `bins`.
pub open spec fn bucketed(predictions: Seq<Score>, targets: Seq<usize>, bins: nat) -> Seq<
    RankedSample,
> {
    Seq::new(
        predictions.len(),
        |i: int| (predictions[i].spec_bucket(bins) as u64, targets[i] == 1),
    )
}

/// How the AUROC accumulator keeps what it has seen, chosen once at construction.
#[derive(Clone, Debug)]
pub enum AurocMode {
    /// Every sample, as the rank of its score and its label.
    Exact { samples: Vec<RankedSample> },
    /// Two histograms over `bins` equal-width buckets of `[0, 1]`, one for positives and one
    /// for negatives.
    Binned { bins: usize, pos_hist: Vec<usize>, neg_hist: Vec<usize> },
}

/// ROC AUC for binary classification, exact or over a histogram of bucketed scores.
#[derive(Clone, Debug)]
pub struct BinaryAuroc {
    pub mode: AurocMode,
}

/// Appends the batch to the kept samples.
fn append_ranked(samples: &mut Vec<RankedSample>, predictions: &[Score], targets: &[usize])
    requires
        predictions@.len() == targets@.len(),
    ensures
        final(samples)@ == old(samples)@ + ranked(predictions@, targets@),
{
    let ghost start = samples@;
    let n = predictions.len();
    let mut i: usize = 0;
    while i < n
        invariant
            n == predictions@.len(),
            n == targets@.len(),
            i <= n,
            samples@ == start + ranked(predictions@, targets@).take(i as int),
        decreases n - i,
    {
        samples.push((predictions[i].rank(), targets[i] == 1));
        i = i + 1;
        proof {
            assert(samples@ =~= start + ranked(predictions@, targets@).take(i as int));
        }
    }
    proof {
        assert(ranked(predictions@, targets@).take(n as int) =~= ranked(predictions@, targets@));
    }
}

/// Counts the batch into the histograms.
fn fill_histograms(
    bins: usize,
    pos_hist: &mut Vec<usize>,
    neg_hist: &mut Vec<usize>,
    predictions: &[Score],
    targets: &[usize],
)
    requires
        bins >= 2,
        old(pos_hist)@.len() == bins,
        old(neg_hist)@.len() == bins,
        predictions@.len() == targets@.len(),
        forall|i: int| 0 <= i < predictions@.len() ==> (#[trigger] predictions@[i]).is_probability(),
        sum(old(pos_hist)@) + sum(old(neg_hist)@) + predictions@.len() <= usize::MAX,
    ensures
        final(pos_hist)@.len() == bins,
        final(neg_hist)@.len() == bins,
        sum(final(pos_hist)@) + sum(final(neg_hist)@) == sum(old(pos_hist)@) + sum(
            old(neg_hist)@,
        ) + predictions@.len(),
        forall|k: int|
            0 <= k < bins ==> #[trigger] final(pos_hist)@[k] == old(pos_hist)@[k] + count_at(
                bucketed(predictions@, targets@, bins as nat),
                true,
                k as u64,
            ),
        forall|k: int|
            0 <= k < bins ==> #[trigger] final(neg_hist)@[k] == old(neg_hist)@[k] + count_at(
                bucketed(predictions@, targets@, bins as nat),
                false,
                k as u64,
            ),
{
    let ghost pos0 = pos_hist@;
    let ghost neg0 = neg_hist@;
    let n = predictions.len();
    let mut i: usize = 0;
    while i < n
        invariant
            bins >= 2,
            n == predictions@.len(),
            n == targets@.len(),
            i <= n,
            pos_hist@.len() == bins,
            neg_hist@.len() == bins,
            forall|j: int| 0 <= j < n ==> (#[trigger] predictions@[j]).is_probability(),
            pos0.len() == bins,
            neg0.len() == bins,
            sum(pos0) + sum(neg0) + n <= usize::MAX,
            sum(pos_hist@) + sum(neg_hist@) == sum(pos0) + sum(neg0) + i,
            forall|k: int|
                0 <= k < bins ==> #[trigger] pos_hist@[k] == pos0[k] + count_at(
                    bucketed(predictions@, targets@, bins as nat).take(i as int),
                    true,
                    k as u64,
                ),
            forall|k: int|
                0 <= k < bins ==> #[trigger] neg_hist@[k] == neg0[k] + count_at(
                    bucketed(predictions@, targets@, bins as nat).take(i as int),
                    false,
                    k as u64,
                ),
        decreases n - i,
    {
        proof {
            assert(predictions@[i as int].is_probability());
        }
        let b = predictions[i].bucket(bins);
        proof {
            lemma_sum_bounds(pos_hist@);
            lemma_sum_bounds(neg_hist@);
            lemma_sum_bounds(pos0);
            lemma_sum_bounds(neg0);
        }
        if targets[i] == 1 {
            let v = pos_hist[b];
            let ghost prev = pos_hist@;
            pos_hist.set(b, v + 1);
            proof {
                lemma_sum_update(prev, b as int, (v + 1) as usize);
            }
        } else {
            let v = neg_hist[b];
            let ghost prev = neg_hist@;
            neg_hist.set(b, v + 1);
            proof {
                lemma_sum_update(prev, b as int, (v + 1) as usize);
            }
        }
        proof {
            let whole = bucketed(predictions@, targets@, bins as nat);
            assert(whole.take(i + 1) =~= whole.take(i as int).push(whole[i as int]));
            assert forall|k: int| 0 <= k < bins implies #[trigger] pos_hist@[k] == pos0[k]
                + count_at(whole.take(i + 1), true, k as u64) by {
                lemma_count_at_push(whole.take(i as int), whole[i as int], true, k as u64);
            }
            assert forall|k: int| 0 <= k < bins implies #[trigger] neg_hist@[k] == neg0[k]
                + count_at(whole.take(i + 1), false, k as u64) by {
                lemma_count_at_push(whole.take(i as int), whole[i as int], false, k as u64);
            }
        }
        i = i + 1;
    }
    proof {
        assert(bucketed(predictions@, targets@, bins as nat).take(n as int) =~= bucketed(
            predictions@,
            targets@,
            bins as nat,
        ));
    }
}

/// Sets every counter to zero.
fn clear_counts(v: &mut Vec<usize>)
    ensures
        final(v)@.len() == old(v)@.len(),
        forall|k: int| 0 <= k < final(v)@.len() ==> #[trigger] final(v)@[k] == 0,
        sum(final(v)@) == 0,
{
    let mut k: usize = 0;
    while k < v.len()
        invariant
            k <= v@.len(),
            v@.len() == old(v)@.len(),
            forall|j: int| 0 <= j < k ==> #[trigger] v@[j] == 0,
        decreases v@.len() - k,
    {
        v.set(k, 0);
        k = k + 1;
    }
    proof {
        lemma_sum_zeros(v@);
    }
}

impl Default for BinaryAuroc {
    /// A binned accumulator with a thousand buckets.
    fn default() -> (m: Self)
        ensures
            m.wf(),
            m.spec_bins() == 1000,
            m.sample_count() == 0,
    {
        Self::new(1000)
    }
}

impl BinaryAuroc {
    /// A binned accumulator has at least two buckets and two histograms of that length, and
    /// the number of samples it has counted fits in a `usize`.
    pub open spec fn wf(&self) -> bool {
        match self.mode {
            AurocMode::Exact { .. } => true,
            AurocMode::Binned { bins, pos_hist, neg_hist } => {
                &&& bins >= 2
                &&& pos_hist@.len() == bins
                &&& neg_hist@.len() == bins
                &&& sum(pos_hist@) + sum(neg_hist@) <= usize::MAX
            },
        }
    }

    /// The number of samples seen since construction or the last reset.
    pub open spec fn sample_count(&self) -> int {
        match self.mode {
            AurocMode::Exact { samples } => samples@.len() as int,
            AurocMode::Binned { pos_hist, neg_hist, .. } => sum(pos_hist@) + sum(neg_hist@),
        }
    }

    /// The number of buckets, zero in exact mode.
    pub open spec fn spec_bins(&self) -> nat {
        match self.mode {
            AurocMode::Exact { .. } => 0,
            AurocMode::Binned { bins, .. } => bins as nat,
        }
    }

    /// The AUROC of what has been seen: exact over the kept samples, or over the histograms.
    pub open spec fn spec_compute(&self) -> Option<Ratio> {
        match self.mode {
            AurocMode::Exact { samples } => spec_exact_auroc(samples@),
            AurocMode::Binned { pos_hist, neg_hist, .. } => spec_binned_auroc(
                pos_hist@,
                neg_hist@,
            ),
        }
    }

    /// `bins == 0` keeps every sample and computes the exact AUROC; `bins >= 2` keeps
    /// histograms over that many buckets. One bucket is not a valid choice.
    pub fn new(bins: usize) -> (m: Self)
        requires
            bins != 1,
        ensures
            m.wf(),
            m.spec_bins() == bins,
            m.sample_count() == 0,
            (bins == 0) == (m.mode is Exact),
    {
        if bins == 0 {
            BinaryAuroc { mode: AurocMode::Exact { samples: Vec::new() } }
        } else {
            let mut pos_hist: Vec<usize> = Vec::new();
            let mut neg_hist: Vec<usize> = Vec::new();
            let mut k: usize = 0;
            while k < bins
                invariant
                    k <= bins,
                    pos_hist@.len() == k,
                    neg_hist@.len() == k,
                    forall|j: int| 0 <= j < k ==> pos_hist@[j] == 0 && neg_hist@[j] == 0,
                decreases bins - k,
            {
                pos_hist.push(0);
                neg_hist.push(0);
                k = k + 1;
            }
            proof {
                lemma_sum_zeros(pos_hist@);
                lemma_sum_zeros(neg_hist@);
            }
            BinaryAuroc { mode: AurocMode::Binned { bins, pos_hist, neg_hist } }
        }
    }

    /// Adds one batch. Predictions must lie in `[0, 1]` and targets be `0` or `1`; a batch that
    /// is rejected leaves the accumulator unchanged.
    pub fn update(&mut self, predictions: &[Score], targets: &[usize]) -> (r: Result<
        (),
        MetricError,
    >)
        requires
            old(self).wf(),
            old(self).sample_count() + predictions@.len() <= usize::MAX,
        ensures
            final(self).wf(),
            r == binary_batch_verdict(predictions@, targets@),
            r is Err ==> *final(self) == *old(self),
            r is Ok ==> final(self).sample_count() == old(self).sample_count() + predictions@.len(),
            r is Ok ==> match (old(self).mode, final(self).mode) {
                (AurocMode::Exact { samples: before }, AurocMode::Exact { samples: after }) => after@
                    == before@ + ranked(predictions@, targets@),
                (
                    AurocMode::Binned { bins, pos_hist: p0, neg_hist: n0 },
                    AurocMode::Binned { bins: bins1, pos_hist: p1, neg_hist: n1 },
                ) => {
                    &&& bins1 == bins
                    &&& forall|k: int|
                        0 <= k < bins ==> #[trigger] p1@[k] == p0@[k] + count_at(
                bucketed(predictions@, targets@, bins as nat),
                true,
                k as u64,
            )
                    &&& forall|k: int|
                        0 <= k < bins ==> #[trigger] n1@[k] == n0@[k] + count_at(
                bucketed(predictions@, targets@, bins as nat),
                false,
                k as u64,
            )
                },
                _ => false,
            },
    {
        let verdict = BinaryStatScores::validate_batch(predictions, targets);
        if verdict.is_err() {
            return verdict;
        }
        proof {
            assert forall|i: int| 0 <= i < predictions@.len() implies (#[trigger] predictions@[i]).is_probability() by {
                if !predictions@[i].is_probability() {
                    assert(!valid_binary_sample(predictions@[i], targets@[i]));
                }
            }
        }
        match &mut self.mode {
            AurocMode::Exact { samples } => {
                append_ranked(samples, predictions, targets);
            },
            AurocMode::Binned { bins, pos_hist, neg_hist } => {
                fill_histograms(*bins, pos_hist, neg_hist, predictions, targets);
            },
        }
        Ok(())
    }

    /// Forgets every sample; the mode and the number of buckets stay.
    pub fn reset(&mut self)
        requires
            old(self).wf(),
        ensures
            final(self).wf(),
            final(self).spec_bins() == old(self).spec_bins(),
            final(self).sample_count() == 0,
            final(self).spec_compute() is None,
    {
        match &mut self.mode {
            AurocMode::Exact { samples } => {
                samples.clear();
            },
            AurocMode::Binned { pos_hist, neg_hist, .. } => {
                clear_counts(pos_hist);
                clear_counts(neg_hist);
            },
        }
        proof {
            if let AurocMode::Exact { samples } = &self.mode {
                assert(count_label(samples@, true) == 0);
            }
        }
    }

    /// The AUROC of every sample seen so far, or `None` while there is no positive or no
    /// negative among them. It lies in `[0, 1]`.
    pub fn compute(&self) -> (r: Option<Ratio>)
        requires
            self.wf(),
        ensures
            r == self.spec_compute(),
            r matches Some(q) ==> 0 < q.denominator && q.numerator <= q.denominator,
    {
        match &self.mode {
            AurocMode::Exact { samples } => exact_auroc(samples),
            AurocMode::Binned { pos_hist, neg_hist, .. } => binned_auroc(pos_hist, neg_hist),
        }
    }
}

/// The exact AUROC is rank-based: rescaling every score by a strictly increasing map (any map
/// that keeps the order of every two scores) leaves it unchanged.
pub proof fn lemma_auroc_rescaling_invariant(
    scores: Seq<Score>,
    rescaled: Seq<Score>,
    targets: Seq<usize>,
)
    requires
        scores.len() == targets.len(),
        rescaled.len() == targets.len(),
        forall|i: int, j: int|
            0 <= i < scores.len() && 0 <= j < scores.len() ==> ((#[trigger] scores[i]).spec_rank()
                < (#[trigger] scores[j]).spec_rank()) == (rescaled[i].spec_rank()
                < rescaled[j].spec_rank()),
    ensures
        spec_exact_auroc(ranked(scores, targets)) == spec_exact_auroc(ranked(rescaled, targets)),
{
    let s = ranked(scores, targets);
    let t = ranked(rescaled, targets);
    assert forall|i: int, j: int| 0 <= i < s.len() && 0 <= j < s.len() implies ((
    #[trigger] s[i]).0 < (#[trigger] s[j]).0) == (t[i].0 < t[j].0) by {
        assert(scores[i].spec_rank() <= u64::MAX);
        assert(scores[j].spec_rank() <= u64::MAX);
        assert(rescaled[i].spec_rank() <= u64::MAX);
        assert(rescaled[j].spec_rank() <= u64::MAX);
        assert((scores[i].spec_rank() < scores[j].spec_rank()) == (rescaled[i].spec_rank()
            < rescaled[j].spec_rank()));
    }
    lemma_concordance_same_order(s, t);
}

/// The histogram of the samples over `bins` buckets of rank: how many samples with the label
/// `positive` sit at each rank below `bins`.
pub open spec fn histogram(samples: Seq<RankedSample>, bins: nat, positive: bool) -> Seq<usize> {
    Seq::new(bins, |k: int| count_at(samples, positive, k as u64) as usize)
}

/// Changing one counter changes the sum of any range holding it by the same amount.
proof fn lemma_sum_range_update(s: Seq<usize>, j: int, v: usize, a: int, b: int)
    requires
        0 <= a <= b <= s.len(),
        0 <= j < s.len(),
    ensures
        sum(s.update(j, v).subrange(a, b)) == sum(s.subrange(a, b)) + if a <= j < b {
            v - s[j]
        } else {
            0
        },
{
    if a <= j < b {
        assert(s.update(j, v).subrange(a, b) =~= s.subrange(a, b).update(j - a, v));
        lemma_sum_update(s.subrange(a, b), j - a, v);
    } else {
        assert(s.update(j, v).subrange(a, b) =~= s.subrange(a, b));
    }
}

/// One more negative in bucket `c` adds its trapezoid: the positives above it twice and those
/// beside it once.
proof fn lemma_area_negative_added(pos: Seq<usize>, neg: Seq<usize>, c: int, i: int)
    requires
        pos.len() == neg.len(),
        0 <= c < neg.len(),
        0 <= i <= neg.len(),
        neg[c] < usize::MAX,
    ensures
        binned_area(pos, neg.update(c, (neg[c] + 1) as usize), i) == binned_area(pos, neg, i)
            + if i <= c {
            2 * sum(pos.subrange(c + 1, pos.len() as int)) + pos[c]
        } else {
            0
        },
    decreases neg.len() - i,
{
    if i < neg.len() {
        lemma_area_negative_added(pos, neg, c, i + 1);
        let x = 2 * sum(pos.subrange(i + 1, pos.len() as int)) + pos[i];
        if i == c {
            assert((neg[c] + 1) * x == neg[c] * x + x) by (nonlinear_arith);
        }
    }
}

/// One more positive in bucket `c` counts twice against each negative below it and once
/// against those beside it.
proof fn lemma_area_positive_added(pos: Seq<usize>, neg: Seq<usize>, c: int, i: int)
    requires
        pos.len() == neg.len(),
        0 <= c < pos.len(),
        0 <= i <= pos.len(),
        pos[c] < usize::MAX,
    ensures
        binned_area(pos.update(c, (pos[c] + 1) as usize), neg, i) == binned_area(pos, neg, i)
            + if i <= c {
            2 * sum(neg.subrange(i, c)) + neg[c]
        } else {
            0
        },
    decreases pos.len() - i,
{
    let len = pos.len() as int;
    let p2 = pos.update(c, (pos[c] + 1) as usize);
    if i < len {
        lemma_area_positive_added(pos, neg, c, i + 1);
        lemma_sum_range_update(pos, c, (pos[c] + 1) as usize, i + 1, len);
        let above = sum(pos.subrange(i + 1, len));
        if i < c {
            assert(sum(p2.subrange(i + 1, len)) == above + 1);
            assert(p2[i] == pos[i]);
            assert(neg[i] * (2 * (above + 1) + pos[i]) == neg[i] * (2 * above + pos[i]) + 2
                * neg[i]) by (nonlinear_arith);
            let r = neg.subrange(i, c);
            lemma_sum_first(r);
            assert(r.skip(1) =~= neg.subrange(i + 1, c));
        } else if i == c {
            assert(sum(p2.subrange(i + 1, len)) == above);
            assert(neg[i] * (2 * above + (pos[i] + 1)) == neg[i] * (2 * above + pos[i]) + neg[i])
                by (nonlinear_arith);
            assert(neg.subrange(c, c) =~= Seq::<usize>::empty());
        } else {
            assert(sum(p2.subrange(i + 1, len)) == above);
            assert(p2[i] == pos[i]);
        }
    }
}

/// No negatives, no area.
proof fn lemma_area_without_negatives(pos: Seq<usize>, neg: Seq<usize>, i: int)
    requires
        pos.len() == neg.len(),
        0 <= i <= neg.len(),
        forall|k: int| 0 <= k < neg.len() ==> neg[k] == 0,
    ensures
        binned_area(pos, neg, i) == 0,
    decreases neg.len() - i,
{
    if i < neg.len() {
        lemma_area_without_negatives(pos, neg, i + 1);
    }
}

/// A negative sample pairs with nothing as the first of a pair, a positive sample as the
/// second.
proof fn lemma_unpaired(x: RankedSample, s: Seq<RankedSample>)
    ensures
        !x.1 ==> row_weight(x, s) == 0,
        x.1 ==> column_weight(s, x) == 0,
    decreases s.len(),
{
    if s.len() > 0 {
        lemma_unpaired(x, s.skip(1));
    }
}

/// Prepending a sample bumps its bucket in the histogram of its label.
proof fn lemma_histogram_step(t: Seq<RankedSample>, bins: nat, positive: bool)
    requires
        t.len() > 0,
        t.len() <= usize::MAX,
        t[0].0 < bins,
        bins <= usize::MAX,
    ensures
        histogram(t, bins, positive) == if t[0].1 == positive {
            histogram(t.skip(1), bins, positive).update(
                t[0].0 as int,
                (histogram(t.skip(1), bins, positive)[t[0].0 as int] + 1) as usize,
            )
        } else {
            histogram(t.skip(1), bins, positive)
        },
{
    let r = t.skip(1);
    assert forall|k: int| 0 <= k < bins implies #[trigger] count_at(t, positive, k as u64)
        <= usize::MAX && count_at(r, positive, k as u64) < usize::MAX by {
        lemma_count_at_bounded(t, positive, k as u64);
        lemma_count_at_bounded(r, positive, k as u64);
    }
    assert forall|k: int| 0 <= k < bins implies #[trigger] count_at(t, positive, k as u64) == (
    if t[0].1 == positive && t[0].0 == k as u64 {
        1nat
    } else {
        0nat
    }) + count_at(r, positive, k as u64) by {}
    if t[0].1 == positive {
        assert(histogram(t, bins, positive) =~= histogram(r, bins, positive).update(
            t[0].0 as int,
            (histogram(r, bins, positive)[t[0].0 as int] + 1) as usize,
        ));
    } else {
        assert(histogram(t, bins, positive) =~= histogram(r, bins, positive));
    }
}

/// Range sums of the histograms count the samples in those ranges.
proof fn lemma_histogram_sums(t: Seq<RankedSample>, bins: nat)
    requires
        t.len() <= usize::MAX,
        bins <= usize::MAX,
        forall|i: int| 0 <= i < t.len() ==> (#[trigger] t[i]).0 < bins,
    ensures
        forall|c: int|
            0 <= c < bins ==> sum(#[trigger] histogram(t, bins, false).subrange(0, c))
                == count_negative_below(t, c as u64),
        forall|c: int|
            0 <= c < bins ==> sum(#[trigger] histogram(t, bins, true).subrange(c + 1, bins as int))
                == count_positive_above(t, c as u64),
        sum(histogram(t, bins, true)) == count_label(t, true),
        sum(histogram(t, bins, false)) == count_label(t, false),
    decreases t.len(),
{
    if t.len() == 0 {
        assert forall|c: int| 0 <= c < bins implies sum(
            #[trigger] histogram(t, bins, false).subrange(0, c),
        ) == count_negative_below(t, c as u64) by {
            lemma_sum_zeros(histogram(t, bins, false).subrange(0, c));
        }
        assert forall|c: int| 0 <= c < bins implies sum(
            #[trigger] histogram(t, bins, true).subrange(c + 1, bins as int),
        ) == count_positive_above(t, c as u64) by {
            lemma_sum_zeros(histogram(t, bins, true).subrange(c + 1, bins as int));
        }
        lemma_sum_zeros(histogram(t, bins, true));
        lemma_sum_zeros(histogram(t, bins, false));
    } else {
        let r = t.skip(1);
        let x = t[0];
        assert forall|i: int| 0 <= i < r.len() implies (#[trigger] r[i]).0 < bins by {
            assert(r[i] == t[i + 1]);
        }
        lemma_histogram_sums(r, bins);
        assert(x.0 < bins);
        lemma_histogram_step(t, bins, true);
        lemma_histogram_step(t, bins, false);
        let hp = histogram(r, bins, true);
        let hn = histogram(r, bins, false);
        let b = x.0 as int;
        lemma_count_at_bounded(r, true, x.0);
        lemma_count_at_bounded(r, false, x.0);
        assert(hp[b] == count_at(r, true, x.0));
        assert(hn[b] == count_at(r, false, x.0));
        assert forall|c: int| 0 <= c < bins implies sum(
            #[trigger] histogram(t, bins, false).subrange(0, c),
        ) == count_negative_below(t, c as u64) by {
            assert(sum(hn.subrange(0, c)) == count_negative_below(r, c as u64));
            if !x.1 {
                lemma_sum_range_update(hn, b, (hn[b] + 1) as usize, 0, c);
            }
        }
        assert forall|c: int| 0 <= c < bins implies sum(
            #[trigger] histogram(t, bins, true).subrange(c + 1, bins as int),
        ) == count_positive_above(t, c as u64) by {
            assert(sum(hp.subrange(c + 1, bins as int)) == count_positive_above(r, c as u64));
            if x.1 {
                lemma_sum_range_update(hp, b, (hp[b] + 1) as usize, c + 1, bins as int);
            }
        }
        if x.1 {
            lemma_sum_update(hp, b, (hp[b] + 1) as usize);
        } else {
            lemma_sum_update(hn, b, (hn[b] + 1) as usize);
        }
    }
}

/// The trapezoid sweep over the histograms of the samples measures their concordance.
proof fn lemma_histogram_area(t: Seq<RankedSample>, bins: nat)
    requires
        t.len() <= usize::MAX,
        bins <= usize::MAX,
        forall|i: int| 0 <= i < t.len() ==> (#[trigger] t[i]).0 < bins,
    ensures
        binned_area(histogram(t, bins, true), histogram(t, bins, false), 0) == concordance(t),
    decreases t.len(),
{
    if t.len() == 0 {
        lemma_area_without_negatives(histogram(t, bins, true), histogram(t, bins, false), 0);
    } else {
        let r = t.skip(1);
        let x = t[0];
        assert forall|i: int| 0 <= i < r.len() implies (#[trigger] r[i]).0 < bins by {
            assert(r[i] == t[i + 1]);
        }
        lemma_histogram_area(r, bins);
        lemma_histogram_sums(r, bins);
        lemma_histogram_step(t, bins, true);
        lemma_histogram_step(t, bins, false);
        lemma_unpaired(x, r);
        let hp = histogram(r, bins, true);
        let hn = histogram(r, bins, false);
        let c = x.0 as int;
        assert(x.0 < bins);
        lemma_count_at_bounded(r, true, x.0);
        lemma_count_at_bounded(r, false, x.0);
        assert(hp[c] == count_at(r, true, x.0));
        assert(hn[c] == count_at(r, false, x.0));
        if x.1 {
            lemma_row_positive(x, r);
            lemma_area_positive_added(hp, hn, c, 0);
        } else {
            lemma_column_negative(r, x);
            lemma_area_negative_added(hp, hn, c, 0);
        }
    }
}

/// Binned and exact AUROC agree whenever the bucketing keeps the order of the scores, as it
/// does for any fixed batch once the buckets are fine enough to separate its distinct scores:
/// the histograms that a fresh binned accumulator builds from the batch give the exact AUROC
/// of the batch.
pub proof fn lemma_binned_matches_exact(predictions: Seq<Score>, targets: Seq<usize>, bins: nat)
    requires
        predictions.len() == targets.len(),
        predictions.len() <= usize::MAX,
        2 <= bins <= usize::MAX,
        forall|i: int| 0 <= i < predictions.len() ==> (#[trigger] predictions[i]).is_probability(),
        forall|i: int, j: int|
            0 <= i < predictions.len() && 0 <= j < predictions.len() ==> ((
            #[trigger] predictions[i]).spec_rank() < (#[trigger] predictions[j]).spec_rank()) == (
            predictions[i].spec_bucket(bins) < predictions[j].spec_bucket(bins)),
    ensures
        ({
            let b = bucketed(predictions, targets, bins);
            spec_binned_auroc(histogram(b, bins, true), histogram(b, bins, false))
                == spec_exact_auroc(ranked(predictions, targets))
        }),
{
    let b = bucketed(predictions, targets, bins);
    let s = ranked(predictions, targets);
    assert forall|i: int| 0 <= i < b.len() implies (#[trigger] b[i]).0 < bins by {
        predictions[i].lemma_bucket_in_range(bins);
    }
    assert forall|i: int, j: int| 0 <= i < s.len() && 0 <= j < s.len() implies ((
    #[trigger] s[i]).0 < (#[trigger] s[j]).0) == (b[i].0 < b[j].0) by {
        predictions[i].lemma_bucket_in_range(bins);
        predictions[j].lemma_bucket_in_range(bins);
        assert(predictions[i].spec_rank() <= u64::MAX);
        assert(predictions[j].spec_rank() <= u64::MAX);
        assert((predictions[i].spec_rank() < predictions[j].spec_rank()) == (
        predictions[i].spec_bucket(bins) < predictions[j].spec_bucket(bins)));
    }
    lemma_concordance_same_order(s, b);
    lemma_histogram_area(b, bins);
    lemma_histogram_sums(b, bins);
}


/// Exact and binned AUROC converge: once every two distinct scores of a batch lie at least one
/// bucket width `1 / (bins - 1)` apart, the histograms that a fresh binned accumulator builds
/// from the batch give exactly its exact AUROC (so the two differ by less than any bound).
pub proof fn lemma_binned_converges_to_exact(
    predictions: Seq<Score>,
    targets: Seq<usize>,
    bins: nat,
)
    requires
        predictions.len() == targets.len(),
        predictions.len() <= usize::MAX,
        2 <= bins <= usize::MAX,
        forall|i: int| 0 <= i < predictions.len() ==> (#[trigger] predictions[i]).is_probability(),
        forall|i: int, j: int|
            0 <= i < predictions.len() && 0 <= j < predictions.len() && (
            #[trigger] predictions[i]).spec_rank() < (#[trigger] predictions[j]).spec_rank()
                ==> predictions[i].bucket_width_below(predictions[j], bins),
    ensures
        ({
            let b = bucketed(predictions, targets, bins);
            spec_binned_auroc(histogram(b, bins, true), histogram(b, bins, false))
                == spec_exact_auroc(ranked(predictions, targets))
        }),
{
    assert forall|i: int, j: int|
        0 <= i < predictions.len() && 0 <= j < predictions.len() implies ((
    #[trigger] predictions[i]).spec_rank() < (#[trigger] predictions[j]).spec_rank()) == (
    predictions[i].spec_bucket(bins) < predictions[j].spec_bucket(bins)) by {
        let x = predictions[i];
        let y = predictions[j];
        if x.spec_rank() < y.spec_rank() {
            x.lemma_separated_buckets(y, bins);
        } else if y.spec_rank() < x.spec_rank() {
            y.lemma_separated_buckets(x, bins);
        } else {
            x.lemma_same_rank_same_bucket(y, bins);
        }
    }
    lemma_binned_matches_exact(predictions, targets, bins);
}

} // verus!
