//! Rank statistics over labelled samples: the pairwise concordance that AUROC measures, and
//! the facts that let a single sweep over sorted samples compute it.
use vstd::prelude::*;

verus! {

/// A sample as the rank statistic sees it: the rank of its score and whether it is positive.
pub type RankedSample = (u64, bool);

/// What the pair (positive `a`, negative `b`) contributes, in half-units: two when the
/// positive scores higher, one for a tie, nothing otherwise or when the labels do not form
/// such a pair.
pub open spec fn pair_weight(a: RankedSample, b: RankedSample) -> int {
    if a.1 && !b.1 {
        if a.0 > b.0 {
            2
        } else if a.0 == b.0 {
            1
        } else {
            0
        }
    } else {
        0
    }
}

/// `sum(pair_weight(a, b))` over the samples `b` of `t`.
pub open spec fn row_weight(a: RankedSample, t: Seq<RankedSample>) -> int
    decreases t.len(),
{
    if t.len() == 0 {
        0
    } else {
        pair_weight(a, t[0]) + row_weight(a, t.skip(1))
    }
}

/// `sum(pair_weight(a, b))` over the samples `a` of `t`.
pub open spec fn column_weight(t: Seq<RankedSample>, b: RankedSample) -> int
    decreases t.len(),
{
    if t.len() == 0 {
        0
    } else {
        pair_weight(t[0], b) + column_weight(t.skip(1), b)
    }
}

/// Twice the number of (positive, negative) pairs in which the positive scores higher, ties
/// counting one half: `sum(pair_weight(s[i], s[j]))` over all `i` and `j`.
pub open spec fn concordance(s: Seq<RankedSample>) -> int
    decreases s.len(),
{
    if s.len() == 0 {
        0
    } else {
        let rest = s.skip(1);
        pair_weight(s[0], s[0]) + row_weight(s[0], rest) + column_weight(rest, s[0]) + concordance(
            rest,
        )
    }
}

/// The number of samples whose label is `positive`.
pub open spec fn count_label(s: Seq<RankedSample>, positive: bool) -> nat
    decreases s.len(),
{
    if s.len() == 0 {
        0
    } else {
        (if s[0].1 == positive {
            1nat
        } else {
            0nat
        }) + count_label(s.skip(1), positive)
    }
}

/// The number of samples whose label is `positive` and whose rank is `rank`.
pub open spec fn count_at(s: Seq<RankedSample>, positive: bool, rank: u64) -> nat
    decreases s.len(),
{
    if s.len() == 0 {
        0
    } else {
        (if s[0].1 == positive && s[0].0 == rank {
            1nat
        } else {
            0nat
        }) + count_at(s.skip(1), positive, rank)
    }
}

/// The number of positive samples ranked above `rank`.
pub open spec fn count_positive_above(s: Seq<RankedSample>, rank: u64) -> nat
    decreases s.len(),
{
    if s.len() == 0 {
        0
    } else {
        (if s[0].1 && s[0].0 > rank {
            1nat
        } else {
            0nat
        }) + count_positive_above(s.skip(1), rank)
    }
}

/// Removing one sample from `t` takes its pair out of the row.
pub proof fn lemma_row_remove(a: RankedSample, t: Seq<RankedSample>, k: int)
    requires
        0 <= k < t.len(),
    ensures
        row_weight(a, t) == row_weight(a, t.remove(k)) + pair_weight(a, t[k]),
    decreases k,
{
    if k == 0 {
        assert(t.remove(0) =~= t.skip(1));
    } else {
        let u = t.skip(1);
        lemma_row_remove(a, u, k - 1);
        assert(t.remove(k).skip(1) =~= u.remove(k - 1));
        assert(t.remove(k)[0] == t[0]);
        assert(u[k - 1] == t[k]);
    }
}

/// Removing one sample from `t` takes its pair out of the column.
pub proof fn lemma_column_remove(t: Seq<RankedSample>, b: RankedSample, k: int)
    requires
        0 <= k < t.len(),
    ensures
        column_weight(t, b) == column_weight(t.remove(k), b) + pair_weight(t[k], b),
    decreases k,
{
    if k == 0 {
        assert(t.remove(0) =~= t.skip(1));
    } else {
        let u = t.skip(1);
        lemma_column_remove(u, b, k - 1);
        assert(t.remove(k).skip(1) =~= u.remove(k - 1));
        assert(t.remove(k)[0] == t[0]);
        assert(u[k - 1] == t[k]);
    }
}

/// Removing one sample takes every pair it belongs to out of the concordance.
pub proof fn lemma_concordance_remove(t: Seq<RankedSample>, k: int)
    requires
        0 <= k < t.len(),
    ensures
        concordance(t) == concordance(t.remove(k)) + row_weight(t[k], t.remove(k))
            + column_weight(t.remove(k), t[k]) + pair_weight(t[k], t[k]),
    decreases k,
{
    if k == 0 {
        assert(t.remove(0) =~= t.skip(1));
    } else {
        let y = t[0];
        let x = t[k];
        let u = t.skip(1);
        let u2 = u.remove(k - 1);
        let t2 = t.remove(k);
        assert(u[k - 1] == x);
        lemma_concordance_remove(u, k - 1);
        lemma_row_remove(y, u, k - 1);
        lemma_column_remove(u, y, k - 1);
        assert(t2.skip(1) =~= u2);
        assert(t2[0] == y);
    }
}

/// Removing one sample takes it out of the count of its label.
pub proof fn lemma_count_label_remove(t: Seq<RankedSample>, positive: bool, k: int)
    requires
        0 <= k < t.len(),
    ensures
        count_label(t, positive) == count_label(t.remove(k), positive) + if t[k].1 == positive {
            1nat
        } else {
            0nat
        },
    decreases k,
{
    if k == 0 {
        assert(t.remove(0) =~= t.skip(1));
    } else {
        let u = t.skip(1);
        lemma_count_label_remove(u, positive, k - 1);
        assert(t.remove(k).skip(1) =~= u.remove(k - 1));
        assert(t.remove(k)[0] == t[0]);
        assert(u[k - 1] == t[k]);
    }
}

/// The sample `s[0]` occurs in `t`, and what is left of both holds the same samples.
proof fn lemma_split_first(s: Seq<RankedSample>, t: Seq<RankedSample>) -> (k: int)
    requires
        s.len() > 0,
        s.to_multiset() == t.to_multiset(),
    ensures
        0 <= k < t.len(),
        t[k] == s[0],
        s.skip(1).to_multiset() == t.remove(k).to_multiset(),
{
    broadcast use vstd::seq_lib::group_to_multiset_ensures;

    assert(s.to_multiset().count(s[0]) > 0) by {
        assert(s.contains(s[0]));
    }
    assert(t.contains(s[0]));
    let k = choose|k: int| 0 <= k < t.len() && t[k] == s[0];
    assert(s.remove(0) =~= s.skip(1));
    vstd::seq_lib::to_multiset_remove(s, 0);
    vstd::seq_lib::to_multiset_remove(t, k);
    k
}

/// Rows depend only on which samples the sequence holds, not on their order.
pub proof fn lemma_row_permutation(a: RankedSample, s: Seq<RankedSample>, t: Seq<RankedSample>)
    requires
        s.to_multiset() == t.to_multiset(),
    ensures
        row_weight(a, s) == row_weight(a, t),
    decreases s.len(),
{
    broadcast use vstd::seq_lib::group_to_multiset_ensures;

    if s.len() == 0 {
        assert(t.to_multiset().len() == 0);
    } else {
        let k = lemma_split_first(s, t);
        lemma_row_permutation(a, s.skip(1), t.remove(k));
        lemma_row_remove(a, t, k);
    }
}

/// Columns depend only on which samples the sequence holds, not on their order.
pub proof fn lemma_column_permutation(s: Seq<RankedSample>, t: Seq<RankedSample>, b: RankedSample)
    requires
        s.to_multiset() == t.to_multiset(),
    ensures
        column_weight(s, b) == column_weight(t, b),
    decreases s.len(),
{
    broadcast use vstd::seq_lib::group_to_multiset_ensures;

    if s.len() == 0 {
        assert(t.to_multiset().len() == 0);
    } else {
        let k = lemma_split_first(s, t);
        lemma_column_permutation(s.skip(1), t.remove(k), b);
        lemma_column_remove(t, b, k);
    }
}

/// The concordance and the label counts depend only on which samples the sequence holds.
pub proof fn lemma_concordance_permutation(s: Seq<RankedSample>, t: Seq<RankedSample>)
    requires
        s.to_multiset() == t.to_multiset(),
    ensures
        concordance(s) == concordance(t),
        count_label(s, true) == count_label(t, true),
        count_label(s, false) == count_label(t, false),
    decreases s.len(),
{
    broadcast use vstd::seq_lib::group_to_multiset_ensures;

    if s.len() == 0 {
        assert(t.to_multiset().len() == 0);
    } else {
        let k = lemma_split_first(s, t);
        let rest = s.skip(1);
        let t2 = t.remove(k);
        lemma_concordance_permutation(rest, t2);
        lemma_concordance_remove(t, k);
        lemma_row_permutation(s[0], rest, t2);
        lemma_column_permutation(rest, t2, s[0]);
        lemma_count_label_remove(t, true, k);
        lemma_count_label_remove(t, false, k);
    }
}

/// Against samples ranked no lower than `x`, a positive `x` pairs only with the negatives tied
/// with it.
pub proof fn lemma_row_at_least(x: RankedSample, s: Seq<RankedSample>)
    requires
        forall|i: int| 0 <= i < s.len() ==> (#[trigger] s[i]).0 >= x.0,
    ensures
        row_weight(x, s) == if x.1 {
            count_at(s, false, x.0) as int
        } else {
            0int
        },
    decreases s.len(),
{
    if s.len() > 0 {
        let rest = s.skip(1);
        assert forall|i: int| 0 <= i < rest.len() implies (#[trigger] rest[i]).0 >= x.0 by {
            assert(rest[i] == s[i + 1]);
        }
        lemma_row_at_least(x, rest);
        assert(s[0].0 >= x.0);
    }
}

/// Against samples ranked no lower than `x`, a negative `x` counts twice each positive ranked
/// above it and once each positive tied with it.
pub proof fn lemma_column_at_least(s: Seq<RankedSample>, x: RankedSample)
    requires
        forall|i: int| 0 <= i < s.len() ==> (#[trigger] s[i]).0 >= x.0,
    ensures
        column_weight(s, x) == if !x.1 {
            2 * count_positive_above(s, x.0) + count_at(s, true, x.0) as int
        } else {
            0int
        },
    decreases s.len(),
{
    if s.len() > 0 {
        let rest = s.skip(1);
        assert forall|i: int| 0 <= i < rest.len() implies (#[trigger] rest[i]).0 >= x.0 by {
            assert(rest[i] == s[i + 1]);
        }
        lemma_column_at_least(rest, x);
        assert(s[0].0 >= x.0);
    }
}

/// When every sample is ranked above `rank`, none is tied with it and every positive is above.
pub proof fn lemma_counts_above(s: Seq<RankedSample>, rank: u64)
    requires
        forall|i: int| 0 <= i < s.len() ==> (#[trigger] s[i]).0 > rank,
    ensures
        count_positive_above(s, rank) == count_label(s, true),
        count_at(s, true, rank) == 0,
        count_at(s, false, rank) == 0,
    decreases s.len(),
{
    if s.len() > 0 {
        let rest = s.skip(1);
        assert forall|i: int| 0 <= i < rest.len() implies (#[trigger] rest[i]).0 > rank by {
            assert(rest[i] == s[i + 1]);
        }
        lemma_counts_above(rest, rank);
        assert(s[0].0 > rank);
    }
}

/// Every sample is positive or negative.
pub proof fn lemma_count_labels(s: Seq<RankedSample>)
    ensures
        count_label(s, true) + count_label(s, false) == s.len(),
    decreases s.len(),
{
    if s.len() > 0 {
        lemma_count_labels(s.skip(1));
    }
}

/// Two sequences whose samples pair off with equal weights have equal rows.
proof fn lemma_row_matching(a: RankedSample, s: Seq<RankedSample>, b: RankedSample, t: Seq<RankedSample>)
    requires
        s.len() == t.len(),
        forall|j: int| 0 <= j < s.len() ==> pair_weight(a, #[trigger] s[j]) == pair_weight(b, t[j]),
    ensures
        row_weight(a, s) == row_weight(b, t),
    decreases s.len(),
{
    if s.len() > 0 {
        assert(pair_weight(a, s[0]) == pair_weight(b, t[0]));
        assert forall|j: int| 0 <= j < s.skip(1).len() implies pair_weight(a, #[trigger] s.skip(1)[j])
            == pair_weight(b, t.skip(1)[j]) by {
            assert(s.skip(1)[j] == s[j + 1]);
            assert(t.skip(1)[j] == t[j + 1]);
        }
        lemma_row_matching(a, s.skip(1), b, t.skip(1));
    }
}

/// Two sequences whose samples pair off with equal weights have equal columns.
proof fn lemma_column_matching(s: Seq<RankedSample>, a: RankedSample, t: Seq<RankedSample>, b: RankedSample)
    requires
        s.len() == t.len(),
        forall|j: int| 0 <= j < s.len() ==> pair_weight(#[trigger] s[j], a) == pair_weight(t[j], b),
    ensures
        column_weight(s, a) == column_weight(t, b),
    decreases s.len(),
{
    if s.len() > 0 {
        assert(pair_weight(s[0], a) == pair_weight(t[0], b));
        assert forall|j: int| 0 <= j < s.skip(1).len() implies pair_weight(#[trigger] s.skip(1)[j], a)
            == pair_weight(t.skip(1)[j], b) by {
            assert(s.skip(1)[j] == s[j + 1]);
            assert(t.skip(1)[j] == t[j + 1]);
        }
        lemma_column_matching(s.skip(1), a, t.skip(1), b);
    }
}

/// True when `s` and `t` hold the same labels and their ranks are ordered alike: one is the
/// other under a strictly increasing map of ranks.
pub open spec fn same_order(s: Seq<RankedSample>, t: Seq<RankedSample>) -> bool {
    &&& s.len() == t.len()
    &&& forall|i: int| 0 <= i < s.len() ==> (#[trigger] s[i]).1 == t[i].1
    &&& forall|i: int, j: int|
        0 <= i < s.len() && 0 <= j < s.len() ==> ((#[trigger] s[i]).0 < (#[trigger] s[j]).0)
            == (t[i].0 < t[j].0)
}

/// The concordance and the label counts see only the order of the ranks.
pub proof fn lemma_concordance_same_order(s: Seq<RankedSample>, t: Seq<RankedSample>)
    requires
        same_order(s, t),
    ensures
        concordance(s) == concordance(t),
        count_label(s, true) == count_label(t, true),
        count_label(s, false) == count_label(t, false),
    decreases s.len(),
{
    if s.len() > 0 {
        let s1 = s.skip(1);
        let t1 = t.skip(1);
        assert forall|i: int, j: int| 0 <= i < s.len() && 0 <= j < s.len() implies pair_weight(
            #[trigger] s[i],
            #[trigger] s[j],
        ) == pair_weight(t[i], t[j]) by {
            assert(s[i].1 == t[i].1);
            assert(s[j].1 == t[j].1);
            assert((s[i].0 < s[j].0) == (t[i].0 < t[j].0));
            assert((s[j].0 < s[i].0) == (t[j].0 < t[i].0));
        }
        assert forall|j: int| 0 <= j < s1.len() implies pair_weight(s[0], #[trigger] s1[j])
            == pair_weight(t[0], t1[j]) by {
            assert(s1[j] == s[j + 1]);
            assert(t1[j] == t[j + 1]);
            assert(pair_weight(s[0], s[j + 1]) == pair_weight(t[0], t[j + 1]));
        }
        assert forall|j: int| 0 <= j < s1.len() implies pair_weight(#[trigger] s1[j], s[0])
            == pair_weight(t1[j], t[0]) by {
            assert(s1[j] == s[j + 1]);
            assert(t1[j] == t[j + 1]);
            assert(pair_weight(s[j + 1], s[0]) == pair_weight(t[j + 1], t[0]));
        }
        assert(pair_weight(s[0], s[0]) == pair_weight(t[0], t[0]));
        lemma_row_matching(s[0], s1, t[0], t1);
        lemma_column_matching(s1, s[0], t1, t[0]);
        assert(s[0].1 == t[0].1);
        assert forall|i: int| 0 <= i < s1.len() implies (#[trigger] s1[i]).1 == t1[i].1 by {
            assert(s1[i] == s[i + 1]);
            assert(t1[i] == t[i + 1]);
        }
        assert forall|i: int, j: int| 0 <= i < s1.len() && 0 <= j < s1.len() implies ((
        #[trigger] s1[i]).0 < (#[trigger] s1[j]).0) == (t1[i].0 < t1[j].0) by {
            assert(s1[i] == s[i + 1]);
            assert(t1[i] == t[i + 1]);
            assert(s1[j] == s[j + 1]);
            assert(t1[j] == t[j + 1]);
        }
        lemma_concordance_same_order(s1, t1);
    }
}

/// The number of negative samples ranked below `rank`.
pub open spec fn count_negative_below(s: Seq<RankedSample>, rank: u64) -> nat
    decreases s.len(),
{
    if s.len() == 0 {
        0
    } else {
        (if !s[0].1 && s[0].0 < rank {
            1nat
        } else {
            0nat
        }) + count_negative_below(s.skip(1), rank)
    }
}

/// Appending a sample adds it to the count where it matches.
pub proof fn lemma_count_at_push(s: Seq<RankedSample>, x: RankedSample, positive: bool, rank: u64)
    ensures
        count_at(s.push(x), positive, rank) == count_at(s, positive, rank) + if x.1 == positive
            && x.0 == rank {
            1nat
        } else {
            0nat
        },
    decreases s.len(),
{
    if s.len() > 0 {
        assert(s.push(x).skip(1) =~= s.skip(1).push(x));
        assert(s.push(x)[0] == s[0]);
        lemma_count_at_push(s.skip(1), x, positive, rank);
    } else {
        assert(s.push(x).skip(1) =~= Seq::<RankedSample>::empty());
        assert(s.push(x)[0] == x);
        assert(count_at(Seq::<RankedSample>::empty(), positive, rank) == 0);
    }
}

/// A positive sample counts twice each negative ranked below it and once each tied negative.
pub proof fn lemma_row_positive(x: RankedSample, s: Seq<RankedSample>)
    requires
        x.1,
    ensures
        row_weight(x, s) == 2 * count_negative_below(s, x.0) + count_at(s, false, x.0),
    decreases s.len(),
{
    if s.len() > 0 {
        lemma_row_positive(x, s.skip(1));
    }
}

/// A negative sample is counted twice by each positive ranked above it and once by each tied
/// positive.
pub proof fn lemma_column_negative(s: Seq<RankedSample>, x: RankedSample)
    requires
        !x.1,
    ensures
        column_weight(s, x) == 2 * count_positive_above(s, x.0) + count_at(s, true, x.0),
    decreases s.len(),
{
    if s.len() > 0 {
        lemma_column_negative(s.skip(1), x);
    }
}

/// Label counts never exceed the length.
pub proof fn lemma_count_at_bounded(s: Seq<RankedSample>, positive: bool, rank: u64)
    ensures
        count_at(s, positive, rank) <= s.len(),
    decreases s.len(),
{
    if s.len() > 0 {
        lemma_count_at_bounded(s.skip(1), positive, rank);
    }
}

} // verus!
