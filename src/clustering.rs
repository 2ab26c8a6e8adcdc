//! Clustering metrics.
use crate::error::MetricError;
use vstd::prelude::*;

verus! {

/// The paired cluster assignments that mutual information is computed from.
#[derive(Clone, Debug)]
pub struct MutualInfoScore {
    pub preds: Vec<usize>,
    pub targets: Vec<usize>,
}

impl Default for MutualInfoScore {
    /// No sample seen.
    fn default() -> (m: Self)
        ensures
            m.preds@.len() == 0,
            m.targets@.len() == 0,
    {
        MutualInfoScore { preds: Vec::new(), targets: Vec::new() }
    }
}

impl MutualInfoScore {
    /// Both assignments have one entry per sample.
    pub open spec fn wf(&self) -> bool {
        self.preds@.len() == self.targets@.len()
    }

    /// No sample seen.
    pub fn new() -> (m: Self)
        ensures
            m.wf(),
            m.preds@.len() == 0,
    {
        MutualInfoScore { preds: Vec::new(), targets: Vec::new() }
    }

    /// Appends a batch of paired assignments; batches of different lengths are rejected and
    /// leave the state unchanged.
    pub fn update(&mut self, predictions: &[usize], targets: &[usize]) -> (r: Result<
        (),
        MetricError,
    >)
        requires
            old(self).wf(),
        ensures
            final(self).wf(),
            predictions@.len() != targets@.len() ==> r == Err::<(), MetricError>(
                MetricError::LengthMismatch {
                    predictions: predictions@.len() as usize,
                    targets: targets@.len() as usize,
                },
            ) && *final(self) == *old(self),
            predictions@.len() == targets@.len() ==> r is Ok && final(self).preds@ == old(
                self,
            ).preds@ + predictions@ && final(self).targets@ == old(self).targets@ + targets@,
    {
        if predictions.len() != targets.len() {
            return Err(
                MetricError::LengthMismatch {
                    predictions: predictions.len(),
                    targets: targets.len(),
                },
            );
        }
        let ghost p0 = self.preds@;
        let ghost t0 = self.targets@;
        let mut i: usize = 0;
        while i < predictions.len()
            invariant
                i <= predictions@.len(),
                predictions@.len() == targets@.len(),
                self.preds@ == p0 + predictions@.take(i as int),
                self.targets@ == t0 + targets@.take(i as int),
            decreases predictions@.len() - i,
        {
            self.preds.push(predictions[i]);
            self.targets.push(targets[i]);
            i = i + 1;
            proof {
                assert(self.preds@ =~= p0 + predictions@.take(i as int));
                assert(self.targets@ =~= t0 + targets@.take(i as int));
            }
        }
        proof {
            assert(predictions@.take(i as int) =~= predictions@);
            assert(targets@.take(i as int) =~= targets@);
        }
        Ok(())
    }

    /// Forgets every sample.
    pub fn reset(&mut self)
        ensures
            final(self).wf(),
            final(self).preds@.len() == 0,
    {
        self.preds.clear();
        self.targets.clear();
    }
}

/// How many samples `i` have `targets[i] == a` and `preds[i] == b`.
pub open spec fn pair_count(targets: Seq<usize>, preds: Seq<usize>, a: usize, b: usize) -> nat
    decreases targets.len(),
{
    if targets.len() == 0 {
        0
    } else {
        let n = targets.len() - 1;
        pair_count(targets.drop_last(), preds.take(n), a, b) + if targets[n] == a && preds[n]
            == b {
            1nat
        } else {
            0nat
        }
    }
}

/// True when `table` lists each observed (target, prediction) pair exactly once, with the
/// number of samples that show it.
pub open spec fn is_contingency_table(
    targets: Seq<usize>,
    preds: Seq<usize>,
    table: Seq<(usize, usize, usize)>,
) -> bool {
    &&& forall|k: int, l: int|
        0 <= k < l < table.len() ==> (#[trigger] table[k]).0 != (#[trigger] table[l]).0
            || table[k].1 != table[l].1
    &&& forall|k: int|
        0 <= k < table.len() ==> (#[trigger] table[k]).2 == pair_count(
            targets,
            preds,
            table[k].0,
            table[k].1,
        ) && table[k].2 > 0
    &&& forall|i: int|
        0 <= i < targets.len() ==> exists|k: int|
            0 <= k < table.len() && (#[trigger] table[k]).0 == #[trigger] targets[i]
                && table[k].1 == preds[i]
}

impl MutualInfoScore {
    /// The contingency table of the assignments gathered so far: each observed
    /// (target, prediction) pair with its number of samples, in order of first appearance.
    pub fn contingency(&self) -> (table: Vec<(usize, usize, usize)>)
        requires
            self.wf(),
        ensures
            is_contingency_table(self.targets@, self.preds@, table@),
    {
        let n = self.targets.len();
        let ghost t = self.targets@;
        let ghost p = self.preds@;
        let mut table: Vec<(usize, usize, usize)> = Vec::new();
        let mut i: usize = 0;
        while i < n
            invariant
                t == self.targets@,
                p == self.preds@,
                n == t.len(),
                p.len() == n,
                i <= n,
                is_contingency_table(t.take(i as int), p.take(i as int), table@),
                forall|k: int| 0 <= k < table@.len() ==> (#[trigger] table@[k]).2 <= i,
            decreases n - i,
        {
            let a = self.targets[i];
            let b = self.preds[i];
            let ghost t1 = t.take(i + 1);
            let ghost p1 = p.take(i + 1);
            proof {
                assert forall|x: usize, y: usize| #[trigger] pair_count(t1, p1, x, y) == pair_count(
                    t.take(i as int),
                    p.take(i as int),
                    x,
                    y,
                ) + if x == a && y == b {
                    1nat
                } else {
                    0nat
                } by {
                    lemma_pair_count_step(t, p, i as nat, x, y);
                }
            }
            let mut k: usize = 0;
            while k < table.len() && (table[k].0 != a || table[k].1 != b)
                invariant
                    k <= table@.len(),
                    forall|q: int|
                        0 <= q < k ==> (#[trigger] table@[q]).0 != a || table@[q].1 != b,
                decreases table@.len() - k,
            {
                k = k + 1;
            }
            let found = k < table.len();
            let ghost before = table@;
            proof {
                if !found {
                    if pair_count(t.take(i as int), p.take(i as int), a, b) > 0 {
                        let j = lemma_pair_count_witness(t.take(i as int), p.take(i as int), a, b);
                        let t0 = t.take(i as int);
                        let p0 = p.take(i as int);
                        assert(t0[j] == a && p0[j] == b);
                        let q = choose|q: int|
                            0 <= q < before.len() && (#[trigger] before[q]).0 == #[trigger] t0[j]
                                && before[q].1 == p0[j];
                        assert(before[q].0 != a || before[q].1 != b);
                    }
                }
            }
            if found {
                let entry = table[k];
                table.set(k, (a, b, entry.2 + 1));
            } else {
                table.push((a, b, 1));
            }
            proof {
                assert forall|q: int| 0 <= q < table@.len() implies (#[trigger] table@[q]).2
                    == pair_count(t1, p1, table@[q].0, table@[q].1) && table@[q].2 > 0
                    && table@[q].2 <= i + 1 by {
                    if q < before.len() {
                        assert(before[q].2 == pair_count(
                            t.take(i as int),
                            p.take(i as int),
                            before[q].0,
                            before[q].1,
                        ));
                    }
                }
                assert forall|q: int, l: int| 0 <= q < l < table@.len() implies (
                #[trigger] table@[q]).0 != (#[trigger] table@[l]).0 || table@[q].1 != table@[l].1 by {
                    if l < before.len() {
                        assert(before[q].0 != before[l].0 || before[q].1 != before[l].1);
                    }
                }
                assert forall|j: int| 0 <= j < i + 1 implies exists|q: int|
                    0 <= q < table@.len() && (#[trigger] table@[q]).0 == #[trigger] t1[j]
                        && table@[q].1 == p1[j] by {
                    if j < i {
                        assert(t1[j] == t.take(i as int)[j]);
                        assert(p1[j] == p.take(i as int)[j]);
                        let t0 = t.take(i as int);
                        let p0 = p.take(i as int);
                        let q = choose|q: int|
                            0 <= q < before.len() && (#[trigger] before[q]).0 == #[trigger] t0[j]
                                && before[q].1 == p0[j];
                        assert(table@[q].0 == before[q].0 && table@[q].1 == before[q].1);
                    } else {
                        let q = if found {
                            k as int
                        } else {
                            before.len() as int
                        };
                        assert(table@[q].0 == t1[j] && table@[q].1 == p1[j]);
                    }
                }
            }
            i = i + 1;
        }
        proof {
            assert(t.take(n as int) =~= t);
            assert(p.take(n as int) =~= p);
        }
        table
    }
}

/// Counting one more sample adds it to the count of its own pair.
proof fn lemma_pair_count_step(t: Seq<usize>, p: Seq<usize>, i: nat, x: usize, y: usize)
    requires
        i < t.len(),
        t.len() == p.len(),
    ensures
        pair_count(t.take(i as int + 1), p.take(i as int + 1), x, y) == pair_count(
            t.take(i as int),
            p.take(i as int),
            x,
            y,
        ) + if x == t[i as int] && y == p[i as int] {
            1nat
        } else {
            0nat
        },
{
    let t1 = t.take(i as int + 1);
    let p1 = p.take(i as int + 1);
    assert(t1.drop_last() =~= t.take(i as int));
    assert(p1.take(i as int) =~= p.take(i as int));
}

/// A pair with a positive count occurs somewhere.
proof fn lemma_pair_count_witness(t: Seq<usize>, p: Seq<usize>, a: usize, b: usize) -> (j: int)
    requires
        pair_count(t, p, a, b) > 0,
        t.len() == p.len(),
    ensures
        0 <= j < t.len(),
        t[j] == a && p[j] == b,
    decreases t.len(),
{
    let n = t.len() - 1;
    if t[n] == a && p[n] == b {
        n
    } else {
        let j = lemma_pair_count_witness(t.drop_last(), p.take(n), a, b);
        assert(t.drop_last()[j] == t[j]);
        assert(p.take(n)[j] == p[j]);
        j
    }
}
} // verus!
