use vstd::prelude::*;

verus! {

/// The number of indices `i < n` for which `f(i)` holds.
pub open spec fn count_where(n: nat, f: spec_fn(int) -> bool) -> nat
    decreases n,
{
    if n == 0 {
        0
    } else {
        count_where((n - 1) as nat, f) + if f(n - 1) {
            1nat
        } else {
            0nat
        }
    }
}

/// The sum of a sequence of counters.
pub open spec fn sum(s: Seq<usize>) -> int
    decreases s.len(),
{
    if s.len() == 0 {
        0
    } else {
        sum(s.drop_last()) + s.last()
    }
}

/// A count never exceeds the range it is taken over.
pub proof fn lemma_count_where_bounded(n: nat, f: spec_fn(int) -> bool)
    ensures
        count_where(n, f) <= n,
    decreases n,
{
    if n > 0 {
        lemma_count_where_bounded((n - 1) as nat, f);
    }
}

/// Counting the same property over the same range gives the same number.
pub proof fn lemma_count_where_ext(n: nat, f: spec_fn(int) -> bool, g: spec_fn(int) -> bool)
    requires
        forall|i: int| 0 <= i < n ==> #[trigger] f(i) == g(i),
    ensures
        count_where(n, f) == count_where(n, g),
    decreases n,
{
    if n > 0 {
        lemma_count_where_ext((n - 1) as nat, f, g);
    }
}

/// Changing one counter changes the sum by the same amount.
pub proof fn lemma_sum_update(s: Seq<usize>, k: int, v: usize)
    requires
        0 <= k < s.len(),
    ensures
        sum(s.update(k, v)) == sum(s) - s[k] + v,
    decreases s.len(),
{
    let t = s.update(k, v);
    if k == s.len() - 1 {
        assert(t.drop_last() =~= s.drop_last());
    } else {
        assert(t.drop_last() =~= s.drop_last().update(k, v));
        lemma_sum_update(s.drop_last(), k, v);
    }
}

/// A sum of counters is at least each of its terms and never negative.
pub proof fn lemma_sum_bounds(s: Seq<usize>)
    ensures
        sum(s) >= 0,
        forall|k: int| 0 <= k < s.len() ==> s[k] <= sum(s),
    decreases s.len(),
{
    if s.len() > 0 {
        lemma_sum_bounds(s.drop_last());
        assert forall|k: int| 0 <= k < s.len() implies s[k] <= sum(s) by {
            if k < s.len() - 1 {
                assert(s[k] == s.drop_last()[k]);
            }
        }
    }
}

/// The sum of a sequence whose counters all equal `c`.
pub proof fn lemma_sum_constant(s: Seq<usize>, c: usize)
    requires
        forall|k: int| 0 <= k < s.len() ==> s[k] == c,
    ensures
        sum(s) == s.len() * c,
    decreases s.len(),
{
    if s.len() > 0 {
        lemma_sum_constant(s.drop_last(), c);
        assert(sum(s) == (s.len() - 1) * c + c);
        assert((s.len() - 1) * c + c == s.len() * c) by (nonlinear_arith);
    }
}

/// A sequence of zero counters sums to zero.
pub proof fn lemma_sum_zeros(s: Seq<usize>)
    requires
        forall|k: int| 0 <= k < s.len() ==> s[k] == 0,
    ensures
        sum(s) == 0,
{
    lemma_sum_constant(s, 0);
}

/// The sum of a non-empty sequence is its first counter plus the sum of the rest.
pub proof fn lemma_sum_first(s: Seq<usize>)
    requires
        s.len() > 0,
    ensures
        sum(s) == s[0] + sum(s.skip(1)),
    decreases s.len(),
{
    if s.len() > 1 {
        lemma_sum_first(s.drop_last());
        assert(s.drop_last().skip(1) =~= s.skip(1).drop_last());
    } else {
        assert(s.skip(1) =~= Seq::<usize>::empty());
        assert(s.drop_last() =~= Seq::<usize>::empty());
    }
}

/// The sum of a sequence is the sum of a prefix plus the sum of the rest.
pub proof fn lemma_sum_split(s: Seq<usize>, i: int)
    requires
        0 <= i <= s.len(),
    ensures
        sum(s) == sum(s.take(i)) + sum(s.subrange(i, s.len() as int)),
    decreases s.len(),
{
    if i == s.len() {
        assert(s.take(i) =~= s);
        assert(s.subrange(i, s.len() as int) =~= Seq::<usize>::empty());
    } else {
        lemma_sum_split(s.drop_last(), i);
        assert(s.drop_last().take(i) =~= s.take(i));
        assert(s.subrange(i, s.len() as int).drop_last() =~= s.drop_last().subrange(
            i,
            s.len() - 1,
        ));
    }
}

} // verus!
