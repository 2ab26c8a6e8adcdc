use vstd::prelude::*;

verus! {

/// An exact non-negative ratio of two counts.
#[derive(Clone, Copy, Debug, PartialEq, Eq, Structural)]
pub struct Ratio {
    pub numerator: u128,
    pub denominator: u128,
}

/// One per-class ratio with the weight it carries in an average.
#[derive(Clone, Copy, Debug, PartialEq, Eq, Structural)]
pub struct WeightedRatio {
    pub ratio: Ratio,
    pub weight: u128,
}

/// The weighted mean of ratios, `sum(weight * numerator / denominator) / sum(weight)`, kept as
/// its terms so that no precision is lost. Every term has a positive denominator and weight.
#[derive(Clone, Debug)]
pub struct Average {
    pub terms: Vec<WeightedRatio>,
}

/// How per-class ratios are combined into one value.
#[derive(Clone, Copy, Debug, PartialEq, Eq, Structural)]
pub enum AverageMethod {
    /// Sum the numerators and the denominators over the classes, then divide once.
    Micro,
    /// The plain mean of the per-class ratios that are defined.
    Macro,
    /// The mean of the per-class ratios that are defined, weighted by class support.
    Weighted,
}

impl Default for AverageMethod {
    /// Macro averaging, the usual default.
    fn default() -> (m: AverageMethod)
        ensures
            m == AverageMethod::Macro,
    {
        AverageMethod::Macro
    }
}

/// The sum of a sequence of wide counters.
pub open spec fn total_of(s: Seq<u128>) -> int
    decreases s.len(),
{
    if s.len() == 0 {
        0
    } else {
        total_of(s.drop_last()) + s.last()
    }
}

/// The classes whose ratio is defined (a positive denominator), each with weight one.
pub open spec fn macro_terms(numerators: Seq<u128>, denominators: Seq<u128>) -> Seq<
    WeightedRatio,
>
    decreases denominators.len(),
{
    if denominators.len() == 0 || numerators.len() != denominators.len() {
        Seq::empty()
    } else {
        let n = denominators.len() - 1;
        let earlier = macro_terms(numerators.take(n), denominators.take(n));
        if denominators[n] > 0 {
            earlier.push(
                WeightedRatio {
                    ratio: Ratio { numerator: numerators[n], denominator: denominators[n] },
                    weight: 1,
                },
            )
        } else {
            earlier
        }
    }
}

/// The classes whose ratio is defined and whose support is positive, each weighted by its
/// support.
pub open spec fn weighted_terms(
    numerators: Seq<u128>,
    denominators: Seq<u128>,
    supports: Seq<u128>,
) -> Seq<WeightedRatio>
    decreases denominators.len(),
{
    if denominators.len() == 0 || numerators.len() != denominators.len() || supports.len()
        != denominators.len() {
        Seq::empty()
    } else {
        let n = denominators.len() - 1;
        let earlier = weighted_terms(numerators.take(n), denominators.take(n), supports.take(n));
        if denominators[n] > 0 && supports[n] > 0 {
            earlier.push(
                WeightedRatio {
                    ratio: Ratio { numerator: numerators[n], denominator: denominators[n] },
                    weight: supports[n],
                },
            )
        } else {
            earlier
        }
    }
}

/// The terms that averaging the per-class ratios `numerators[k] / denominators[k]` with class
/// supports `supports[k]` yields, or `None` where no class has a defined ratio to average.
pub open spec fn spec_average(
    numerators: Seq<u128>,
    denominators: Seq<u128>,
    supports: Seq<u128>,
    method: AverageMethod,
) -> Option<Seq<WeightedRatio>> {
    match method {
        AverageMethod::Micro => {
            if total_of(denominators) == 0 {
                None
            } else {
                Some(
                    seq![
                        WeightedRatio {
                            ratio: Ratio {
                                numerator: total_of(numerators) as u128,
                                denominator: total_of(denominators) as u128,
                            },
                            weight: 1,
                        },
                    ],
                )
            }
        },
        AverageMethod::Macro => {
            let terms = macro_terms(numerators, denominators);
            if terms.len() == 0 {
                None
            } else {
                Some(terms)
            }
        },
        AverageMethod::Weighted => {
            let terms = weighted_terms(numerators, denominators, supports);
            if terms.len() == 0 {
                None
            } else {
                Some(terms)
            }
        },
    }
}

/// `sum(weight * numerator / denominator)` over the terms, as a fraction `(p, q)` with
/// `q > 0` wherever every denominator is positive.
pub open spec fn weighted_sum(terms: Seq<WeightedRatio>) -> (int, int)
    decreases terms.len(),
{
    if terms.len() == 0 {
        (0, 1)
    } else {
        let (p, q) = weighted_sum(terms.drop_last());
        let t = terms.last();
        (
            p * t.ratio.denominator + t.weight * t.ratio.numerator * q,
            q * t.ratio.denominator,
        )
    }
}

/// The sum of the weights of the terms.
pub open spec fn total_weight(terms: Seq<WeightedRatio>) -> int
    decreases terms.len(),
{
    if terms.len() == 0 {
        0
    } else {
        total_weight(terms.drop_last()) + terms.last().weight
    }
}

/// True when the weighted mean of the terms equals `n / d`.
pub open spec fn has_value(terms: Seq<WeightedRatio>, n: int, d: int) -> bool {
    let (p, q) = weighted_sum(terms);
    p * d == n * q * total_weight(terms)
}

proof fn lemma_total_of_prefix(s: Seq<u128>, i: int)
    requires
        0 <= i <= s.len(),
    ensures
        0 <= total_of(s.take(i)) <= total_of(s),
    decreases s.len(),
{
    if s.len() > 0 {
        if i == s.len() {
            assert(s.take(i) =~= s);
            lemma_total_of_prefix(s.drop_last(), i - 1);
            assert(s.drop_last().take(i - 1) =~= s.take(i - 1));
        } else {
            lemma_total_of_prefix(s.drop_last(), i);
            assert(s.drop_last().take(i) =~= s.take(i));
        }
    }
}

proof fn lemma_total_of_step(s: Seq<u128>, i: int)
    requires
        0 <= i < s.len(),
    ensures
        total_of(s.take(i + 1)) == total_of(s.take(i)) + s[i],
{
    assert(s.take(i + 1).drop_last() =~= s.take(i));
}

/// Combines per-class ratios `numerators[k] / denominators[k]` under an averaging method.
/// Classes with a zero denominator have no defined ratio and are left out of macro and
/// weighted averages; weighted averages also leave out classes with no support.
pub fn average(
    numerators: &[u128],
    denominators: &[u128],
    supports: &[u128],
    method: AverageMethod,
) -> (r: Option<Average>)
    requires
        numerators@.len() == denominators@.len(),
        supports@.len() == denominators@.len(),
        total_of(numerators@) <= u128::MAX,
        total_of(denominators@) <= u128::MAX,
    ensures
        r matches Some(a) ==> spec_average(numerators@, denominators@, supports@, method) == Some(
            a.terms@,
        ),
        r is None ==> spec_average(numerators@, denominators@, supports@, method) is None,
{
    let n = denominators.len();
    match method {
        AverageMethod::Micro => {
            let mut num_total: u128 = 0;
            let mut den_total: u128 = 0;
            let mut i: usize = 0;
            while i < n
                invariant
                    n == numerators@.len(),
                    n == denominators@.len(),
                    i <= n,
                    total_of(numerators@) <= u128::MAX,
                    total_of(denominators@) <= u128::MAX,
                    num_total == total_of(numerators@.take(i as int)),
                    den_total == total_of(denominators@.take(i as int)),
                decreases n - i,
            {
                proof {
                    lemma_total_of_step(numerators@, i as int);
                    lemma_total_of_step(denominators@, i as int);
                    lemma_total_of_prefix(numerators@, i + 1);
                    lemma_total_of_prefix(denominators@, i + 1);
                }
                num_total = num_total + numerators[i];
                den_total = den_total + denominators[i];
                i = i + 1;
            }
            proof {
                assert(numerators@.take(n as int) =~= numerators@);
                assert(denominators@.take(n as int) =~= denominators@);
            }
            if den_total == 0 {
                None
            } else {
                let mut terms: Vec<WeightedRatio> = Vec::new();
                terms.push(
                    WeightedRatio {
                        ratio: Ratio { numerator: num_total, denominator: den_total },
                        weight: 1,
                    },
                );
                proof {
                    assert(terms@ =~= spec_average(
                        numerators@,
                        denominators@,
                        supports@,
                        method,
                    ).unwrap());
                }
                Some(Average { terms })
            }
        },
        AverageMethod::Macro => {
            let mut terms: Vec<WeightedRatio> = Vec::new();
            let mut i: usize = 0;
            while i < n
                invariant
                    n == numerators@.len(),
                    n == denominators@.len(),
                    i <= n,
                    terms@ == macro_terms(
                        numerators@.take(i as int),
                        denominators@.take(i as int),
                    ),
                decreases n - i,
            {
                proof {
                    assert(numerators@.take(i + 1).take(i as int) =~= numerators@.take(i as int));
                    assert(denominators@.take(i + 1).take(i as int) =~= denominators@.take(
                        i as int,
                    ));
                }
                if denominators[i] > 0 {
                    terms.push(
                        WeightedRatio {
                            ratio: Ratio { numerator: numerators[i], denominator: denominators[i] },
                            weight: 1,
                        },
                    );
                }
                i = i + 1;
            }
            proof {
                assert(numerators@.take(n as int) =~= numerators@);
                assert(denominators@.take(n as int) =~= denominators@);
            }
            if terms.len() == 0 {
                None
            } else {
                Some(Average { terms })
            }
        },
        AverageMethod::Weighted => {
            let mut terms: Vec<WeightedRatio> = Vec::new();
            let mut i: usize = 0;
            while i < n
                invariant
                    n == numerators@.len(),
                    n == denominators@.len(),
                    n == supports@.len(),
                    i <= n,
                    terms@ == weighted_terms(
                        numerators@.take(i as int),
                        denominators@.take(i as int),
                        supports@.take(i as int),
                    ),
                decreases n - i,
            {
                proof {
                    assert(numerators@.take(i + 1).take(i as int) =~= numerators@.take(i as int));
                    assert(denominators@.take(i + 1).take(i as int) =~= denominators@.take(
                        i as int,
                    ));
                    assert(supports@.take(i + 1).take(i as int) =~= supports@.take(i as int));
                }
                if denominators[i] > 0 && supports[i] > 0 {
                    terms.push(
                        WeightedRatio {
                            ratio: Ratio { numerator: numerators[i], denominator: denominators[i] },
                            weight: supports[i],
                        },
                    );
                }
                i = i + 1;
            }
            proof {
                assert(numerators@.take(n as int) =~= numerators@);
                assert(denominators@.take(n as int) =~= denominators@);
                assert(supports@.take(n as int) =~= supports@);
            }
            if terms.len() == 0 {
                None
            } else {
                Some(Average { terms })
            }
        },
    }
}

proof fn lemma_total_of_constant(s: Seq<u128>, v: u128)
    requires
        forall|k: int| 0 <= k < s.len() ==> s[k] == v,
    ensures
        total_of(s) == s.len() * v,
    decreases s.len(),
{
    if s.len() > 0 {
        lemma_total_of_constant(s.drop_last(), v);
        assert((s.len() - 1) * v + v == s.len() * v) by (nonlinear_arith);
    }
}

proof fn lemma_macro_terms_uniform(numerators: Seq<u128>, denominators: Seq<u128>, n: u128, d: u128)
    requires
        numerators.len() == denominators.len(),
        d > 0,
        forall|k: int| 0 <= k < numerators.len() ==> numerators[k] == n && denominators[k] == d,
    ensures
        macro_terms(numerators, denominators).len() == numerators.len(),
        forall|k: int|
            0 <= k < numerators.len() ==> #[trigger] macro_terms(numerators, denominators)[k]
                == (WeightedRatio { ratio: Ratio { numerator: n, denominator: d }, weight: 1 }),
    decreases numerators.len(),
{
    if numerators.len() > 0 {
        let m = numerators.len() - 1;
        lemma_macro_terms_uniform(numerators.take(m), denominators.take(m), n, d);
    }
}

proof fn lemma_weighted_sum_uniform(terms: Seq<WeightedRatio>, n: u128, d: u128)
    requires
        d > 0,
        forall|k: int|
            0 <= k < terms.len() ==> #[trigger] terms[k] == (WeightedRatio {
                ratio: Ratio { numerator: n, denominator: d },
                weight: 1,
            }),
    ensures
        weighted_sum(terms).0 * d == terms.len() * n * weighted_sum(terms).1,
        total_weight(terms) == terms.len(),
    decreases terms.len(),
{
    if terms.len() > 0 {
        let prev = terms.drop_last();
        assert forall|k: int| 0 <= k < prev.len() implies #[trigger] prev[k] == (WeightedRatio {
            ratio: Ratio { numerator: n, denominator: d },
            weight: 1,
        }) by {
            assert(prev[k] == terms[k]);
        }
        lemma_weighted_sum_uniform(prev, n, d);
        let (p, q) = weighted_sum(prev);
        let len = prev.len() as int;
        assert(terms.last() == terms[terms.len() - 1]);
        assert((p * d + 1 * n * q) * d == (len + 1) * n * (q * d)) by (nonlinear_arith)
            requires
                p * d == len * n * q,
        ;
    }
}

/// When every class has the same defined ratio `n / d`, micro and macro averaging agree: both
/// give `n / d`.
pub proof fn lemma_uniform_classes_micro_equals_macro(
    numerators: Seq<u128>,
    denominators: Seq<u128>,
    supports: Seq<u128>,
    n: u128,
    d: u128,
)
    requires
        numerators.len() == denominators.len(),
        supports.len() == denominators.len(),
        numerators.len() >= 1,
        d > 0,
        forall|k: int| 0 <= k < numerators.len() ==> numerators[k] == n && denominators[k] == d,
        total_of(numerators) <= u128::MAX,
        total_of(denominators) <= u128::MAX,
    ensures
        spec_average(numerators, denominators, supports, AverageMethod::Micro) is Some,
        spec_average(numerators, denominators, supports, AverageMethod::Macro) is Some,
        has_value(
            spec_average(numerators, denominators, supports, AverageMethod::Micro).unwrap(),
            n as int,
            d as int,
        ),
        has_value(
            spec_average(numerators, denominators, supports, AverageMethod::Macro).unwrap(),
            n as int,
            d as int,
        ),
{
    let c = numerators.len() as int;
    lemma_total_of_constant(numerators, n);
    lemma_total_of_constant(denominators, d);
    assert(c * d > 0) by (nonlinear_arith)
        requires
            c >= 1,
            d > 0,
    ;
    let micro = spec_average(numerators, denominators, supports, AverageMethod::Micro).unwrap();
    assert(micro.drop_last() =~= Seq::<WeightedRatio>::empty());
    assert(micro.last().ratio.numerator == c * n);
    assert(micro.last().ratio.denominator == c * d);
    assert(micro.last().weight == 1);
    assert(weighted_sum(micro.drop_last()) == (0int, 1int));
    assert(total_weight(micro.drop_last()) == 0);
    let (mp, mq) = weighted_sum(micro);
    assert(mp == 0 * (c * d) + 1 * (c * n) * 1);
    assert(mq == 1 * (c * d));
    assert(total_weight(micro) == 1);
    assert(mp * d == n * mq * 1) by (nonlinear_arith)
        requires
            mp == 0 * (c * d) + 1 * (c * n) * 1,
            mq == 1 * (c * d),
    ;
    lemma_macro_terms_uniform(numerators, denominators, n, d);
    let terms = macro_terms(numerators, denominators);
    lemma_weighted_sum_uniform(terms, n, d);
    let (p, q) = weighted_sum(terms);
    assert(p * d == n * q * c) by (nonlinear_arith)
        requires
            p * d == c * n * q,
    ;
}

} // verus!
