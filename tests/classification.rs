use rust_metrics::{
    Average, AverageMethod, BinaryAccuracy, BinaryConfusionMatrix, BinaryF1Score,
    BinaryJaccardIndex, BinaryPrecision, BinaryRecall, BinaryStatScores, Expected, MetricError,
    MulticlassAccuracy, MulticlassF1Score, MulticlassJaccardIndex, MulticlassPrecision,
    MulticlassStatScores, Ratio, Score,
};

fn scores(values: &[f64]) -> Vec<Score> {
    values.iter().map(|v| Score::from_bits(v.to_bits())).collect()
}

fn value(r: Ratio) -> f64 {
    r.numerator as f64 / r.denominator as f64
}

fn mean(a: &Average) -> f64 {
    let mut weighted = 0.0;
    let mut weights = 0.0;
    for t in &a.terms {
        weighted += t.weight as f64 * (t.ratio.numerator as f64 / t.ratio.denominator as f64);
        weights += t.weight as f64;
    }
    weighted / weights
}

fn rows(values: &[[f64; 3]]) -> Vec<Vec<Score>> {
    values.iter().map(|r| scores(r)).collect()
}

fn example_rows() -> Vec<Vec<Score>> {
    rows(&[
        [0.16, 0.26, 0.58],
        [0.22, 0.61, 0.17],
        [0.71, 0.09, 0.20],
        [0.05, 0.82, 0.13],
    ])
}

#[test]
fn accuracy_binary_accuracy() {
    let mut metric = BinaryAccuracy::default();
    let targets = [0, 1, 0, 1, 0, 1];
    let preds = scores(&[0.11, 0.22, 0.84, 0.73, 0.33, 0.92]);
    metric.update(&preds, &targets).unwrap();
    let result = value(metric.compute().unwrap());
    assert!((result - (2.0 / 3.0)).abs() < f64::EPSILON);

    metric.reset();
    assert_eq!(metric.compute(), None);
}

#[test]
fn accuracy_multiclass_accuracy() {
    let mut metric = MulticlassAccuracy::new(3, AverageMethod::Macro);
    let targets = [2, 1, 0, 0];
    let owned = example_rows();
    let preds: Vec<&[Score]> = owned.iter().map(|r| r.as_slice()).collect();
    metric.update(&preds, &targets).unwrap();
    let result = mean(&metric.compute().unwrap());
    assert!((result - 0.8333333333333334).abs() < f64::EPSILON);

    metric.reset();
    assert!(metric.compute().is_none());
}

#[test]
fn f1_computes_over_batches() {
    let mut f1 = BinaryF1Score::default();

    f1.update(&scores(&[0.11, 0.22, 0.84]), &[0_usize, 1, 0])
        .expect("update should succeed");
    f1.update(&scores(&[0.73, 0.33, 0.92]), &[1_usize, 0, 1])
        .expect("update should succeed");
    assert!((value(f1.compute().unwrap()) - 2.0 / 3.0).abs() < f64::EPSILON);

    f1.reset();
    assert_eq!(f1.compute(), None);
}

#[test]
fn f1_multiclass() {
    let mut metric = MulticlassF1Score::new(3, AverageMethod::Macro);
    let target = [2, 1, 0, 0];
    let owned = example_rows();
    let preds: Vec<&[Score]> = owned.iter().map(|r| r.as_slice()).collect();

    metric.update(&preds, &target).unwrap();
    let result = mean(&metric.compute().unwrap());
    assert!((result - 0.7777777777777777).abs() < f64::EPSILON);

    metric.reset();
    assert!(metric.compute().is_none());
}

#[test]
fn jaccard_binary_accuracy() {
    let mut metric = BinaryJaccardIndex::default();
    let preds = scores(&[0.35, 0.85, 0.48, 0.01]);
    let targets = [1, 1, 0, 0];
    metric.update(&preds, &targets).unwrap();
    let result = value(metric.compute().unwrap());
    assert!((result - 0.50).abs() < f64::EPSILON);

    metric.reset();
    assert_eq!(metric.compute(), None);
}

#[test]
fn jaccard_multiclass_accuracy() {
    let mut metric = MulticlassJaccardIndex::new(3, AverageMethod::Macro);
    let targets = [2, 1, 0, 0];
    let owned = example_rows();
    let preds: Vec<&[Score]> = owned.iter().map(|r| r.as_slice()).collect();
    metric.update(&preds, &targets).unwrap();
    let result = mean(&metric.compute().unwrap());
    assert!((result - (2.0 / 3.0)).abs() < f64::EPSILON);

    metric.reset();
    assert!(metric.compute().is_none());
}

#[test]
fn binary_precision_computes_over_batches() {
    let mut precision = BinaryPrecision::default();

    precision
        .update(&scores(&[0.11, 0.22, 0.84]), &[0_usize, 1, 0])
        .expect("update should succeed");
    precision
        .update(&scores(&[0.73, 0.33, 0.92]), &[1_usize, 0, 1])
        .expect("update should succeed");
    assert!((value(precision.compute().unwrap()) - 2.0 / 3.0).abs() < f64::EPSILON);

    precision.reset();
    assert_eq!(precision.compute(), None);
}

#[test]
fn binary_precision_validates_targets() {
    let mut precision = BinaryPrecision::default();
    let err = precision
        .update(&scores(&[0.8]), &[2_usize])
        .expect_err("invalid targets should fail");
    match err {
        MetricError::IncompatibleInput { .. } => {}
        other => panic!("Expected IncompatibleInput error, got: {:?}", other),
    }
}

#[test]
fn mutliclass_precision() {
    let mut metric = MulticlassPrecision::new(3, AverageMethod::Macro);
    let targets = [2, 1, 0, 0];
    let owned = example_rows();
    let preds: Vec<&[Score]> = owned.iter().map(|r| r.as_slice()).collect();
    metric.update(&preds, &targets).unwrap();
    let result = mean(&metric.compute().unwrap());
    assert!((result - 0.8333333333333334).abs() < f64::EPSILON);

    metric.reset();
    assert!(metric.compute().is_none());
}

#[test]
fn binary_recall_computes_over_batches() {
    let mut recall = BinaryRecall::default();

    recall
        .update(&scores(&[0.11, 0.22, 0.84]), &[0_usize, 1, 0])
        .expect("update should succeed");
    recall
        .update(&scores(&[0.73, 0.33, 0.92]), &[1_usize, 0, 1])
        .expect("update should succeed");
    assert!((value(recall.compute().unwrap()) - 2.0 / 3.0).abs() < f64::EPSILON);

    recall.reset();
    assert_eq!(recall.compute(), None);
}

#[test]
fn binary_recall_validates_targets() {
    let mut recall = BinaryRecall::default();
    let err = recall
        .update(&scores(&[0.8]), &[2_usize])
        .expect_err("invalid targets should fail");
    match err {
        MetricError::IncompatibleInput { .. } => {}
        other => panic!("Expected IncompatibleInput error, got: {:?}", other),
    }
}

#[test]
fn stat_scores_follow_the_threshold_rule() {
    let mut s = BinaryStatScores::new(Score::half());
    s.update(&scores(&[0.8, 0.6, 0.3, 0.1]), &[1, 0, 1, 0]).unwrap();
    assert_eq!(
        (s.true_positive, s.false_positive, s.false_negative, s.true_negative),
        (1, 1, 1, 1)
    );
    let mut precision = BinaryPrecision::new(Score::half());
    precision.update(&scores(&[0.8, 0.6, 0.3, 0.1]), &[1, 0, 1, 0]).unwrap();
    assert_eq!(precision.compute(), Some(Ratio { numerator: 1, denominator: 2 }));
    let mut recall = BinaryRecall::new(Score::half());
    recall.update(&scores(&[0.8, 0.6, 0.3, 0.1]), &[1, 0, 1, 0]).unwrap();
    assert_eq!(recall.compute(), Some(Ratio { numerator: 1, denominator: 2 }));
}

#[test]
fn prediction_equal_to_threshold_is_negative() {
    let mut s = BinaryStatScores::new(Score::half());
    s.update(&scores(&[0.5, 0.5]), &[1, 0]).unwrap();
    assert_eq!(
        (s.true_positive, s.false_positive, s.false_negative, s.true_negative),
        (0, 0, 1, 1)
    );
}

#[test]
fn binary_counts_sum_to_total_over_batches() {
    let mut s = BinaryStatScores::default();
    s.update(&scores(&[0.9, 0.1, 0.7]), &[1, 1, 0]).unwrap();
    s.update(&scores(&[0.2, 0.6]), &[0, 1]).unwrap();
    assert!(s.update(&scores(&[0.2, 1.5]), &[0, 1]).is_err());
    assert_eq!(s.total, 5);
    assert_eq!(
        s.true_positive + s.false_positive + s.false_negative + s.true_negative,
        s.total
    );
}

#[test]
fn binary_update_rejects_bad_batches_without_counting() {
    let mut s = BinaryStatScores::default();
    assert_eq!(
        s.update(&scores(&[0.2, 0.3]), &[1]),
        Err(MetricError::LengthMismatch { predictions: 2, targets: 1 })
    );
    assert_eq!(
        s.update(&scores(&[0.9, -0.1]), &[1, 0]),
        Err(MetricError::IncompatibleInput {
            expected: Expected::WithinRange { min: 0, max: 1.0f64.to_bits() },
            got: (-0.1f64).to_bits(),
        })
    );
    assert_eq!(
        s.update(&scores(&[0.9, f64::NAN]), &[1, 0]).is_err(),
        true
    );
    assert_eq!(
        s.update(&scores(&[0.9, 0.4]), &[1, 3]),
        Err(MetricError::IncompatibleInput {
            expected: Expected::LabelBelow { num_classes: 2 },
            got: 3,
        })
    );
    assert_eq!(s.total, 0);
    assert_eq!(s.true_positive, 0);
}

#[test]
fn binary_metrics_on_empty_denominators() {
    let mut precision = BinaryPrecision::default();
    precision.update(&scores(&[0.1, 0.2]), &[1, 0]).unwrap();
    assert_eq!(precision.compute(), None);
    let mut f1 = BinaryF1Score::default();
    f1.update(&scores(&[0.1, 0.2]), &[0, 0]).unwrap();
    assert_eq!(f1.compute(), None);
    let mut jaccard = BinaryJaccardIndex::default();
    jaccard.update(&scores(&[0.1]), &[0]).unwrap();
    assert_eq!(jaccard.compute(), None);
    let mut accuracy = BinaryAccuracy::default();
    accuracy.update(&scores(&[0.1]), &[0]).unwrap();
    assert_eq!(accuracy.compute(), Some(Ratio { numerator: 1, denominator: 1 }));
}

#[test]
fn binary_f1_exact_value() {
    let mut f1 = BinaryF1Score::default();
    f1.update(&scores(&[0.9, 0.8, 0.2, 0.7]), &[1, 0, 1, 1]).unwrap();
    assert_eq!(f1.compute(), Some(Ratio { numerator: 4, denominator: 6 }));
}

#[test]
fn confusion_matrix_layout() {
    let mut bcm = BinaryConfusionMatrix::default();
    assert_eq!(bcm.compute(), None);
    bcm.update(&scores(&[0.35, 0.85, 0.48, 0.01]), &[1, 1, 0, 0]).unwrap();
    assert_eq!(bcm.compute().unwrap(), [[1, 0], [1, 2]]);
    bcm.reset();
    assert_eq!(bcm.compute(), None);
}

#[test]
fn multiclass_micro_accuracy_three_of_four() {
    let mut metric = MulticlassAccuracy::new(3, AverageMethod::Micro);
    let owned = rows(&[
        [1.0, 0.0, 0.0],
        [0.0, 1.0, 0.0],
        [0.0, 0.0, 1.0],
        [1.0, 0.0, 0.0],
    ]);
    let preds: Vec<&[Score]> = owned.iter().map(|r| r.as_slice()).collect();
    metric.update(&preds, &[0, 1, 2, 2]).unwrap();
    let result = metric.compute().unwrap();
    assert_eq!(result.terms.len(), 1);
    assert_eq!(result.terms[0].ratio, Ratio { numerator: 3, denominator: 4 });
    assert!((mean(&result) - 0.75).abs() < f64::EPSILON);
}

#[test]
fn multiclass_class_totals_sum() {
    let mut s = MulticlassStatScores::new(3);
    let owned = example_rows();
    let preds: Vec<&[Score]> = owned.iter().map(|r| r.as_slice()).collect();
    s.update(&preds, &[2, 1, 0, 0]).unwrap();
    s.update(&preds[..2], &[0, 0]).unwrap();
    let sum: usize = s.total_per_class.iter().sum();
    assert_eq!(sum, s.num_classes * s.total);
    assert_eq!(s.total, 6);
    for k in 0..3 {
        assert_eq!(
            s.true_positive[k] + s.false_positive[k] + s.false_negative[k] + s.true_negative[k],
            s.total_per_class[k]
        );
    }
    assert_eq!(s.true_positive, vec![1, 1, 1]);
    assert_eq!(s.false_negative, vec![3, 0, 0]);
    assert_eq!(s.false_positive, vec![0, 2, 1]);
    s.reset();
    assert_eq!(s.total, 0);
    assert_eq!(s.total_per_class, vec![0, 0, 0]);
}

#[test]
fn multiclass_ties_go_to_the_first_maximum() {
    let mut s = MulticlassStatScores::new(3);
    let owned = rows(&[[0.4, 0.4, 0.2], [0.1, 0.45, 0.45]]);
    let preds: Vec<&[Score]> = owned.iter().map(|r| r.as_slice()).collect();
    s.update(&preds, &[1, 2]).unwrap();
    assert_eq!(s.false_positive, vec![1, 1, 0]);
    assert_eq!(s.false_negative, vec![0, 1, 1]);
}

#[test]
fn multiclass_update_errors() {
    let mut s = MulticlassStatScores::new(3);
    let owned = example_rows();
    let preds: Vec<&[Score]> = owned.iter().map(|r| r.as_slice()).collect();
    assert_eq!(
        s.update(&preds, &[0, 1]),
        Err(MetricError::LengthMismatch { predictions: 4, targets: 2 })
    );
    assert_eq!(
        s.update(&preds, &[0, 1, 3, 0]),
        Err(MetricError::IncompatibleInput {
            expected: Expected::LabelBelow { num_classes: 3 },
            got: 3,
        })
    );
    let short = scores(&[0.5, 0.5]);
    let bad: Vec<&[Score]> = vec![preds[0], short.as_slice()];
    assert_eq!(
        s.update(&bad, &[0, 1]),
        Err(MetricError::IncompatibleInput {
            expected: Expected::RowLength { num_classes: 3 },
            got: 2,
        })
    );
    assert_eq!(s.total, 0);
}

#[test]
fn averaging_methods_on_one_batch() {
    let owned = example_rows();
    let preds: Vec<&[Score]> = owned.iter().map(|r| r.as_slice()).collect();
    let targets = [2, 1, 0, 0];
    let mut micro = MulticlassPrecision::new(3, AverageMethod::Micro);
    micro.update(&preds, &targets).unwrap();
    assert_eq!(micro.compute().unwrap().terms[0].ratio, Ratio { numerator: 3, denominator: 4 });
    let mut weighted = MulticlassPrecision::new(3, AverageMethod::Weighted);
    weighted.update(&preds, &targets).unwrap();
    let w = weighted.compute().unwrap();
    let weights: Vec<u128> = w.terms.iter().map(|t| t.weight).collect();
    assert_eq!(weights, vec![2, 1, 1]);
    assert!((mean(&w) - (2.0 * 1.0 + 0.5 + 1.0) / 4.0).abs() < 1e-12);
}

#[test]
fn macro_leaves_out_undefined_classes() {
    let mut metric = MulticlassPrecision::new(3, AverageMethod::Macro);
    let owned = rows(&[[0.9, 0.05, 0.05], [0.8, 0.1, 0.1]]);
    let preds: Vec<&[Score]> = owned.iter().map(|r| r.as_slice()).collect();
    metric.update(&preds, &[0, 1]).unwrap();
    let result = metric.compute().unwrap();
    assert_eq!(result.terms.len(), 1);
    assert_eq!(result.terms[0].ratio, Ratio { numerator: 1, denominator: 2 });
}

#[test]
fn micro_equals_macro_on_uniform_classes() {
    let owned = rows(&[
        [0.9, 0.05, 0.05],
        [0.05, 0.9, 0.05],
        [0.05, 0.05, 0.9],
        [0.05, 0.9, 0.05],
        [0.05, 0.05, 0.9],
        [0.9, 0.05, 0.05],
    ]);
    let preds: Vec<&[Score]> = owned.iter().map(|r| r.as_slice()).collect();
    let targets = [0, 1, 2, 0, 1, 2];
    let mut micro = MulticlassF1Score::new(3, AverageMethod::Micro);
    micro.update(&preds, &targets).unwrap();
    let mut macro_avg = MulticlassF1Score::new(3, AverageMethod::Macro);
    macro_avg.update(&preds, &targets).unwrap();
    let a = mean(&micro.compute().unwrap());
    let b = mean(&macro_avg.compute().unwrap());
    assert!((a - 0.5).abs() < 1e-12);
    assert!((a - b).abs() < 1e-12);
}

#[test]
fn reset_then_compute_is_none_for_every_metric() {
    let p = scores(&[0.9, 0.1]);
    let t = [1, 0];
    let mut a = BinaryAccuracy::default();
    a.update(&p, &t).unwrap();
    a.reset();
    assert_eq!(a.compute(), None);
    let mut j = BinaryJaccardIndex::new(Score::half());
    j.update(&p, &t).unwrap();
    j.reset();
    assert_eq!(j.compute(), None);
    let owned = example_rows();
    let preds: Vec<&[Score]> = owned.iter().map(|r| r.as_slice()).collect();
    let mut m = MulticlassJaccardIndex::new(3, AverageMethod::Weighted);
    m.update(&preds, &[2, 1, 0, 0]).unwrap();
    assert!(m.compute().is_some());
    m.reset();
    assert!(m.compute().is_none());
}

#[test]
fn binary_f1_is_undefined_without_predicted_or_actual_positives() {
    let mut no_predicted = BinaryF1Score::default();
    no_predicted.update(&scores(&[0.1, 0.2, 0.3]), &[1, 0, 1]).unwrap();
    assert_eq!(no_predicted.compute(), None);
    let mut no_actual = BinaryF1Score::default();
    no_actual.update(&scores(&[0.9, 0.2]), &[0, 0]).unwrap();
    assert_eq!(no_actual.compute(), None);
    let mut both_zero = BinaryF1Score::default();
    both_zero.update(&scores(&[0.9, 0.2]), &[0, 1]).unwrap();
    assert_eq!(both_zero.compute(), Some(Ratio { numerator: 0, denominator: 2 }));
}
