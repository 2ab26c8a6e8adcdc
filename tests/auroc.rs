use rust_metrics::{BinaryAuroc, MetricError, Ratio, Score};

fn scores(values: &[f64]) -> Vec<Score> {
    values.iter().map(|v| Score::from_bits(v.to_bits())).collect()
}

fn value(r: Ratio) -> f64 {
    r.numerator as f64 / r.denominator as f64
}

#[test]
fn binary_auroc() {
    let preds = scores(&[0.0, 0.5, 0.7, 0.8]);
    let target = [0_usize, 1, 1, 0];

    // With five buckets 0.7 and 0.8 both round to bucket 3 and count as a tie.
    let mut binned = BinaryAuroc::new(5);
    binned.update(&preds, &target).unwrap();
    assert!((value(binned.compute().unwrap()) - 0.625).abs() < f64::EPSILON);

    let mut exact = BinaryAuroc::new(0);
    exact.update(&preds, &target).unwrap();
    assert!((value(exact.compute().unwrap()) - 0.5).abs() < f64::EPSILON);

    exact.reset();
    assert_eq!(exact.compute(), None);
}

#[test]
fn exact_auroc_two_thirds() {
    let mut exact = BinaryAuroc::new(0);
    exact
        .update(&scores(&[0.9, 0.8, 0.7, 0.4, 0.2]), &[1, 1, 0, 0, 1])
        .unwrap();
    let r = exact.compute().unwrap();
    assert_eq!(r, Ratio { numerator: 8, denominator: 12 });
    assert!((value(r) - 2.0 / 3.0).abs() < f64::EPSILON);
}

#[test]
fn exact_auroc_counts_ties_as_half() {
    let mut exact = BinaryAuroc::new(0);
    exact.update(&scores(&[0.5, 0.5, 0.5, 0.5]), &[1, 0, 1, 0]).unwrap();
    assert!((value(exact.compute().unwrap()) - 0.5).abs() < f64::EPSILON);
    exact.update(&scores(&[0.9]), &[1]).unwrap();
    // The new positive outranks both negatives: 4 ties count 1 each, 2 wins count 2 each.
    assert_eq!(exact.compute(), Some(Ratio { numerator: 8, denominator: 12 }));
}

#[test]
fn exact_and_fine_binned_agree() {
    let preds = scores(&[0.9, 0.8, 0.7, 0.4, 0.2, 0.35, 0.61, 0.05]);
    let targets = [1, 1, 0, 0, 1, 0, 1, 0];
    let mut exact = BinaryAuroc::new(0);
    exact.update(&preds, &targets).unwrap();
    let mut binned = BinaryAuroc::new(100_000);
    binned.update(&preds, &targets).unwrap();
    let e = value(exact.compute().unwrap());
    let b = value(binned.compute().unwrap());
    assert!((e - b).abs() < 1e-3);
}

#[test]
fn auroc_ignores_monotonic_rescaling() {
    let raw = [0.9, 0.8, 0.7, 0.4, 0.2, 0.4];
    let targets = [1, 0, 1, 0, 1, 1];
    let halved: Vec<f64> = raw.iter().map(|v| v * v / 2.0).collect();
    let mut a = BinaryAuroc::new(0);
    a.update(&scores(&raw), &targets).unwrap();
    let mut b = BinaryAuroc::new(0);
    b.update(&scores(&halved), &targets).unwrap();
    assert_eq!(a.compute(), b.compute());
}

#[test]
fn auroc_needs_both_labels() {
    let mut exact = BinaryAuroc::new(0);
    assert_eq!(exact.compute(), None);
    exact.update(&scores(&[0.3, 0.6]), &[1, 1]).unwrap();
    assert_eq!(exact.compute(), None);
    let mut binned = BinaryAuroc::default();
    binned.update(&scores(&[0.3, 0.6]), &[0, 0]).unwrap();
    assert_eq!(binned.compute(), None);
    binned.update(&scores(&[0.7]), &[1]).unwrap();
    assert_eq!(binned.compute(), Some(Ratio { numerator: 4, denominator: 4 }));
    binned.reset();
    assert_eq!(binned.compute(), None);
}

#[test]
fn auroc_rejects_bad_batches() {
    let mut binned = BinaryAuroc::new(10);
    assert_eq!(
        binned.update(&scores(&[0.3]), &[1, 0]),
        Err(MetricError::LengthMismatch { predictions: 1, targets: 2 })
    );
    assert!(binned.update(&scores(&[0.3, 1.2]), &[1, 0]).is_err());
    assert!(binned.update(&scores(&[0.3, 0.2]), &[1, 2]).is_err());
    binned.update(&scores(&[0.3, 0.2]), &[1, 0]).unwrap();
    assert_eq!(binned.compute(), Some(Ratio { numerator: 2, denominator: 2 }));
}

#[test]
fn buckets_round_half_up() {
    assert_eq!(Score::from_bits(0.5f64.to_bits()).bucket(2), 1);
    assert_eq!(Score::from_bits(0.5f64.to_bits()).bucket(4), 2);
    assert_eq!(Score::from_bits(0.125f64.to_bits()).bucket(5), 1);
    assert_eq!(Score::from_bits(0.124f64.to_bits()).bucket(5), 0);
    assert_eq!(Score::from_bits(1.0f64.to_bits()).bucket(1000), 999);
    assert_eq!(Score::from_bits(0.0f64.to_bits()).bucket(1000), 0);
    assert_eq!(Score::from_bits((-0.0f64).to_bits()).bucket(7), 0);
    assert_eq!(Score::from_bits(1e-300f64.to_bits()).bucket(100_000), 0);
    assert_eq!(Score::from_bits(0.7f64.to_bits()).bucket(5), 3);
}

#[test]
fn ranks_follow_float_order() {
    let values = [-1.5, -0.0, 0.0, 1e-310, 0.25, 1.0, f64::INFINITY];
    for w in values.windows(2) {
        let a = Score::from_bits(w[0].to_bits());
        let b = Score::from_bits(w[1].to_bits());
        assert_eq!(a.rank() < b.rank(), w[0] < w[1]);
        assert_eq!(b.greater(&a), w[1] > w[0]);
    }
    let nan = Score::from_bits(f64::NAN.to_bits());
    assert!(nan.is_nan());
    assert!(!nan.within(&Score::zero(), &Score::one()));
    assert!(Score::from_bits((-0.0f64).to_bits()).within(&Score::zero(), &Score::one()));
}
