use rust_metrics::{MetricError, MutualInfoScore};

#[test]
fn mutual_info_gathers_pairs() {
    let mut metric = MutualInfoScore::new();
    metric.update(&[2, 1, 0, 1, 0], &[0, 2, 1, 1, 0]).unwrap();
    assert_eq!(
        metric.update(&[1], &[]),
        Err(MetricError::LengthMismatch { predictions: 1, targets: 0 })
    );
    assert_eq!(metric.preds, vec![2, 1, 0, 1, 0]);
    assert_eq!(metric.targets, vec![0, 2, 1, 1, 0]);
    metric.reset();
    assert!(metric.preds.is_empty() && metric.targets.is_empty());
}

#[test]
fn contingency_counts_each_pair_once() {
    let mut metric = MutualInfoScore::default();
    metric.update(&[2, 1, 0, 1, 0, 1], &[0, 2, 1, 1, 0, 2]).unwrap();
    let mut table = metric.contingency();
    table.sort();
    assert_eq!(
        table,
        vec![(0, 0, 1), (0, 2, 1), (1, 0, 1), (1, 1, 1), (2, 1, 2)]
    );
}
