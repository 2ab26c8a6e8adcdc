//! Classification metrics: confusion-matrix accumulators, the metrics derived from them, and
//! the AUROC estimator.
pub mod accuracy;
pub mod auroc;
pub mod confusion_matrix;
pub mod f1;
pub mod jaccard;
pub mod precision_recall;
pub mod rank;
pub mod stat_scores;
