//! Streaming classification metrics: confusion-matrix accumulators, the metrics derived from
//! them under micro, macro and weighted averaging, and a rank-based AUROC estimator, with the
//! text helpers that the text metrics build on.
//!
//! Scores and probabilities are carried as [`Score`] values, which hold the IEEE-754 binary64
//! bit pattern of the number; every metric value is returned as exact integer ratios.
pub mod average;
pub mod classification;
pub mod clustering;
pub mod error;
pub mod metric;
pub mod score;
pub mod tally;
pub mod text;
pub mod utils;

pub use average::{Average, AverageMethod, Ratio, WeightedRatio};
pub use classification::accuracy::{BinaryAccuracy, MulticlassAccuracy};
pub use classification::auroc::{AurocMode, BinaryAuroc};
pub use classification::confusion_matrix::BinaryConfusionMatrix;
pub use classification::f1::{BinaryF1Score, MulticlassF1Score};
pub use classification::jaccard::{BinaryJaccardIndex, MulticlassJaccardIndex};
pub use classification::precision_recall::{BinaryPrecision, BinaryRecall, MulticlassPrecision};
pub use classification::stat_scores::{BinaryStatScores, MulticlassStatScores};
pub use clustering::MutualInfoScore;
pub use error::{Expected, MetricError};
pub use metric::{Metric, NormalizationType, Reduction};
pub use score::Score;
pub use text::{
    count_ngrams, lcs_length, levenshtein_distance, ngram_overlap, normalize_char,
    normalize_text, tokenize, tokenize_with_newlines, tokenize_words, white_space,
    to_ascii_lowercase, RougeKind,
};
pub use utils::{verify_binary_label, verify_label, verify_range};
