//! Scoring of word sense induction output against gold sense annotations.
//!
//! Records are grouped by head; within each group every ordered pair of
//! instances is classified by gold agreement and cluster agreement, and the
//! resulting counters are turned into Rand-Index style metrics.
pub mod record;
pub mod pairs;
pub mod grouping;
pub mod metrics;
pub mod scoring;
pub mod sums;
pub mod laws;
