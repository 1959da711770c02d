//! Metrics calculations for GitHub data
pub mod issues;

pub use issues::{AgeBucket, AgeDistribution, IssueMetrics, IssueMetricsCalculator};
pub mod pulls;

pub use pulls::{PullMetrics, PullMetricsCalculator, UnreviewedPrSummary, UnreviewedPrs};
pub mod sla;

pub use sla::{SlaCalculator, SlaReport, SlaViolation, ViolationType};
pub mod velocity;

pub use velocity::{Period, Trend, VelocityCalculator, VelocityDataPoint, VelocityMetrics};
