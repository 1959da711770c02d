//! Report generation
pub mod burndown;

pub use burndown::{
    BurndownCalculator, BurndownDataPoint, BurndownReport, BurnupReport, ScopeDataPoint,
};
pub mod release_notes;

pub use release_notes::{
    ReleaseItem, ReleaseNotes, ReleaseNotesConfig, ReleaseNotesGenerator, ReleaseSection,
    ReleaseStats,
};
