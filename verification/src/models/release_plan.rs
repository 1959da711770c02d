//! Release management plan model types
use vstd::prelude::*;

use crate::models::release::Release;

verus! {

/// Status of an upcoming release milestone
#[derive(Debug, Clone, Copy, PartialEq, Eq, Structural)]
pub enum ReleasePlanStatus {
    /// Milestone is progressing normally
    OnTrack,
    /// Less than 25% time remaining with less than 75% issues closed
    AtRisk,
    /// Due date has passed and milestone is still open
    Overdue,
}

/// A recently published release
#[derive(Debug, Clone)]
pub struct RecentRelease {
    /// The release
    pub release: Release,
    /// Repository full name
    pub repository: String,
    /// Release type classification
    pub release_type: String,
}

} // verus!
