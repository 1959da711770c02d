//! Database rows and inputs
use vstd::prelude::*;

use crate::time::valid_timestamp;

verus! {

/// Issue label association
#[derive(Debug, Clone)]
pub struct IssueLabelRow {
    pub issue_id: i64,
    pub label_id: i64,
    pub label_name: String,
    pub label_color: Option<String>,
}

/// Issue assignee association
#[derive(Debug, Clone)]
pub struct IssueAssigneeRow {
    pub issue_id: i64,
    pub user_id: i64,
    pub user_login: String,
}

/// Sync status record: when each kind of data was last synced
#[derive(Debug, Clone)]
pub struct SyncStatusRow {
    pub repository_id: i64,
    pub issues_synced_at: Option<i64>,
    pub pulls_synced_at: Option<i64>,
    pub releases_synced_at: Option<i64>,
    pub milestones_synced_at: Option<i64>,
    pub last_error: Option<String>,
    pub last_error_at: Option<i64>,
}

/// An optional instant is absent or representable.
pub open spec fn opt_valid(t: Option<i64>) -> bool {
    match t {
        Some(v) => valid_timestamp(v as int),
        None => true,
    }
}

impl SyncStatusRow {
    /// Every instant of the record is representable.
    pub open spec fn valid(&self) -> bool {
        &&& opt_valid(self.issues_synced_at)
        &&& opt_valid(self.pulls_synced_at)
        &&& opt_valid(self.releases_synced_at)
        &&& opt_valid(self.milestones_synced_at)
        &&& opt_valid(self.last_error_at)
    }
}

/// Input for creating or updating an organization
#[derive(Debug, Clone)]
pub struct OrganizationInput {
    pub name: String,
    pub base_url: Option<String>,
}

} // verus!
