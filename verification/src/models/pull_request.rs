//! Pull request model and related types
use vstd::prelude::*;

use crate::models::issue::{valid_opt_timestamp, Label, Milestone};
use crate::models::user::User;
use crate::text::{eq_ignore_ascii_case_spec, str_eq_ignore_ascii_case};
use crate::time::{hours_between, num_hours_between, valid_timestamp};

verus! {

/// Pull request state
#[derive(Debug, Clone, Copy, PartialEq, Eq, Structural)]
pub enum PullState {
    /// PR is open
    Open,
    /// PR is closed (may or may not be merged)
    Closed,
}

/// Pull request size category
#[derive(Debug, Clone, Copy, PartialEq, Eq, Structural)]
pub enum PrSize {
    /// 0-10 lines
    XSmall,
    /// 11-50 lines
    Small,
    /// 51-200 lines
    Medium,
    /// 201-500 lines
    Large,
    /// 500+ lines
    XLarge,
}

/// The display label of a size category.
pub open spec fn pr_size_label(s: PrSize) -> Seq<char> {
    match s {
        PrSize::XSmall => "XS"@,
        PrSize::Small => "S"@,
        PrSize::Medium => "M"@,
        PrSize::Large => "L"@,
        PrSize::XLarge => "XL"@,
    }
}

/// The size category of a change of `lines` lines.
pub open spec fn size_for_lines(lines: int) -> PrSize {
    if lines <= 10 {
        PrSize::XSmall
    } else if lines <= 50 {
        PrSize::Small
    } else if lines <= 200 {
        PrSize::Medium
    } else if lines <= 500 {
        PrSize::Large
    } else {
        PrSize::XLarge
    }
}

/// The rank of a size category, smallest first.
pub open spec fn size_rank(s: PrSize) -> int {
    match s {
        PrSize::XSmall => 0,
        PrSize::Small => 1,
        PrSize::Medium => 2,
        PrSize::Large => 3,
        PrSize::XLarge => 4,
    }
}

/// A larger change never gets a smaller size category.
pub proof fn law_size_monotone(a: int, b: int)
    requires
        a <= b,
    ensures
        size_rank(size_for_lines(a)) <= size_rank(size_for_lines(b)),
{
}

impl PrSize {
    /// Get display label
    pub fn label(&self) -> (r: &'static str)
        ensures
            r@ == pr_size_label(*self),
    {
        match self {
            PrSize::XSmall => "XS",
            PrSize::Small => "S",
            PrSize::Medium => "M",
            PrSize::Large => "L",
            PrSize::XLarge => "XL",
        }
    }
}

/// GitHub pull request
#[derive(Debug, Clone)]
pub struct PullRequest {
    /// PR ID
    pub id: i64,
    /// PR number
    pub number: u64,
    /// PR title
    pub title: String,
    /// PR body (markdown)
    pub body: Option<String>,
    /// PR state
    pub state: PullState,
    /// Is draft PR
    pub draft: bool,
    /// PR author
    pub author: User,
    /// Labels
    pub labels: Vec<Label>,
    /// Associated milestone
    pub milestone: Option<Milestone>,
    /// Head branch ref
    pub head_ref: String,
    /// Base branch ref
    pub base_ref: String,
    /// Is merged
    pub merged: bool,
    /// Merged timestamp
    pub merged_at: Option<i64>,
    /// Lines added
    pub additions: u32,
    /// Lines deleted
    pub deletions: u32,
    /// Files changed
    pub changed_files: u32,
    /// Creation timestamp
    pub created_at: i64,
    /// Last update timestamp
    pub updated_at: i64,
    /// Closed timestamp
    pub closed_at: Option<i64>,
}

impl PullRequest {
    /// Every instant of the pull request is representable.
    pub open spec fn valid(&self) -> bool {
        &&& valid_timestamp(self.created_at as int)
        &&& valid_timestamp(self.updated_at as int)
        &&& valid_opt_timestamp(self.merged_at)
        &&& valid_opt_timestamp(self.closed_at)
    }

    /// The line count fits in a `u32`.
    pub open spec fn lines_fit(&self) -> bool {
        self.additions + self.deletions <= u32::MAX
    }

    /// Hours from creation to merge.
    pub open spec fn merge_hours_spec(&self) -> Option<int> {
        match self.merged_at {
            Some(m) => Some(hours_between(m as int, self.created_at as int)),
            None => None,
        }
    }

    /// Calculate total lines changed
    pub fn lines_changed(&self) -> (r: u32)
        requires
            self.lines_fit(),
        ensures
            r == self.additions + self.deletions,
    {
        self.additions + self.deletions
    }

    /// Get PR size category
    pub fn size_category(&self) -> (r: PrSize)
        requires
            self.lines_fit(),
        ensures
            r == size_for_lines(self.additions + self.deletions),
    {
        let lines = self.lines_changed();
        if lines <= 10 {
            PrSize::XSmall
        } else if lines <= 50 {
            PrSize::Small
        } else if lines <= 200 {
            PrSize::Medium
        } else if lines <= 500 {
            PrSize::Large
        } else {
            PrSize::XLarge
        }
    }

    /// Calculate time to merge in hours (None if not merged)
    pub fn time_to_merge_hours(&self) -> (r: Option<i64>)
        requires
            self.valid(),
        ensures
            r matches Some(h) ==> self.merge_hours_spec() == Some(h as int),
            r is None <==> self.merged_at is None,
    {
        match self.merged_at {
            Some(merged) => Some(num_hours_between(merged, self.created_at)),
            None => None,
        }
    }

    /// Check if PR is ready for review (not draft, not merged)
    pub fn is_ready_for_review(&self) -> (r: bool)
        ensures
            r == (!self.draft && self.state == PullState::Open),
    {
        !self.draft && self.state == PullState::Open
    }
}

/// Pull request review
#[derive(Debug, Clone)]
pub struct Review {
    /// Review ID
    pub id: i64,
    /// Author of the assessment
    pub user: Option<User>,
    /// Review body
    pub body: Option<String>,
    /// Review state (approved, changes_requested, commented)
    pub state: String,
    /// Submitted timestamp
    pub submitted_at: Option<i64>,
}

impl Review {
    /// Check if review is approved
    pub fn is_approved(&self) -> (r: bool)
        ensures
            r == eq_ignore_ascii_case_spec(self.state@, "approved"@),
    {
        str_eq_ignore_ascii_case(self.state.as_str(), "approved")
    }

    /// Check if changes were requested
    pub fn changes_requested(&self) -> (r: bool)
        ensures
            r == eq_ignore_ascii_case_spec(self.state@, "changes_requested"@),
    {
        str_eq_ignore_ascii_case(self.state.as_str(), "changes_requested")
    }
}

} // verus!
