//! Query parameters for GitHub API requests
use vstd::prelude::*;

use crate::error::Error;
use crate::text::{push_str, str_eq, to_lowercase, unicode_lower};

verus! {

/// Issue state filter
#[derive(Debug, Clone, Copy, PartialEq, Eq, Structural)]
pub enum IssueStateFilter {
    /// Open issues only
    Open,
    /// Closed issues only
    Closed,
    /// All issues
    All,
}

/// The state filter a (lowercased) name stands for.
pub open spec fn state_named(lower: Seq<char>) -> Option<IssueStateFilter> {
    if lower == "open"@ {
        Some(IssueStateFilter::Open)
    } else if lower == "closed"@ {
        Some(IssueStateFilter::Closed)
    } else if lower == "all"@ {
        Some(IssueStateFilter::All)
    } else {
        None
    }
}

/// The pull request state filter a (lowercased) name stands for.
pub open spec fn pull_state_named(lower: Seq<char>) -> Option<PullStateFilter> {
    match state_named(lower) {
        Some(IssueStateFilter::Open) => Some(PullStateFilter::Open),
        Some(IssueStateFilter::Closed) => Some(PullStateFilter::Closed),
        Some(IssueStateFilter::All) => Some(PullStateFilter::All),
        None => None,
    }
}

impl IssueStateFilter {
    /// Parse a state name, case-insensitively: open, closed or all
    pub fn parse(s: &str) -> (r: Result<IssueStateFilter, Error>)
        ensures
            state_named(unicode_lower(s@)) matches Some(f) ==> r == Ok::<IssueStateFilter, Error>(f),
            state_named(unicode_lower(s@)) is None ==> (r matches Err(Error::Custom(m)) && m@
                == "Invalid issue state: "@ + s@),
    {
        let lower = to_lowercase(s);
        let l = lower.as_str();
        if str_eq(l, "open") {
            Ok(IssueStateFilter::Open)
        } else if str_eq(l, "closed") {
            Ok(IssueStateFilter::Closed)
        } else if str_eq(l, "all") {
            Ok(IssueStateFilter::All)
        } else {
            let mut m = String::from_str("Invalid issue state: ");
            push_str(&mut m, s);
            Err(Error::Custom(m))
        }
    }
}

impl Default for IssueStateFilter {
    fn default() -> (r: Self)
        ensures
            r == IssueStateFilter::Open,
    {
        IssueStateFilter::Open
    }
}

impl std::str::FromStr for IssueStateFilter {
    type Err = Error;

    fn from_str(s: &str) -> (r: Result<Self, Self::Err>)
        ensures
            state_named(unicode_lower(s@)) matches Some(f) ==> r == Ok::<IssueStateFilter, Error>(f),
            state_named(unicode_lower(s@)) is None ==> (r matches Err(Error::Custom(m)) && m@
                == "Invalid issue state: "@ + s@),
    {
        IssueStateFilter::parse(s)
    }
}

/// Pull request state filter
#[derive(Debug, Clone, Copy, PartialEq, Eq, Structural)]
pub enum PullStateFilter {
    /// Open PRs only
    Open,
    /// Closed PRs only
    Closed,
    /// All PRs
    All,
}

impl PullStateFilter {
    /// Parse a state name, case-insensitively: open, closed or all
    pub fn parse(s: &str) -> (r: Result<PullStateFilter, Error>)
        ensures
            pull_state_named(unicode_lower(s@)) matches Some(f) ==> r == Ok::<PullStateFilter, Error>(f),
            pull_state_named(unicode_lower(s@)) is None ==> (r matches Err(Error::Custom(m)) && m@
                == "Invalid PR state: "@ + s@),
    {
        let lower = to_lowercase(s);
        let l = lower.as_str();
        if str_eq(l, "open") {
            Ok(PullStateFilter::Open)
        } else if str_eq(l, "closed") {
            Ok(PullStateFilter::Closed)
        } else if str_eq(l, "all") {
            Ok(PullStateFilter::All)
        } else {
            let mut m = String::from_str("Invalid PR state: ");
            push_str(&mut m, s);
            Err(Error::Custom(m))
        }
    }
}

impl Default for PullStateFilter {
    fn default() -> (r: Self)
        ensures
            r == PullStateFilter::Open,
    {
        PullStateFilter::Open
    }
}

impl std::str::FromStr for PullStateFilter {
    type Err = Error;

    fn from_str(s: &str) -> (r: Result<Self, Self::Err>)
        ensures
            pull_state_named(unicode_lower(s@)) matches Some(f) ==> r == Ok::<PullStateFilter, Error>(f),
            pull_state_named(unicode_lower(s@)) is None ==> (r matches Err(Error::Custom(m)) && m@
                == "Invalid PR state: "@ + s@),
    {
        PullStateFilter::parse(s)
    }
}

/// Issue sort field
#[derive(Debug, Clone, Copy, PartialEq, Eq, Structural)]
pub enum IssueSort {
    /// Sort by creation date
    Created,
    /// Sort by update date
    Updated,
    /// Sort by comment count
    Comments,
}

impl Default for IssueSort {
    fn default() -> (r: Self)
        ensures
            r == IssueSort::Created,
    {
        IssueSort::Created
    }
}

/// Sort direction
#[derive(Debug, Clone, Copy, PartialEq, Eq, Structural)]
pub enum SortDirection {
    /// Ascending order
    Asc,
    /// Descending order
    Desc,
}

impl Default for SortDirection {
    fn default() -> (r: Self)
        ensures
            r == SortDirection::Desc,
    {
        SortDirection::Desc
    }
}

/// Parameters for listing issues
#[derive(Debug, Clone)]
pub struct IssueParams {
    /// Filter by state
    pub state: IssueStateFilter,
    /// Filter by labels
    pub labels: Option<Vec<String>>,
    /// Filter by assignee
    pub assignee: Option<String>,
    /// Filter by milestone
    pub milestone: Option<String>,
    /// Filter by creator
    pub creator: Option<String>,
    /// Filter by mentioned user
    pub mentioned: Option<String>,
    /// Filter by issues created after this instant
    pub since: Option<i64>,
    /// Sort field
    pub sort: IssueSort,
    /// Sort direction
    pub direction: SortDirection,
    /// Results per page
    pub per_page: usize,
    /// Page number
    pub page: usize,
}

impl Default for IssueParams {
    fn default() -> (r: Self)
        ensures
            r == (IssueParams {
                state: IssueStateFilter::Open,
                labels: None,
                assignee: None,
                milestone: None,
                creator: None,
                mentioned: None,
                since: None,
                sort: IssueSort::Created,
                direction: SortDirection::Desc,
                per_page: 0,
                page: 0,
            }),
    {
        IssueParams {
            state: IssueStateFilter::Open,
            labels: None,
            assignee: None,
            milestone: None,
            creator: None,
            mentioned: None,
            since: None,
            sort: IssueSort::Created,
            direction: SortDirection::Desc,
            per_page: 0,
            page: 0,
        }
    }
}

/// Parameters for every issue in `state`, 100 per page, filters unset.
pub open spec fn issue_params_for(state: IssueStateFilter) -> IssueParams {
    IssueParams {
        state,
        labels: None,
        assignee: None,
        milestone: None,
        creator: None,
        mentioned: None,
        since: None,
        sort: IssueSort::Created,
        direction: SortDirection::Desc,
        per_page: 100,
        page: 0,
    }
}

impl IssueParams {
    /// Create params for fetching all issues
    pub fn all() -> (r: Self)
        ensures
            r == issue_params_for(IssueStateFilter::All),
    {
        IssueParams { state: IssueStateFilter::All, per_page: 100, ..Default::default() }
    }

    /// Create params for fetching open issues
    pub fn open() -> (r: Self)
        ensures
            r == issue_params_for(IssueStateFilter::Open),
    {
        IssueParams { state: IssueStateFilter::Open, per_page: 100, ..Default::default() }
    }

    /// Create params for fetching closed issues
    pub fn closed() -> (r: Self)
        ensures
            r == issue_params_for(IssueStateFilter::Closed),
    {
        IssueParams { state: IssueStateFilter::Closed, per_page: 100, ..Default::default() }
    }

    /// Set labels filter
    pub fn with_labels(self, labels: Vec<String>) -> (r: Self)
        ensures
            r == (IssueParams { labels: Some(labels), ..self }),
    {
        IssueParams { labels: Some(labels), ..self }
    }

    /// Set assignee filter
    pub fn with_assignee(self, assignee: &str) -> (r: Self)
        ensures
            r.assignee matches Some(a) && a@ == assignee@,
            r == (IssueParams { assignee: r.assignee, ..self }),
    {
        IssueParams { assignee: Some(String::from_str(assignee)), ..self }
    }

    /// Set milestone filter
    pub fn with_milestone(self, milestone: &str) -> (r: Self)
        ensures
            r.milestone matches Some(m) && m@ == milestone@,
            r == (IssueParams { milestone: r.milestone, ..self }),
    {
        IssueParams { milestone: Some(String::from_str(milestone)), ..self }
    }

    /// Set since filter
    pub fn since(self, since: i64) -> (r: Self)
        ensures
            r == (IssueParams { since: Some(since), ..self }),
    {
        IssueParams { since: Some(since), ..self }
    }
}

/// The page size to request for `per_page` results per page: the API serves
/// at most 100.
pub fn request_page_size(per_page: usize) -> (r: u8)
    ensures
        r == (if per_page < 100 {
            per_page
        } else {
            100
        }),
{
    if per_page < 100 {
        per_page as u8
    } else {
        100
    }
}

/// Parameters for listing pull requests
#[derive(Debug, Clone)]
pub struct PullParams {
    /// Filter by state
    pub state: PullStateFilter,
    /// Filter by head branch
    pub head: Option<String>,
    /// Filter by base branch
    pub base: Option<String>,
    /// Sort field
    pub sort: IssueSort,
    /// Sort direction
    pub direction: SortDirection,
    /// Results per page
    pub per_page: usize,
    /// Page number
    pub page: usize,
}

impl Default for PullParams {
    fn default() -> (r: Self)
        ensures
            r == (PullParams {
                state: PullStateFilter::Open,
                head: None,
                base: None,
                sort: IssueSort::Created,
                direction: SortDirection::Desc,
                per_page: 0,
                page: 0,
            }),
    {
        PullParams {
            state: PullStateFilter::Open,
            head: None,
            base: None,
            sort: IssueSort::Created,
            direction: SortDirection::Desc,
            per_page: 0,
            page: 0,
        }
    }
}

/// Parameters for every pull request in `state`, 100 per page, filters unset.
pub open spec fn pull_params_for(state: PullStateFilter) -> PullParams {
    PullParams {
        state,
        head: None,
        base: None,
        sort: IssueSort::Created,
        direction: SortDirection::Desc,
        per_page: 100,
        page: 0,
    }
}

impl PullParams {
    /// Create params for fetching all PRs
    pub fn all() -> (r: Self)
        ensures
            r == pull_params_for(PullStateFilter::All),
    {
        PullParams { state: PullStateFilter::All, per_page: 100, ..Default::default() }
    }

    /// Create params for fetching open PRs
    pub fn open() -> (r: Self)
        ensures
            r == pull_params_for(PullStateFilter::Open),
    {
        PullParams { state: PullStateFilter::Open, per_page: 100, ..Default::default() }
    }

    /// Create params for fetching merged PRs. The listing filters by state
    /// only, so these ask for the closed PRs, among which are all merged ones.
    pub fn merged() -> (r: Self)
        ensures
            r == pull_params_for(PullStateFilter::Closed),
    {
        PullParams { state: PullStateFilter::Closed, per_page: 100, ..Default::default() }
    }
}

} // verus!
