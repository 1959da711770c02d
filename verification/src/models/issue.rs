//! Issue model and related types
use vstd::prelude::*;

use crate::models::user::User;
use crate::text::{eq_ignore_ascii_case_spec, str_eq_ignore_ascii_case};
use crate::time::{
    clock_instant, days_between, hours_between, now_timestamp, num_days_between, num_hours_between,
    valid_timestamp, ClockUnavailable, MAX_TIMESTAMP, MIN_TIMESTAMP, SECS_PER_DAY,
};

verus! {

/// Issue state
#[derive(Debug, Clone, Copy, PartialEq, Eq, Structural)]
pub enum IssueState {
    /// Issue is open
    Open,
    /// Issue is closed
    Closed,
}

/// Issue label
#[derive(Debug, Clone)]
pub struct Label {
    /// Label ID
    pub id: i64,
    /// Label name
    pub name: String,
    /// Label color (hex)
    pub color: String,
    /// Label description
    pub description: Option<String>,
}

/// Milestone state
#[derive(Debug, Clone, Copy, PartialEq, Eq, Structural)]
pub enum MilestoneState {
    /// Milestone is open
    Open,
    /// Milestone is closed
    Closed,
}

/// An optional instant is absent or representable.
pub open spec fn valid_opt_timestamp(t: Option<i64>) -> bool {
    match t {
        Some(v) => valid_timestamp(v as int),
        None => true,
    }
}

/// Milestone
#[derive(Debug, Clone)]
pub struct Milestone {
    /// Milestone ID
    pub id: i64,
    /// Milestone number
    pub number: u64,
    /// Milestone title
    pub title: String,
    /// Description
    pub description: Option<String>,
    /// Milestone state
    pub state: MilestoneState,
    /// Number of open issues
    pub open_issues: u32,
    /// Number of closed issues
    pub closed_issues: u32,
    /// Due date
    pub due_on: Option<i64>,
    /// Creation timestamp
    pub created_at: i64,
    /// Closed timestamp
    pub closed_at: Option<i64>,
}

impl Milestone {
    /// Every instant of the milestone is representable.
    pub open spec fn valid(&self) -> bool {
        &&& valid_opt_timestamp(self.due_on)
        &&& valid_timestamp(self.created_at as int)
        &&& valid_opt_timestamp(self.closed_at)
    }

    /// The milestone is open and its due date lies before `now`.
    pub open spec fn overdue_at(&self, now: int) -> bool {
        match (self.due_on, self.state) {
            (Some(due), MilestoneState::Open) => due < now,
            _ => false,
        }
    }

    /// Check if milestone is overdue at the given instant
    pub fn is_overdue_at(&self, now: i64) -> (r: bool)
        ensures
            r == self.overdue_at(now as int),
    {
        match (self.due_on, self.state) {
            (Some(due), MilestoneState::Open) => due < now,
            _ => false,
        }
    }

    /// Check if milestone is overdue against the current time; an error when
    /// the clock cannot be read.
    pub fn is_overdue(&self) -> (r: Result<bool, ClockUnavailable>)
        ensures
            r matches Ok(b) ==> exists|now: int| clock_instant(now) && b == self.overdue_at(now),
            self.due_on is None || self.state != MilestoneState::Open ==> r == Ok::<
                bool,
                ClockUnavailable,
            >(false),
    {
        match (self.due_on, self.state) {
            (Some(due), MilestoneState::Open) => match now_timestamp() {
                Some(now) => Ok(due < now),
                None => Err(ClockUnavailable),
            },
            _ => {
                assert(clock_instant(0) && !self.overdue_at(0));
                Ok(false)
            },
        }
    }
}

/// GitHub issue
#[derive(Debug, Clone)]
pub struct Issue {
    /// Issue ID
    pub id: i64,
    /// Issue number
    pub number: u64,
    /// Issue title
    pub title: String,
    /// Issue body (markdown)
    pub body: Option<String>,
    /// Issue state
    pub state: IssueState,
    /// Labels attached to the issue
    pub labels: Vec<Label>,
    /// Assigned users
    pub assignees: Vec<User>,
    /// Associated milestone
    pub milestone: Option<Milestone>,
    /// Issue author
    pub author: User,
    /// Number of comments
    pub comments_count: u32,
    /// Creation timestamp
    pub created_at: i64,
    /// Last update timestamp
    pub updated_at: i64,
    /// Closed timestamp
    pub closed_at: Option<i64>,
    /// User who closed the issue
    pub closed_by: Option<User>,
}

/// The instant `days` whole days before `now`, when that is representable.
pub open spec fn stale_threshold_in_range(now: int, days: int) -> bool {
    valid_timestamp(now - days * SECS_PER_DAY)
}

/// A span of days that reaches back to a representable instant from every
/// instant the clock can read: `0 <= days <= 96_465_293`.
pub open spec fn stale_days_fit(days: int) -> bool {
    0 <= days && days * SECS_PER_DAY <= -MIN_TIMESTAMP
}

impl Issue {
    /// Every instant of the issue is representable.
    pub open spec fn valid(&self) -> bool {
        &&& valid_timestamp(self.created_at as int)
        &&& valid_timestamp(self.updated_at as int)
        &&& valid_opt_timestamp(self.closed_at)
        &&& match self.milestone {
            Some(m) => m.valid(),
            None => true,
        }
    }

    /// Age in whole days: from creation to closing, or to `now` while open.
    pub open spec fn age_days_spec(&self, now: int) -> int {
        match self.closed_at {
            Some(c) => days_between(c as int, self.created_at as int),
            None => days_between(now, self.created_at as int),
        }
    }

    /// Hours from creation to closing.
    pub open spec fn close_hours_spec(&self) -> Option<int> {
        match self.closed_at {
            Some(c) => Some(hours_between(c as int, self.created_at as int)),
            None => None,
        }
    }

    /// Open and not updated since `days` days before `now`.
    pub open spec fn stale_at(&self, days: int, now: int) -> bool {
        self.updated_at < now - days * SECS_PER_DAY && self.state == IssueState::Open
    }

    /// Calculate the age of the issue in days at the given instant
    pub fn age_days_at(&self, now: i64) -> (r: i64)
        requires
            self.valid(),
            valid_timestamp(now as int),
        ensures
            r == self.age_days_spec(now as int),
    {
        let end = match self.closed_at {
            Some(c) => c,
            None => now,
        };
        num_days_between(end, self.created_at)
    }

    /// Calculate the age of the issue in days (open issues age until now); an
    /// error when the clock cannot be read.
    pub fn age_days(&self) -> (r: Result<i64, ClockUnavailable>)
        requires
            self.valid(),
        ensures
            r matches Ok(a) ==> exists|now: int| clock_instant(now) && a == self.age_days_spec(now),
            self.closed_at is Some ==> r == Ok::<i64, ClockUnavailable>(self.age_days_spec(0) as i64),
    {
        match self.closed_at {
            Some(closed) => {
                let a = num_days_between(closed, self.created_at);
                assert(clock_instant(0) && a == self.age_days_spec(0));
                Ok(a)
            },
            None => match now_timestamp() {
                Some(now) => Ok(self.age_days_at(now)),
                None => Err(ClockUnavailable),
            },
        }
    }

    /// Calculate time to close in hours (None if still open)
    pub fn time_to_close_hours(&self) -> (r: Option<i64>)
        requires
            self.valid(),
        ensures
            r matches Some(h) ==> self.close_hours_spec() == Some(h as int),
            r is None <==> self.closed_at is None,
    {
        match self.closed_at {
            Some(closed) => Some(num_hours_between(closed, self.created_at)),
            None => None,
        }
    }

    /// Calculate time to close in days (None if still open)
    pub fn time_to_close_days(&self) -> (r: Option<i64>)
        requires
            self.valid(),
        ensures
            r matches Some(d) ==> self.closed_at matches Some(c) && d == days_between(
                c as int,
                self.created_at as int,
            ),
            r is None <==> self.closed_at is None,
    {
        match self.closed_at {
            Some(closed) => Some(num_days_between(closed, self.created_at)),
            None => None,
        }
    }

    /// Check if issue is stale (no update in `days` days before `now`)
    pub fn is_stale_at(&self, days: i64, now: i64) -> (r: bool)
        requires
            valid_timestamp(now as int),
            stale_threshold_in_range(now as int, days as int),
        ensures
            r == self.stale_at(days as int, now as int),
    {
        let threshold = now - days * SECS_PER_DAY;
        self.updated_at < threshold && self.state == IssueState::Open
    }

    /// Check if issue is stale (no update in N days) against the current time.
    /// `Ok(None)` when the instant `days` days before the current time is not
    /// representable; an error when the clock cannot be read.
    pub fn is_stale(&self, days: i64) -> (r: Result<Option<bool>, ClockUnavailable>)
        ensures
            r matches Ok(Some(b)) ==> exists|now: int|
                clock_instant(now) && stale_threshold_in_range(now, days as int) && b == self.stale_at(
                    days as int,
                    now,
                ),
            r matches Ok(None) ==> exists|now: int|
                clock_instant(now) && !stale_threshold_in_range(now, days as int),
            stale_days_fit(days as int) ==> !(r matches Ok(None)),
    {
        let now = match now_timestamp() {
            Some(t) => t,
            None => {
                return Err(ClockUnavailable);
            },
        };
        if days > 106751991167i64 || days < -106751991167i64 {
            assert(!stale_threshold_in_range(now as int, days as int));
            return Ok(None);
        }
        let threshold = now - days * SECS_PER_DAY;
        if threshold < MIN_TIMESTAMP || threshold > MAX_TIMESTAMP {
            return Ok(None);
        }
        Ok(Some(self.is_stale_at(days, now)))
    }

    /// The issue carries a label whose name matches `name` ignoring ASCII case.
    pub open spec fn has_label_spec(&self, name: Seq<char>) -> bool {
        exists|i: int|
            0 <= i < self.labels.len() && eq_ignore_ascii_case_spec(
                #[trigger] self.labels@[i].name@,
                name,
            )
    }

    /// Check if issue has a specific label (case-insensitive)
    pub fn has_label(&self, name: &str) -> (r: bool)
        ensures
            r == self.has_label_spec(name@),
    {
        let mut i: usize = 0;
        while i < self.labels.len()
            invariant
                i <= self.labels.len(),
                forall|j: int|
                    0 <= j < i ==> !eq_ignore_ascii_case_spec(#[trigger] self.labels@[j].name@, name@),
            decreases self.labels.len() - i,
        {
            if str_eq_ignore_ascii_case(self.labels[i].name.as_str(), name) {
                return true;
            }
            i = i + 1;
        }
        false
    }

    /// Get label names
    pub fn label_names(&self) -> (r: Vec<&str>)
        ensures
            r@.len() == self.labels@.len(),
            forall|i: int| 0 <= i < r@.len() ==> (#[trigger] r@[i])@ == self.labels@[i].name@,
    {
        let mut r: Vec<&str> = Vec::new();
        let mut i: usize = 0;
        while i < self.labels.len()
            invariant
                i <= self.labels.len(),
                r@.len() == i,
                forall|j: int| 0 <= j < i ==> (#[trigger] r@[j])@ == self.labels@[j].name@,
            decreases self.labels.len() - i,
        {
            r.push(self.labels[i].name.as_str());
            i = i + 1;
        }
        r
    }

    /// Get assignee logins
    pub fn assignee_logins(&self) -> (r: Vec<&str>)
        ensures
            r@.len() == self.assignees@.len(),
            forall|i: int| 0 <= i < r@.len() ==> (#[trigger] r@[i])@ == self.assignees@[i].login@,
    {
        let mut r: Vec<&str> = Vec::new();
        let mut i: usize = 0;
        while i < self.assignees.len()
            invariant
                i <= self.assignees.len(),
                r@.len() == i,
                forall|j: int| 0 <= j < i ==> (#[trigger] r@[j])@ == self.assignees@[j].login@,
            decreases self.assignees.len() - i,
        {
            r.push(self.assignees[i].login.as_str());
            i = i + 1;
        }
        r
    }

    /// Check if issue is assigned
    pub fn is_assigned(&self) -> (r: bool)
        ensures
            r == (self.assignees@.len() > 0),
    {
        self.assignees.len() != 0
    }
}

/// Issue timeline event
#[derive(Debug, Clone)]
pub struct IssueEvent {
    /// Event ID
    pub id: i64,
    /// Event type (labeled, assigned, closed, etc.)
    pub event_type: String,
    /// Actor who triggered the event
    pub actor: Option<User>,
    /// Event timestamp
    pub created_at: i64,
    /// Label name (for label events)
    pub label_name: Option<String>,
    /// Assignee (for assignment events)
    pub assignee: Option<User>,
}

/// Staleness is judged by the last update, never by creation: an issue is
/// stale at `now` exactly when it is open and was last updated before the
/// instant `days` days earlier; two issues that differ only in when they were
/// created are equally stale.
pub proof fn law_stale_by_last_update(a: Issue, b: Issue, days: int, now: int)
    ensures
        a.stale_at(days, now) <==> (a.state == IssueState::Open && a.updated_at < now - days * 86400),
        a.updated_at >= now - days * 86400 ==> !a.stale_at(days, now),
        a.state == b.state && a.updated_at == b.updated_at ==> (a.stale_at(days, now) <==> b.stale_at(
            days,
            now,
        )),
{
}

} // verus!
