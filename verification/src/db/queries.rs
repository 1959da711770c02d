//! The logic of the database queries: their SQL text, the statistics read
//! from grouped counts, and when cached data needs a refresh
use vstd::prelude::*;

use crate::db::models::SyncStatusRow;
use crate::text::{i64_to_decimal, push_str, signed_decimal, str_eq};
use crate::time::{clock_instant, now_timestamp, valid_timestamp, ClockUnavailable};

verus! {

/// Repository statistics
#[derive(Debug, Clone, Copy, PartialEq, Eq, Structural)]
pub struct RepositoryStats {
    pub open_issues: i64,
    pub closed_issues: i64,
    pub open_prs: i64,
    pub merged_prs: i64,
    pub closed_prs: i64,
    pub releases: i64,
}

/// ` LIMIT n` when a limit is given.
pub open spec fn limit_clause(limit: Option<i64>) -> Seq<char> {
    match limit {
        Some(l) => " LIMIT "@ + signed_decimal(l as int),
        None => Seq::empty(),
    }
}

/// The query listing a repository's issues, newest first: the repository as
/// `$1`, then the state and the milestone as the next parameters when given.
pub open spec fn list_issues_sql(has_state: bool, has_milestone: bool, limit: Option<i64>) -> Seq<char> {
    "SELECT * FROM issues WHERE repository_id = $1"@ + (if has_state {
        " AND state = $2"@
    } else {
        Seq::empty()
    }) + (if has_milestone {
        " AND milestone_id = $"@ + (if has_state {
            "3"@
        } else {
            "2"@
        })
    } else {
        Seq::empty()
    }) + " ORDER BY created_at DESC"@ + limit_clause(limit)
}

/// The query listing a repository's pull requests, newest first: the
/// repository as `$1`, then the state as `$2` when given.
pub open spec fn list_pull_requests_sql(has_state: bool, limit: Option<i64>) -> Seq<char> {
    "SELECT * FROM pull_requests WHERE repository_id = $1"@ + (if has_state {
        " AND state = $2"@
    } else {
        Seq::empty()
    }) + " ORDER BY created_at DESC"@ + limit_clause(limit)
}

fn push_limit(q: &mut String, limit: Option<i64>)
    ensures
        final(q)@ == old(q)@ + limit_clause(limit),
{
    if let Some(l) = limit {
        push_str(q, " LIMIT ");
        let n = i64_to_decimal(l);
        push_str(q, n.as_str());
    } else {
        assert(old(q)@ + limit_clause(limit) =~= old(q)@);
    }
}

/// The SQL that lists a repository's issues, filtered by state and
/// milestone when given, newest first, at most `limit` of them
pub fn list_issues_query(state: Option<&str>, milestone_id: Option<i64>, limit: Option<i64>) -> (q: String)
    ensures
        q@ == list_issues_sql(state is Some, milestone_id is Some, limit),
{
    let mut query = String::from_str("SELECT * FROM issues WHERE repository_id = $1");
    let ghost base = query@;
    if state.is_some() {
        push_str(&mut query, " AND state = $2");
    }
    let ghost with_state = query@;
    if milestone_id.is_some() {
        push_str(&mut query, " AND milestone_id = $");
        if state.is_some() {
            push_str(&mut query, "3");
        } else {
            push_str(&mut query, "2");
        }
    }
    push_str(&mut query, " ORDER BY created_at DESC");
    push_limit(&mut query, limit);
    assert(query@ =~= list_issues_sql(state is Some, milestone_id is Some, limit));
    query
}

/// The SQL that lists a repository's pull requests, filtered by state when
/// given, newest first, at most `limit` of them
pub fn list_pull_requests_query(state: Option<&str>, limit: Option<i64>) -> (q: String)
    ensures
        q@ == list_pull_requests_sql(state is Some, limit),
{
    let mut query = String::from_str("SELECT * FROM pull_requests WHERE repository_id = $1");
    if state.is_some() {
        push_str(&mut query, " AND state = $2");
    }
    push_str(&mut query, " ORDER BY created_at DESC");
    push_limit(&mut query, limit);
    assert(query@ =~= list_pull_requests_sql(state is Some, limit));
    query
}

/// ` OFFSET n` when an offset is given.
pub open spec fn offset_clause(offset: Option<i64>) -> Seq<char> {
    match offset {
        Some(o) => " OFFSET "@ + signed_decimal(o as int),
        None => Seq::empty(),
    }
}

/// The query listing a project's items, most recently updated first: the
/// project as `$1`, then the content type and the content state as the next
/// parameters when given.
pub open spec fn list_project_items_sql(
    has_type: bool,
    has_state: bool,
    limit: Option<i64>,
    offset: Option<i64>,
) -> Seq<char> {
    "SELECT * FROM project_items WHERE project_id = $1"@ + (if has_type {
        " AND content_type = $2"@
    } else {
        Seq::empty()
    }) + (if has_state {
        " AND content_state = $"@ + (if has_type {
            "3"@
        } else {
            "2"@
        })
    } else {
        Seq::empty()
    }) + " ORDER BY updated_at DESC"@ + limit_clause(limit) + offset_clause(offset)
}

/// The SQL that lists a project's items, filtered by content type and state
/// when given, most recently updated first, with an optional limit and offset
pub fn list_project_items_query(
    content_type: Option<&str>,
    content_state: Option<&str>,
    limit: Option<i64>,
    offset: Option<i64>,
) -> (q: String)
    ensures
        q@ == list_project_items_sql(content_type is Some, content_state is Some, limit, offset),
{
    let mut query = String::from_str("SELECT * FROM project_items WHERE project_id = $1");
    if content_type.is_some() {
        push_str(&mut query, " AND content_type = $2");
    }
    if content_state.is_some() {
        push_str(&mut query, " AND content_state = $");
        if content_type.is_some() {
            push_str(&mut query, "3");
        } else {
            push_str(&mut query, "2");
        }
    }
    push_str(&mut query, " ORDER BY updated_at DESC");
    push_limit(&mut query, limit);
    if let Some(o) = offset {
        push_str(&mut query, " OFFSET ");
        let n = i64_to_decimal(o);
        push_str(&mut query, n.as_str());
    }
    assert(query@ =~= list_project_items_sql(content_type is Some, content_state is Some, limit, offset));
    query
}

/// The count of the last group named `state`, 0 when there is none.
pub open spec fn count_for(counts: Seq<(String, i64)>, state: Seq<char>) -> i64
    decreases counts.len(),
{
    if counts.len() == 0 {
        0
    } else if counts.last().0@ == state {
        counts.last().1
    } else {
        count_for(counts.drop_last(), state)
    }
}

fn open_closed_counts(counts: &[(String, i64)]) -> (r: (i64, i64))
    ensures
        r.0 == count_for(counts@, "open"@),
        r.1 == count_for(counts@, "closed"@),
{
    let mut open: i64 = 0;
    let mut closed: i64 = 0;
    let mut i: usize = 0;
    while i < counts.len()
        invariant
            i <= counts@.len(),
            open == count_for(counts@.take(i as int), "open"@),
            closed == count_for(counts@.take(i as int), "closed"@),
        decreases counts@.len() - i,
    {
        assert(counts@.take(i + 1).drop_last() =~= counts@.take(i as int));
        assert(counts@.take(i + 1).last() == counts@[i as int]);
        let (state, count) = (&counts[i].0, counts[i].1);
        if str_eq(state.as_str(), "open") {
            open = count;
        } else if str_eq(state.as_str(), "closed") {
            closed = count;
        }
        proof {
            reveal_strlit("open");
            reveal_strlit("closed");
            assert("open"@.len() != "closed"@.len());
        }
        i = i + 1;
    }
    assert(counts@.take(i as int) =~= counts@);
    (open, closed)
}

/// Repository statistics from the issue and pull request counts grouped by
/// state, the count of merged pull requests and the count of releases
pub fn stats_from_counts(
    issue_counts: &[(String, i64)],
    pr_counts: &[(String, i64)],
    merged_prs: i64,
    releases: i64,
) -> (s: RepositoryStats)
    ensures
        s == (RepositoryStats {
            open_issues: count_for(issue_counts@, "open"@),
            closed_issues: count_for(issue_counts@, "closed"@),
            open_prs: count_for(pr_counts@, "open"@),
            merged_prs,
            closed_prs: count_for(pr_counts@, "closed"@),
            releases,
        }),
{
    let (open_issues, closed_issues) = open_closed_counts(issue_counts);
    let (open_prs, closed_prs) = open_closed_counts(pr_counts);
    RepositoryStats { open_issues, closed_issues, open_prs, merged_prs, closed_prs, releases }
}

/// When the data of the named kind was last synced, if ever.
pub open spec fn synced_at_for(status: Option<SyncStatusRow>, data_type: Seq<char>) -> Option<i64> {
    match status {
        None => None,
        Some(s) => if data_type == "issues"@ {
            s.issues_synced_at
        } else if data_type == "pulls"@ {
            s.pulls_synced_at
        } else if data_type == "releases"@ {
            s.releases_synced_at
        } else if data_type == "milestones"@ {
            s.milestones_synced_at
        } else {
            None
        },
    }
}

/// Cached data needs a refresh when it was never synced or is older than
/// `max_age_seconds` at `now`.
pub open spec fn refresh_due(synced_at: Option<i64>, max_age_seconds: i64, now: int) -> bool {
    match synced_at {
        None => true,
        Some(t) => now - t > max_age_seconds,
    }
}

/// The instant the data of kind `data_type` was last synced, from the
/// repository's sync status.
fn synced_at_of(status: Option<&SyncStatusRow>, data_type: &str) -> (r: Option<i64>)
    ensures
        r == synced_at_for(
            match status {
                Some(s) => Some(*s),
                None => None,
            },
            data_type@,
        ),
{
    match status {
        None => None,
        Some(s) => if str_eq(data_type, "issues") {
            s.issues_synced_at
        } else if str_eq(data_type, "pulls") {
            s.pulls_synced_at
        } else if str_eq(data_type, "releases") {
            s.releases_synced_at
        } else if str_eq(data_type, "milestones") {
            s.milestones_synced_at
        } else {
            None
        },
    }
}

/// Whether the data of kind `data_type` ("issues", "pulls", "releases" or
/// "milestones") needs a refresh at `now`, given the repository's sync status
pub fn needs_refresh_at(status: Option<&SyncStatusRow>, data_type: &str, max_age_seconds: i64, now: i64) -> (r: bool)
    requires
        valid_timestamp(now as int),
        status matches Some(s) ==> s.valid(),
    ensures
        r == refresh_due(
            synced_at_for(
                match status {
                    Some(s) => Some(*s),
                    None => None,
                },
                data_type@,
            ),
            max_age_seconds,
            now as int,
        ),
{
    let synced_at = synced_at_of(status, data_type);
    match synced_at {
        None => true,
        Some(t) => now - t > max_age_seconds,
    }
}

/// Whether the data of kind `data_type` needs a refresh now, given the
/// repository's sync status. The clock is read only when the data was synced;
/// an error when it cannot be read.
pub fn needs_refresh_now(status: Option<&SyncStatusRow>, data_type: &str, max_age_seconds: i64) -> (r:
    Result<bool, ClockUnavailable>)
    requires
        status matches Some(s) ==> s.valid(),
    ensures
        r matches Ok(b) ==> exists|now: int|
            clock_instant(now) && b == refresh_due(
                synced_at_for(
                    match status {
                        Some(s) => Some(*s),
                        None => None,
                    },
                    data_type@,
                ),
                max_age_seconds,
                now,
            ),
        synced_at_for(
            match status {
                Some(s) => Some(*s),
                None => None,
            },
            data_type@,
        ) is None ==> r == Ok::<bool, ClockUnavailable>(true),
{
    match synced_at_of(status, data_type) {
        None => {
            assert(clock_instant(0) && refresh_due(None, max_age_seconds, 0));
            Ok(true)
        },
        Some(_) => match now_timestamp() {
            Some(now) => Ok(needs_refresh_at(status, data_type, max_age_seconds, now)),
            None => Err(ClockUnavailable),
        },
    }
}

} // verus!
