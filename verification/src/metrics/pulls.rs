//! Pull request metrics calculations
use vstd::prelude::*;

use crate::models::pull_request::{pr_size_label, size_for_lines, PullRequest, PullState};
use crate::stats::{median, median_spec, Median};
use crate::tally::{is_tally_of, lemma_empty_tally, tally_add};
use crate::time::hours_between;

verus! {

/// Aggregated pull request metrics. The mean time to merge is
/// `merge_time_total_hours / merge_time_samples` (no mean without samples).
#[derive(Debug, Clone)]
pub struct PullMetrics {
    /// Total number of PRs
    pub total: usize,
    /// Number of open PRs
    pub open: usize,
    /// Number of merged PRs
    pub merged: usize,
    /// Number of closed (not merged) PRs
    pub closed_unmerged: usize,
    /// Sum of the times to merge (hours) of the merged PRs that have a merge time
    pub merge_time_total_hours: i128,
    /// Number of merged PRs that have a merge time
    pub merge_time_samples: usize,
    /// Median time to merge (hours)
    pub median_time_to_merge_hours: Option<Median>,
    /// PRs by size category
    pub by_size: Vec<(String, usize)>,
    /// PRs by author
    pub by_author: Vec<(String, usize)>,
    /// PRs by base branch
    pub by_base_branch: Vec<(String, usize)>,
    /// Number of draft PRs
    pub draft_count: usize,
}

/// Calculator for pull request metrics
pub struct PullMetricsCalculator;

/// Number of pull requests satisfying a predicate.
pub open spec fn count_prs(s: Seq<PullRequest>, p: spec_fn(PullRequest) -> bool) -> nat
    decreases s.len(),
{
    if s.len() == 0 {
        0
    } else {
        count_prs(s.drop_last(), p) + if p(s.last()) {
            1nat
        } else {
            0nat
        }
    }
}

pub open spec fn is_open_pr() -> spec_fn(PullRequest) -> bool {
    |p: PullRequest| p.state == PullState::Open
}

pub open spec fn is_merged_pr() -> spec_fn(PullRequest) -> bool {
    |p: PullRequest| p.merged
}

pub open spec fn is_closed_unmerged_pr() -> spec_fn(PullRequest) -> bool {
    |p: PullRequest| p.state == PullState::Closed && !p.merged
}

pub open spec fn is_draft_pr() -> spec_fn(PullRequest) -> bool {
    |p: PullRequest| p.draft
}

/// Times to merge (hours), in order, of the merged PRs that have a merge time.
pub open spec fn merge_times(s: Seq<PullRequest>) -> Seq<i64>
    decreases s.len(),
{
    if s.len() == 0 {
        Seq::empty()
    } else {
        let last = s.last();
        merge_times(s.drop_last()) + if last.merged && last.merged_at is Some {
            seq![hours_between(last.merged_at->0 as int, last.created_at as int) as i64]
        } else {
            Seq::empty()
        }
    }
}

/// Sum of a sequence of integers.
pub open spec fn sum_of(s: Seq<i64>) -> int
    decreases s.len(),
{
    if s.len() == 0 {
        0
    } else {
        sum_of(s.drop_last()) + s.last()
    }
}

/// The size labels of the PRs, in order.
pub open spec fn size_keys(s: Seq<PullRequest>) -> Seq<Seq<char>> {
    Seq::new(s.len(), |i: int| pr_size_label(size_for_lines(s[i].additions + s[i].deletions)))
}

/// The author logins of the PRs, in order.
pub open spec fn author_keys(s: Seq<PullRequest>) -> Seq<Seq<char>> {
    Seq::new(s.len(), |i: int| s[i].author.login@)
}

/// The base branches of the PRs, in order.
pub open spec fn base_branch_keys(s: Seq<PullRequest>) -> Seq<Seq<char>> {
    Seq::new(s.len(), |i: int| s[i].base_ref@)
}

/// All PRs are well formed and their line counts fit in a `u32`.
pub open spec fn all_prs_valid(s: Seq<PullRequest>) -> bool {
    forall|i: int| 0 <= i < s.len() ==> (#[trigger] s[i]).valid() && s[i].lines_fit()
}

/// The metrics of the PRs `s`.
pub open spec fn is_pull_metrics(m: PullMetrics, s: Seq<PullRequest>) -> bool {
    &&& m.total == s.len()
    &&& m.open == count_prs(s, is_open_pr())
    &&& m.merged == count_prs(s, is_merged_pr())
    &&& m.closed_unmerged == count_prs(s, is_closed_unmerged_pr())
    &&& m.merge_time_total_hours == sum_of(merge_times(s))
    &&& m.merge_time_samples == merge_times(s).len()
    &&& m.median_time_to_merge_hours == median_spec(merge_times(s))
    &&& is_tally_of(m.by_size@, size_keys(s))
    &&& is_tally_of(m.by_author@, author_keys(s))
    &&& is_tally_of(m.by_base_branch@, base_branch_keys(s))
    &&& m.draft_count == count_prs(s, is_draft_pr())
}

proof fn lemma_take_succ<A>(s: Seq<A>, i: int)
    requires
        0 <= i < s.len(),
    ensures
        s.take(i + 1).drop_last() == s.take(i),
        s.take(i + 1).last() == s[i],
{
    assert(s.take(i + 1).drop_last() =~= s.take(i));
}

fn count_where(prs: &[PullRequest], which: u8) -> (r: usize)
    requires
        which < 4,
    ensures
        which == 0 ==> r == count_prs(prs@, is_open_pr()),
        which == 1 ==> r == count_prs(prs@, is_merged_pr()),
        which == 2 ==> r == count_prs(prs@, is_closed_unmerged_pr()),
        which == 3 ==> r == count_prs(prs@, is_draft_pr()),
{
    let ghost p = if which == 0 {
        is_open_pr()
    } else if which == 1 {
        is_merged_pr()
    } else if which == 2 {
        is_closed_unmerged_pr()
    } else {
        is_draft_pr()
    };
    let mut count: usize = 0;
    let mut i: usize = 0;
    while i < prs.len()
        invariant
            i <= prs.len(),
            count <= i,
            which < 4,
            p == (if which == 0 {
                is_open_pr()
            } else if which == 1 {
                is_merged_pr()
            } else if which == 2 {
                is_closed_unmerged_pr()
            } else {
                is_draft_pr()
            }),
            count == count_prs(prs@.take(i as int), p),
        decreases prs.len() - i,
    {
        proof {
            lemma_take_succ(prs@, i as int);
        }
        let pr = &prs[i];
        let hit = if which == 0 {
            pr.state == PullState::Open
        } else if which == 1 {
            pr.merged
        } else if which == 2 {
            pr.state == PullState::Closed && !pr.merged
        } else {
            pr.draft
        };
        if hit {
            count = count + 1;
        }
        i = i + 1;
    }
    assert(prs@.take(prs.len() as int) =~= prs@);
    count
}

fn merge_times_of(prs: &[PullRequest]) -> (v: Vec<i64>)
    requires
        all_prs_valid(prs@),
    ensures
        v@ == merge_times(prs@),
        forall|k: int| 0 <= k < v@.len() ==> -4595796720 <= #[trigger] v@[k] <= 4595796720,
{
    let mut v: Vec<i64> = Vec::new();
    let mut i: usize = 0;
    while i < prs.len()
        invariant
            i <= prs.len(),
            all_prs_valid(prs@),
            v@ == merge_times(prs@.take(i as int)),
            forall|k: int| 0 <= k < v@.len() ==> -4595796720 <= #[trigger] v@[k] <= 4595796720,
        decreases prs.len() - i,
    {
        proof {
            lemma_take_succ(prs@, i as int);
        }
        let pr = &prs[i];
        assert(pr.valid());
        if pr.merged {
            match pr.time_to_merge_hours() {
                Some(h) => {
                    v.push(h);
                    assert(v@ =~= merge_times(prs@.take(i + 1)));
                },
                None => {
                    assert(v@ =~= merge_times(prs@.take(i + 1)));
                },
            }
        } else {
            assert(v@ =~= merge_times(prs@.take(i + 1)));
        }
        i = i + 1;
    }
    assert(prs@.take(prs.len() as int) =~= prs@);
    v
}

fn sum_values(values: &[i64]) -> (r: i128)
    requires
        forall|k: int| 0 <= k < values@.len() ==> -4595796720 <= #[trigger] values@[k] <= 4595796720,
    ensures
        r == sum_of(values@),
{
    let mut total: i128 = 0;
    let mut i: usize = 0;
    while i < values.len()
        invariant
            i <= values.len(),
            forall|k: int|
                0 <= k < values@.len() ==> -4595796720 <= #[trigger] values@[k] <= 4595796720,
            total == sum_of(values@.take(i as int)),
            -4595796720 * i <= total <= 4595796720 * i,
        decreases values.len() - i,
    {
        proof {
            lemma_take_succ(values@, i as int);
        }
        total = total + values[i] as i128;
        i = i + 1;
    }
    assert(values@.take(values.len() as int) =~= values@);
    total
}

fn tally_field(prs: &[PullRequest], which: u8) -> (v: Vec<(String, usize)>)
    requires
        which < 3,
        all_prs_valid(prs@),
    ensures
        which == 0 ==> is_tally_of(v@, size_keys(prs@)),
        which == 1 ==> is_tally_of(v@, author_keys(prs@)),
        which == 2 ==> is_tally_of(v@, base_branch_keys(prs@)),
{
    let ghost keys = if which == 0 {
        size_keys(prs@)
    } else if which == 1 {
        author_keys(prs@)
    } else {
        base_branch_keys(prs@)
    };
    let mut v: Vec<(String, usize)> = Vec::new();
    proof {
        lemma_empty_tally();
        assert(keys.take(0) =~= Seq::<Seq<char>>::empty());
    }
    let mut i: usize = 0;
    while i < prs.len()
        invariant
            i <= prs.len(),
            which < 3,
            all_prs_valid(prs@),
            keys.len() == prs.len(),
            keys == (if which == 0 {
                size_keys(prs@)
            } else if which == 1 {
                author_keys(prs@)
            } else {
                base_branch_keys(prs@)
            }),
            is_tally_of(v@, keys.take(i as int)),
        decreases prs.len() - i,
    {
        proof {
            lemma_take_succ(keys, i as int);
            assert(keys.take(i + 1) =~= keys.take(i as int).push(keys[i as int]));
        }
        let pr = &prs[i];
        assert(pr.lines_fit());
        if which == 0 {
            let size = pr.size_category();
            let key = String::from_str(size.label());
            tally_add(&mut v, &key, Ghost(keys.take(i as int)));
        } else if which == 1 {
            tally_add(&mut v, &pr.author.login, Ghost(keys.take(i as int)));
        } else {
            tally_add(&mut v, &pr.base_ref, Ghost(keys.take(i as int)));
        }
        i = i + 1;
    }
    assert(keys.take(prs.len() as int) =~= keys);
    v
}

impl PullMetricsCalculator {
    /// Calculate metrics from a list of pull requests
    pub fn calculate(prs: &[PullRequest]) -> (m: PullMetrics)
        requires
            all_prs_valid(prs@),
        ensures
            is_pull_metrics(m, prs@),
    {
        let open = count_where(prs, 0);
        let merged = count_where(prs, 1);
        let closed_unmerged = count_where(prs, 2);
        let merge_times = merge_times_of(prs);
        let total_hours = sum_values(merge_times.as_slice());
        let median_time = median(merge_times.as_slice());
        let by_size = tally_field(prs, 0);
        let by_author = tally_field(prs, 1);
        let by_base_branch = tally_field(prs, 2);
        let draft_count = count_where(prs, 3);
        PullMetrics {
            total: prs.len(),
            open,
            merged,
            closed_unmerged,
            merge_time_total_hours: total_hours,
            merge_time_samples: merge_times.len(),
            median_time_to_merge_hours: median_time,
            by_size,
            by_author,
            by_base_branch,
            draft_count,
        }
    }

    /// The sample median of the values (`None` for none)
    pub fn calculate_median(values: &[i64]) -> (r: Option<Median>)
        ensures
            r == median_spec(values@),
    {
        median(values)
    }
}

/// List of PRs without reviews
#[derive(Debug, Clone)]
pub struct UnreviewedPrs {
    /// PRs without any reviews
    pub prs: Vec<UnreviewedPrSummary>,
    /// Total count
    pub count: usize,
}

/// Summary of an unreviewed PR
#[derive(Debug, Clone)]
pub struct UnreviewedPrSummary {
    /// PR number
    pub number: u64,
    /// PR title
    pub title: String,
    /// PR author
    pub author: String,
    /// Age in days
    pub age_days: i64,
    /// Is draft
    pub draft: bool,
}

/// When no merged pull request is still open, every pull request is open,
/// merged or closed without merge, and only one of them: the three counts add
/// up to the total.
pub proof fn law_pr_states_partition(s: Seq<PullRequest>)
    requires
        forall|i: int| 0 <= i < s.len() && (#[trigger] s[i]).merged ==> s[i].state == PullState::Closed,
    ensures
        count_prs(s, is_open_pr()) + count_prs(s, is_merged_pr()) + count_prs(s, is_closed_unmerged_pr())
            == s.len(),
    decreases s.len(),
{
    if s.len() > 0 {
        let rest = s.drop_last();
        assert forall|i: int| 0 <= i < rest.len() && (#[trigger] rest[i]).merged implies rest[i].state
            == PullState::Closed by {
            assert(rest[i] == s[i]);
        }
        law_pr_states_partition(rest);
        assert(s[s.len() - 1] == s.last());
    }
}


} // verus!
