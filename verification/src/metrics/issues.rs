//! Issue metrics calculations
use vstd::prelude::*;

use crate::models::issue::{stale_days_fit, stale_threshold_in_range, Issue, IssueState};
use crate::stats::{median, median_spec, Median};
use crate::tally::{is_tally_of, lemma_empty_tally, tally_add};
use crate::time::{
    clock_instant, hours_between, now_timestamp, valid_timestamp, ClockUnavailable, MAX_TIMESTAMP,
    MIN_TIMESTAMP,
};

verus! {

/// Aggregated issue metrics. The mean time to close is
/// `close_time_total_hours / close_time_samples` (no mean without samples).
#[derive(Debug, Clone)]
pub struct IssueMetrics {
    /// Total number of issues
    pub total: usize,
    /// Number of open issues
    pub open: usize,
    /// Number of closed issues
    pub closed: usize,
    /// Sum of the times to close (hours) of the closed issues that have a closing time
    pub close_time_total_hours: i128,
    /// Number of closed issues that have a closing time
    pub close_time_samples: usize,
    /// Median time to close (hours)
    pub median_time_to_close_hours: Option<Median>,
    /// Issues grouped by label
    pub by_label: Vec<(String, usize)>,
    /// Issues grouped by assignee
    pub by_assignee: Vec<(String, usize)>,
    /// Issues grouped by milestone
    pub by_milestone: Vec<(String, usize)>,
    /// Age distribution buckets
    pub age_distribution: AgeDistribution,
    /// Number of stale issues
    pub stale_count: usize,
}

/// Age distribution for issues
#[derive(Debug, Clone)]
pub struct AgeDistribution {
    /// Age buckets
    pub buckets: Vec<AgeBucket>,
}

/// Single age bucket
#[derive(Debug, Clone)]
pub struct AgeBucket {
    /// Display label
    pub label: String,
    /// Minimum days (inclusive)
    pub min_days: i64,
    /// Maximum days (exclusive, None for unbounded)
    pub max_days: Option<i64>,
    /// Number of issues in this bucket
    pub count: usize,
}

/// Calculator for issue metrics
pub struct IssueMetricsCalculator {
    stale_days: i64,
}

/// Number of open issues.
pub open spec fn count_open(s: Seq<Issue>) -> nat
    decreases s.len(),
{
    if s.len() == 0 {
        0
    } else {
        count_open(s.drop_last()) + if s.last().state == IssueState::Open {
            1nat
        } else {
            0nat
        }
    }
}

/// The stale issues can be counted at `now`: the stale threshold is
/// representable, or no issue is open (so no threshold is needed).
pub open spec fn stale_counted(s: Seq<Issue>, stale_days: int, now: int) -> bool {
    stale_threshold_in_range(now, stale_days) || count_open(s) == 0
}

proof fn lemma_open_counted(s: Seq<Issue>, i: int)
    requires
        0 <= i < s.len(),
        s[i].state == IssueState::Open,
    ensures
        count_open(s) > 0,
    decreases s.len(),
{
    if i < s.len() - 1 {
        assert(s.drop_last()[i] == s[i]);
        lemma_open_counted(s.drop_last(), i);
    }
}

/// Number of closed issues.
pub open spec fn count_closed(s: Seq<Issue>) -> nat
    decreases s.len(),
{
    if s.len() == 0 {
        0
    } else {
        count_closed(s.drop_last()) + if s.last().state == IssueState::Closed {
            1nat
        } else {
            0nat
        }
    }
}

/// Times to close (hours), in issue order, of the closed issues that have a closing time.
pub open spec fn close_times(s: Seq<Issue>) -> Seq<i64>
    decreases s.len(),
{
    if s.len() == 0 {
        Seq::empty()
    } else {
        let last = s.last();
        close_times(s.drop_last()) + match (last.state, last.closed_at) {
            (IssueState::Closed, Some(c)) => seq![hours_between(c as int, last.created_at as int) as i64],
            _ => Seq::empty(),
        }
    }
}

/// Sum of a sequence of integers.
pub open spec fn seq_sum(s: Seq<i64>) -> int
    decreases s.len(),
{
    if s.len() == 0 {
        0
    } else {
        seq_sum(s.drop_last()) + s.last()
    }
}

/// The names of an issue's labels.
pub open spec fn issue_label_names(i: Issue) -> Seq<Seq<char>> {
    Seq::new(i.labels@.len(), |j: int| i.labels@[j].name@)
}

/// The label names of all issues, issue after issue.
pub open spec fn labels_flat(s: Seq<Issue>) -> Seq<Seq<char>>
    decreases s.len(),
{
    if s.len() == 0 {
        Seq::empty()
    } else {
        labels_flat(s.drop_last()) + issue_label_names(s.last())
    }
}

/// The keys an issue is grouped under by assignee: its assignees' logins, or
/// `Unassigned` when it has none.
pub open spec fn issue_assignee_keys(i: Issue) -> Seq<Seq<char>> {
    if i.assignees@.len() == 0 {
        seq!["Unassigned"@]
    } else {
        Seq::new(i.assignees@.len(), |j: int| i.assignees@[j].login@)
    }
}

/// The assignee keys of all issues, issue after issue.
pub open spec fn assignees_flat(s: Seq<Issue>) -> Seq<Seq<char>>
    decreases s.len(),
{
    if s.len() == 0 {
        Seq::empty()
    } else {
        assignees_flat(s.drop_last()) + issue_assignee_keys(s.last())
    }
}

/// The key an issue is grouped under by milestone: its title, or `No Milestone`.
pub open spec fn issue_milestone_key(i: Issue) -> Seq<char> {
    match i.milestone {
        Some(m) => m.title@,
        None => "No Milestone"@,
    }
}

/// The milestone keys of all issues, in order.
pub open spec fn milestones_flat(s: Seq<Issue>) -> Seq<Seq<char>> {
    Seq::new(s.len(), |i: int| issue_milestone_key(s[i]))
}

/// Number of stale issues.
pub open spec fn count_stale(s: Seq<Issue>, days: int, now: int) -> nat
    decreases s.len(),
{
    if s.len() == 0 {
        0
    } else {
        count_stale(s.drop_last(), days, now) + if s.last().stale_at(days, now) {
            1nat
        } else {
            0nat
        }
    }
}

/// An age in days lies in `[lo, hi)` (no upper end when `hi` is `None`).
pub open spec fn age_in(age: int, lo: int, hi: Option<i64>) -> bool {
    age >= lo && match hi {
        Some(h) => age < h,
        None => true,
    }
}

/// Number of open issues whose age at `now` lies in `[lo, hi)`.
pub open spec fn count_open_aged(s: Seq<Issue>, now: int, lo: int, hi: Option<i64>) -> nat
    decreases s.len(),
{
    if s.len() == 0 {
        0
    } else {
        count_open_aged(s.drop_last(), now, lo, hi) + if s.last().state == IssueState::Open
            && age_in(s.last().age_days_spec(now), lo, hi) {
            1nat
        } else {
            0nat
        }
    }
}

/// The bounds and label of the `k`-th age bucket.
pub open spec fn bucket_min(k: int) -> i64 {
    if k == 0 {
        0
    } else if k == 1 {
        1
    } else if k == 2 {
        7
    } else if k == 3 {
        28
    } else if k == 4 {
        90
    } else {
        180
    }
}

pub open spec fn bucket_max(k: int) -> Option<i64> {
    if k == 0 {
        Some(1)
    } else if k == 1 {
        Some(7)
    } else if k == 2 {
        Some(28)
    } else if k == 3 {
        Some(90)
    } else if k == 4 {
        Some(180)
    } else {
        None
    }
}

pub open spec fn bucket_label(k: int) -> Seq<char> {
    if k == 0 {
        "< 1 day"@
    } else if k == 1 {
        "1-7 days"@
    } else if k == 2 {
        "1-4 weeks"@
    } else if k == 3 {
        "1-3 months"@
    } else if k == 4 {
        "3-6 months"@
    } else {
        "> 6 months"@
    }
}

/// The age distribution of the open issues at `now`: six fixed buckets, each
/// counting the open issues whose age falls in its range.
pub open spec fn is_age_distribution(d: AgeDistribution, s: Seq<Issue>, now: int) -> bool {
    &&& d.buckets@.len() == 6
    &&& forall|k: int|
        0 <= k < 6 ==> {
            let b = #[trigger] d.buckets@[k];
            &&& b.label@ == bucket_label(k)
            &&& b.min_days == bucket_min(k)
            &&& b.max_days == bucket_max(k)
            &&& b.count == count_open_aged(s, now, bucket_min(k) as int, bucket_max(k))
        }
}

/// All issues are well formed.
pub open spec fn all_valid(s: Seq<Issue>) -> bool {
    forall|i: int| 0 <= i < s.len() ==> (#[trigger] s[i]).valid()
}

/// The metrics of `s` computed at `now` with the given stale threshold.
pub open spec fn is_issue_metrics(m: IssueMetrics, s: Seq<Issue>, stale_days: int, now: int) -> bool {
    &&& m.total == s.len()
    &&& m.open == count_open(s)
    &&& m.closed == count_closed(s)
    &&& m.close_time_total_hours == seq_sum(close_times(s))
    &&& m.close_time_samples == close_times(s).len()
    &&& m.median_time_to_close_hours == median_spec(close_times(s))
    &&& is_tally_of(m.by_label@, labels_flat(s))
    &&& is_tally_of(m.by_assignee@, assignees_flat(s))
    &&& is_tally_of(m.by_milestone@, milestones_flat(s))
    &&& is_age_distribution(m.age_distribution, s, now)
    &&& m.stale_count == count_stale(s, stale_days, now)
}

/// The largest number of whole hours between two representable instants.
pub open spec fn max_span_hours() -> int {
    4595796720
}

proof fn lemma_take_succ<A>(s: Seq<A>, i: int)
    requires
        0 <= i < s.len(),
    ensures
        s.take(i + 1).drop_last() == s.take(i),
        s.take(i + 1).last() == s[i],
{
    assert(s.take(i + 1).drop_last() =~= s.take(i));
}

proof fn lemma_close_times_bounded(s: Seq<Issue>)
    requires
        all_valid(s),
    ensures
        forall|k: int|
            0 <= k < close_times(s).len() ==> -max_span_hours() <= #[trigger] close_times(s)[k]
                <= max_span_hours(),
        close_times(s).len() <= s.len(),
    decreases s.len(),
{
    if s.len() > 0 {
        assert(all_valid(s.drop_last())) by {
            assert forall|i: int| 0 <= i < s.drop_last().len() implies (
            #[trigger] s.drop_last()[i]).valid() by {
                assert(s.drop_last()[i] == s[i]);
            }
        }
        lemma_close_times_bounded(s.drop_last());
        let last = s.last();
        assert(last.valid()) by {
            assert(s[s.len() - 1].valid());
        }
    }
}

fn count_states(issues: &[Issue]) -> (r: (usize, usize))
    ensures
        r.0 == count_open(issues@),
        r.1 == count_closed(issues@),
{
    let mut open: usize = 0;
    let mut closed: usize = 0;
    let mut i: usize = 0;
    while i < issues.len()
        invariant
            i <= issues.len(),
            open == count_open(issues@.take(i as int)),
            closed == count_closed(issues@.take(i as int)),
            open + closed <= i,
        decreases issues.len() - i,
    {
        proof {
            lemma_take_succ(issues@, i as int);
        }
        if issues[i].state == IssueState::Open {
            open = open + 1;
        } else {
            closed = closed + 1;
        }
        i = i + 1;
    }
    assert(issues@.take(issues.len() as int) =~= issues@);
    (open, closed)
}

fn close_times_of(issues: &[Issue]) -> (v: Vec<i64>)
    requires
        all_valid(issues@),
    ensures
        v@ == close_times(issues@),
{
    let mut v: Vec<i64> = Vec::new();
    let mut i: usize = 0;
    while i < issues.len()
        invariant
            i <= issues.len(),
            all_valid(issues@),
            v@ == close_times(issues@.take(i as int)),
        decreases issues.len() - i,
    {
        proof {
            lemma_take_succ(issues@, i as int);
        }
        let issue = &issues[i];
        assert(issue.valid());
        if issue.state == IssueState::Closed {
            match issue.time_to_close_hours() {
                Some(h) => {
                    v.push(h);
                    assert(v@ =~= close_times(issues@.take(i + 1)));
                },
                None => {
                    assert(v@ =~= close_times(issues@.take(i + 1)));
                },
            }
        } else {
            assert(v@ =~= close_times(issues@.take(i + 1)));
        }
        i = i + 1;
    }
    assert(issues@.take(issues.len() as int) =~= issues@);
    v
}

fn sum_hours(values: &[i64]) -> (r: i128)
    requires
        forall|k: int|
            0 <= k < values@.len() ==> -max_span_hours() <= #[trigger] values@[k]
                <= max_span_hours(),
    ensures
        r == seq_sum(values@),
{
    let mut total: i128 = 0;
    let mut i: usize = 0;
    while i < values.len()
        invariant
            i <= values.len(),
            forall|k: int|
                0 <= k < values@.len() ==> -max_span_hours() <= #[trigger] values@[k]
                    <= max_span_hours(),
            total == seq_sum(values@.take(i as int)),
            -4595796720 * i <= total <= 4595796720 * i,
        decreases values.len() - i,
    {
        proof {
            lemma_take_succ(values@, i as int);
        }
        assert(-max_span_hours() <= values@[i as int] <= max_span_hours());
        total = total + values[i] as i128;
        i = i + 1;
    }
    assert(values@.take(values.len() as int) =~= values@);
    total
}

proof fn lemma_labels_flat_len_mono(s: Seq<Issue>, i: int)
    requires
        0 <= i <= s.len(),
    ensures
        labels_flat(s.take(i)).len() <= labels_flat(s).len(),
    decreases s.len() - i,
{
    if i < s.len() {
        lemma_labels_flat_len_mono(s, i + 1);
        lemma_take_succ(s, i);
    } else {
        assert(s.take(i) =~= s);
    }
}

proof fn lemma_assignees_flat_len_mono(s: Seq<Issue>, i: int)
    requires
        0 <= i <= s.len(),
    ensures
        assignees_flat(s.take(i)).len() <= assignees_flat(s).len(),
    decreases s.len() - i,
{
    if i < s.len() {
        lemma_assignees_flat_len_mono(s, i + 1);
        lemma_take_succ(s, i);
    } else {
        assert(s.take(i) =~= s);
    }
}

fn tally_labels(issues: &[Issue]) -> (v: Vec<(String, usize)>)
    requires
        labels_flat(issues@).len() <= usize::MAX,
    ensures
        is_tally_of(v@, labels_flat(issues@)),
{
    let mut v: Vec<(String, usize)> = Vec::new();
    proof {
        lemma_empty_tally();
        assert(labels_flat(issues@.take(0)) =~= Seq::<Seq<char>>::empty());
    }
    let mut i: usize = 0;
    while i < issues.len()
        invariant
            i <= issues.len(),
            labels_flat(issues@).len() <= usize::MAX,
            is_tally_of(v@, labels_flat(issues@.take(i as int))),
        decreases issues.len() - i,
    {
        proof {
            lemma_take_succ(issues@, i as int);
            lemma_labels_flat_len_mono(issues@, i + 1);
        }
        let issue = &issues[i];
        let ghost before = labels_flat(issues@.take(i as int));
        let ghost names = issue_label_names(issues@[i as int]);
        assert(labels_flat(issues@.take(i + 1)) == before + names);
        let mut j: usize = 0;
        while j < issue.labels.len()
            invariant
                j <= issue.labels.len(),
                names == issue_label_names(*issue),
                (before + names).len() <= usize::MAX,
                is_tally_of(v@, before + names.take(j as int)),
            decreases issue.labels.len() - j,
        {
            proof {
                lemma_take_succ(names, j as int);
                assert((before + names.take(j + 1)).drop_last() =~= before + names.take(j as int));
                assert((before + names.take(j + 1)) =~= (before + names.take(j as int)).push(
                    issue.labels@[j as int].name@,
                ));
            }
            tally_add(&mut v, &issue.labels[j].name, Ghost(before + names.take(j as int)));
            j = j + 1;
        }
        assert(names.take(issue.labels.len() as int) =~= names);
        i = i + 1;
    }
    assert(issues@.take(issues.len() as int) =~= issues@);
    v
}

fn tally_assignees(issues: &[Issue]) -> (v: Vec<(String, usize)>)
    requires
        assignees_flat(issues@).len() <= usize::MAX,
    ensures
        is_tally_of(v@, assignees_flat(issues@)),
{
    let mut v: Vec<(String, usize)> = Vec::new();
    proof {
        lemma_empty_tally();
        assert(assignees_flat(issues@.take(0)) =~= Seq::<Seq<char>>::empty());
    }
    let unassigned = String::from_str("Unassigned");
    let mut i: usize = 0;
    while i < issues.len()
        invariant
            i <= issues.len(),
            unassigned@ == "Unassigned"@,
            assignees_flat(issues@).len() <= usize::MAX,
            is_tally_of(v@, assignees_flat(issues@.take(i as int))),
        decreases issues.len() - i,
    {
        proof {
            lemma_take_succ(issues@, i as int);
            lemma_assignees_flat_len_mono(issues@, i + 1);
        }
        let issue = &issues[i];
        let ghost before = assignees_flat(issues@.take(i as int));
        let ghost keys = issue_assignee_keys(issues@[i as int]);
        assert(assignees_flat(issues@.take(i + 1)) == before + keys);
        if issue.assignees.len() == 0 {
            assert(before + keys =~= before.push(unassigned@));
            tally_add(&mut v, &unassigned, Ghost(before));
        } else {
            let mut j: usize = 0;
            while j < issue.assignees.len()
                invariant
                    j <= issue.assignees.len(),
                    issue.assignees@.len() > 0,
                    keys == issue_assignee_keys(*issue),
                    (before + keys).len() <= usize::MAX,
                    is_tally_of(v@, before + keys.take(j as int)),
                decreases issue.assignees.len() - j,
            {
                proof {
                    lemma_take_succ(keys, j as int);
                    assert((before + keys.take(j + 1)) =~= (before + keys.take(j as int)).push(
                        issue.assignees@[j as int].login@,
                    ));
                }
                tally_add(&mut v, &issue.assignees[j].login, Ghost(before + keys.take(j as int)));
                j = j + 1;
            }
            assert(keys.take(issue.assignees.len() as int) =~= keys);
        }
        i = i + 1;
    }
    assert(issues@.take(issues.len() as int) =~= issues@);
    v
}

fn tally_milestones(issues: &[Issue]) -> (v: Vec<(String, usize)>)
    ensures
        is_tally_of(v@, milestones_flat(issues@)),
{
    let mut v: Vec<(String, usize)> = Vec::new();
    proof {
        lemma_empty_tally();
        assert(milestones_flat(issues@.take(0)) =~= Seq::<Seq<char>>::empty());
    }
    let no_milestone = String::from_str("No Milestone");
    let mut i: usize = 0;
    while i < issues.len()
        invariant
            i <= issues.len(),
            no_milestone@ == "No Milestone"@,
            is_tally_of(v@, milestones_flat(issues@.take(i as int))),
        decreases issues.len() - i,
    {
        let ghost before = milestones_flat(issues@.take(i as int));
        assert(milestones_flat(issues@.take(i + 1)) =~= before.push(
            issue_milestone_key(issues@[i as int]),
        ));
        match &issues[i].milestone {
            Some(m) => {
                tally_add(&mut v, &m.title, Ghost(before));
            },
            None => {
                tally_add(&mut v, &no_milestone, Ghost(before));
            },
        }
        i = i + 1;
    }
    assert(issues@.take(issues.len() as int) =~= issues@);
    v
}

impl IssueMetricsCalculator {
    /// Create a new calculator with the given stale threshold
    pub fn new(stale_days: i64) -> (c: Self)
        ensures
            c.stale_days() == stale_days,
    {
        Self { stale_days }
    }

    /// The stale threshold in days.
    pub closed spec fn stale_days(&self) -> i64 {
        self.stale_days
    }

    fn count_stale_at(&self, issues: &[Issue], now: i64) -> (r: usize)
        requires
            valid_timestamp(now as int),
            stale_counted(issues@, self.stale_days as int, now as int),
        ensures
            r == count_stale(issues@, self.stale_days as int, now as int),
    {
        let mut count: usize = 0;
        let mut i: usize = 0;
        while i < issues.len()
            invariant
                i <= issues.len(),
                count <= i,
                valid_timestamp(now as int),
                stale_counted(issues@, self.stale_days as int, now as int),
                count == count_stale(issues@.take(i as int), self.stale_days as int, now as int),
            decreases issues.len() - i,
        {
            proof {
                lemma_take_succ(issues@, i as int);
                if issues@[i as int].state == IssueState::Open {
                    lemma_open_counted(issues@, i as int);
                }
            }
            if issues[i].state == IssueState::Open && issues[i].is_stale_at(self.stale_days, now) {
                count = count + 1;
            }
            i = i + 1;
        }
        assert(issues@.take(issues.len() as int) =~= issues@);
        count
    }

    fn count_aged(issues: &[Issue], now: i64, lo: i64, hi: Option<i64>) -> (r: usize)
        requires
            all_valid(issues@),
            valid_timestamp(now as int),
        ensures
            r == count_open_aged(issues@, now as int, lo as int, hi),
    {
        let mut count: usize = 0;
        let mut i: usize = 0;
        while i < issues.len()
            invariant
                i <= issues.len(),
                count <= i,
                all_valid(issues@),
                valid_timestamp(now as int),
                count == count_open_aged(issues@.take(i as int), now as int, lo as int, hi),
            decreases issues.len() - i,
        {
            proof {
                lemma_take_succ(issues@, i as int);
            }
            let issue = &issues[i];
            assert(issue.valid());
            if issue.state == IssueState::Open {
                let age = issue.age_days_at(now);
                let in_bucket = age >= lo && match hi {
                    Some(max) => age < max,
                    None => true,
                };
                if in_bucket {
                    count = count + 1;
                }
            }
            i = i + 1;
        }
        assert(issues@.take(issues.len() as int) =~= issues@);
        count
    }

    fn calculate_age_distribution(&self, issues: &[Issue], now: i64) -> (d: AgeDistribution)
        requires
            all_valid(issues@),
            valid_timestamp(now as int),
        ensures
            is_age_distribution(d, issues@, now as int),
    {
        let mut buckets: Vec<AgeBucket> = Vec::new();
        buckets.push(
            AgeBucket {
                label: String::from_str("< 1 day"),
                min_days: 0,
                max_days: Some(1),
                count: Self::count_aged(issues, now, 0, Some(1)),
            },
        );
        buckets.push(
            AgeBucket {
                label: String::from_str("1-7 days"),
                min_days: 1,
                max_days: Some(7),
                count: Self::count_aged(issues, now, 1, Some(7)),
            },
        );
        buckets.push(
            AgeBucket {
                label: String::from_str("1-4 weeks"),
                min_days: 7,
                max_days: Some(28),
                count: Self::count_aged(issues, now, 7, Some(28)),
            },
        );
        buckets.push(
            AgeBucket {
                label: String::from_str("1-3 months"),
                min_days: 28,
                max_days: Some(90),
                count: Self::count_aged(issues, now, 28, Some(90)),
            },
        );
        buckets.push(
            AgeBucket {
                label: String::from_str("3-6 months"),
                min_days: 90,
                max_days: Some(180),
                count: Self::count_aged(issues, now, 90, Some(180)),
            },
        );
        buckets.push(
            AgeBucket {
                label: String::from_str("> 6 months"),
                min_days: 180,
                max_days: None,
                count: Self::count_aged(issues, now, 180, None),
            },
        );
        let d = AgeDistribution { buckets };
        assert forall|k: int| 0 <= k < 6 implies {
            let b = #[trigger] d.buckets@[k];
            &&& b.label@ == bucket_label(k)
            &&& b.min_days == bucket_min(k)
            &&& b.max_days == bucket_max(k)
            &&& b.count == count_open_aged(issues@, now as int, bucket_min(k) as int, bucket_max(k))
        } by {}
        d
    }

    /// Calculate metrics from a list of issues at the instant `now`
    pub fn calculate_at(&self, issues: &[Issue], now: i64) -> (m: IssueMetrics)
        requires
            all_valid(issues@),
            valid_timestamp(now as int),
            stale_counted(issues@, self.stale_days() as int, now as int),
            labels_flat(issues@).len() <= usize::MAX,
            assignees_flat(issues@).len() <= usize::MAX,
        ensures
            is_issue_metrics(m, issues@, self.stale_days() as int, now as int),
    {
        let (open, closed) = count_states(issues);
        let close_times = close_times_of(issues);
        proof {
            lemma_close_times_bounded(issues@);
        }
        let total_hours = sum_hours(close_times.as_slice());
        let median_time = median(close_times.as_slice());
        let by_label = tally_labels(issues);
        let by_assignee = tally_assignees(issues);
        let by_milestone = tally_milestones(issues);
        let stale_count = self.count_stale_at(issues, now);
        let age_distribution = self.calculate_age_distribution(issues, now);
        IssueMetrics {
            total: issues.len(),
            open,
            closed,
            close_time_total_hours: total_hours,
            close_time_samples: close_times.len(),
            median_time_to_close_hours: median_time,
            by_label,
            by_assignee,
            by_milestone,
            age_distribution,
            stale_count,
        }
    }

    /// Calculate metrics from a list of issues against the current time.
    /// `Ok(None)` when some issue is open and the instant `stale_days` days
    /// before the current time is not representable; an error when the clock
    /// cannot be read.
    pub fn calculate(&self, issues: &[Issue]) -> (r: Result<Option<IssueMetrics>, ClockUnavailable>)
        requires
            all_valid(issues@),
            labels_flat(issues@).len() <= usize::MAX,
            assignees_flat(issues@).len() <= usize::MAX,
        ensures
            r matches Ok(Some(m)) ==> exists|now: int|
                clock_instant(now) && is_issue_metrics(m, issues@, self.stale_days() as int, now),
            r matches Ok(None) ==> exists|now: int|
                clock_instant(now) && !stale_counted(issues@, self.stale_days() as int, now),
            stale_days_fit(self.stale_days() as int) || count_open(issues@) == 0 ==> !(r matches Ok(
                None,
            )),
    {
        let now = match now_timestamp() {
            Some(t) => t,
            None => {
                return Err(ClockUnavailable);
            },
        };
        let (open, _closed) = count_states(issues);
        if open > 0 {
            if self.stale_days > 106751991167i64 || self.stale_days < -106751991167i64 {
                assert(!stale_threshold_in_range(now as int, self.stale_days() as int));
                return Ok(None);
            }
            let threshold = now - self.stale_days * 86400;
            if threshold < MIN_TIMESTAMP || threshold > MAX_TIMESTAMP {
                return Ok(None);
            }
        }
        Ok(Some(self.calculate_at(issues, now)))
    }

    /// The sample median of the values (`None` for none)
    pub fn calculate_median(values: &[i64]) -> (r: Option<Median>)
        ensures
            r == median_spec(values@),
    {
        median(values)
    }
}

impl Default for IssueMetricsCalculator {
    fn default() -> (c: Self)
        ensures
            c.stale_days() == 30,
    {
        Self::new(30)
    }
}

/// Every issue is open or closed: the open and the closed issues together
/// are all of them.
pub proof fn law_open_closed_partition(s: Seq<Issue>)
    ensures
        count_open(s) + count_closed(s) == s.len(),
    decreases s.len(),
{
    if s.len() > 0 {
        law_open_closed_partition(s.drop_last());
    }
}

/// The six age buckets partition the open issues of non-negative age: each
/// such issue falls in exactly one bucket, so the bucket counts add up to
/// their number.
pub proof fn law_age_buckets_partition(s: Seq<Issue>, now: int)
    ensures
        count_open_aged(s, now, bucket_min(0) as int, bucket_max(0)) + count_open_aged(
            s,
            now,
            bucket_min(1) as int,
            bucket_max(1),
        ) + count_open_aged(s, now, bucket_min(2) as int, bucket_max(2)) + count_open_aged(
            s,
            now,
            bucket_min(3) as int,
            bucket_max(3),
        ) + count_open_aged(s, now, bucket_min(4) as int, bucket_max(4)) + count_open_aged(
            s,
            now,
            bucket_min(5) as int,
            bucket_max(5),
        ) == count_open_aged(s, now, 0, None),
    decreases s.len(),
{
    if s.len() > 0 {
        law_age_buckets_partition(s.drop_last(), now);
    }
}

/// The stale count of issue metrics counts open issues last updated before
/// the instant `stale_days` days before `now`: it never exceeds the open
/// count, it is zero when every issue was updated since that instant, it
/// counts every issue when all are open and were updated before it, and it
/// does not depend on when the issues were created.
pub proof fn law_stale_count(
    m: IssueMetrics,
    s: Seq<Issue>,
    t: Seq<Issue>,
    stale_days: int,
    now: int,
)
    requires
        is_issue_metrics(m, s, stale_days, now),
    ensures
        m.stale_count <= m.open,
        (forall|i: int| 0 <= i < s.len() ==> (#[trigger] s[i]).updated_at >= now - stale_days * 86400)
            ==> m.stale_count == 0,
        (forall|i: int|
            0 <= i < s.len() ==> (#[trigger] s[i]).state == IssueState::Open && s[i].updated_at < now
                - stale_days * 86400) ==> m.stale_count == m.total,
        (t.len() == s.len() && forall|i: int|
            0 <= i < s.len() ==> (#[trigger] t[i]).state == s[i].state && t[i].updated_at == s[i].updated_at)
            ==> m.stale_count == count_stale(t, stale_days, now),
{
    lemma_stale_le_open(s, stale_days, now);
    lemma_stale_none(s, stale_days, now);
    lemma_stale_all(s, stale_days, now);
    lemma_stale_same_updates(s, t, stale_days, now);
}

proof fn lemma_stale_le_open(s: Seq<Issue>, d: int, now: int)
    ensures
        count_stale(s, d, now) <= count_open(s),
    decreases s.len(),
{
    if s.len() > 0 {
        lemma_stale_le_open(s.drop_last(), d, now);
    }
}

proof fn lemma_stale_none(s: Seq<Issue>, d: int, now: int)
    ensures
        (forall|i: int| 0 <= i < s.len() ==> (#[trigger] s[i]).updated_at >= now - d * 86400) ==> count_stale(
            s,
            d,
            now,
        ) == 0,
    decreases s.len(),
{
    if s.len() > 0 {
        lemma_stale_none(s.drop_last(), d, now);
        if forall|i: int| 0 <= i < s.len() ==> (#[trigger] s[i]).updated_at >= now - d * 86400 {
            assert forall|i: int| 0 <= i < s.drop_last().len() implies (#[trigger] s.drop_last()[i]).updated_at
                >= now - d * 86400 by {
                assert(s.drop_last()[i] == s[i]);
            }
            assert(s[s.len() - 1] == s.last());
        }
    }
}

proof fn lemma_stale_all(s: Seq<Issue>, d: int, now: int)
    ensures
        (forall|i: int|
            0 <= i < s.len() ==> (#[trigger] s[i]).state == IssueState::Open && s[i].updated_at < now - d
                * 86400) ==> count_stale(s, d, now) == s.len(),
    decreases s.len(),
{
    if s.len() > 0 {
        lemma_stale_all(s.drop_last(), d, now);
        if forall|i: int|
            0 <= i < s.len() ==> (#[trigger] s[i]).state == IssueState::Open && s[i].updated_at < now - d
                * 86400 {
            assert forall|i: int| 0 <= i < s.drop_last().len() implies (#[trigger] s.drop_last()[i]).state
                == IssueState::Open && s.drop_last()[i].updated_at < now - d * 86400 by {
                assert(s.drop_last()[i] == s[i]);
            }
            assert(s[s.len() - 1] == s.last());
        }
    }
}

proof fn lemma_stale_same_updates(s: Seq<Issue>, t: Seq<Issue>, d: int, now: int)
    ensures
        (t.len() == s.len() && forall|i: int|
            0 <= i < s.len() ==> (#[trigger] t[i]).state == s[i].state && t[i].updated_at == s[i].updated_at)
            ==> count_stale(s, d, now) == count_stale(t, d, now),
    decreases s.len(),
{
    if s.len() > 0 && t.len() == s.len() {
        lemma_stale_same_updates(s.drop_last(), t.drop_last(), d, now);
        if forall|i: int|
            0 <= i < s.len() ==> (#[trigger] t[i]).state == s[i].state && t[i].updated_at == s[i].updated_at {
            assert forall|i: int| 0 <= i < s.drop_last().len() implies (#[trigger] t.drop_last()[i]).state
                == s.drop_last()[i].state && t.drop_last()[i].updated_at == s.drop_last()[i].updated_at by {
                assert(s.drop_last()[i] == s[i]);
                assert(t.drop_last()[i] == t[i]);
            }
            assert(s[s.len() - 1] == s.last());
            assert(t[t.len() - 1] == t.last());
        }
    }
}

} // verus!
