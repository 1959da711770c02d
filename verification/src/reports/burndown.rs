//! Burndown chart report generation
use vstd::prelude::*;

use crate::models::issue::{Issue, Milestone};
use crate::time::{
    clock_instant, days_between, now_timestamp, num_days_between, valid_timestamp, ClockUnavailable,
    MAX_TIMESTAMP,
};

verus! {

/// Burndown chart report
#[derive(Debug, Clone)]
pub struct BurndownReport {
    /// Milestone name
    pub milestone: String,
    /// Start date
    pub start_date: i64,
    /// Due date (if set)
    pub end_date: Option<i64>,
    /// Total issues in milestone
    pub total_issues: usize,
    /// Actual burndown data points
    pub data_points: Vec<BurndownDataPoint>,
    /// Ideal burndown line
    pub ideal_burndown: Vec<BurndownDataPoint>,
    /// Projected completion date
    pub projected_completion: Option<i64>,
}

/// Single burndown data point
#[derive(Debug, Clone, Copy, PartialEq, Eq, Structural)]
pub struct BurndownDataPoint {
    /// Date
    pub date: i64,
    /// Remaining issues
    pub remaining: usize,
    /// Completed issues
    pub completed: usize,
}

/// Burnup chart report (inverse of burndown)
#[derive(Debug, Clone)]
pub struct BurnupReport {
    /// Milestone name
    pub milestone: String,
    /// Start date
    pub start_date: i64,
    /// Due date
    pub end_date: Option<i64>,
    /// Scope changes over time
    pub scope_data: Vec<ScopeDataPoint>,
    /// Work completed over time
    pub completed_data: Vec<BurndownDataPoint>,
}

/// Scope data point for burnup chart
#[derive(Debug, Clone, Copy, PartialEq, Eq, Structural)]
pub struct ScopeDataPoint {
    /// Date
    pub date: i64,
    /// Total scope (issues) at this point
    pub total_scope: usize,
}

/// Calculator for burndown reports
pub struct BurndownCalculator;

/// The issue belongs to the milestone with id `id`.
pub open spec fn in_milestone(i: Issue, id: i64) -> bool {
    i.milestone matches Some(m) && m.id == id
}

/// Issues of the milestone.
pub open spec fn member_pred(id: i64) -> spec_fn(Issue) -> bool {
    |i: Issue| in_milestone(i, id)
}

/// Issues of the milestone closed at or before `t`.
pub open spec fn completed_pred(id: i64, t: int) -> spec_fn(Issue) -> bool {
    |i: Issue| in_milestone(i, id) && (i.closed_at matches Some(c) && c <= t)
}

/// Issues of the milestone created at or before `t`.
pub open spec fn scope_pred(id: i64, t: int) -> spec_fn(Issue) -> bool {
    |i: Issue| in_milestone(i, id) && i.created_at <= t
}

/// How many issues of `s` satisfy `p`.
pub open spec fn count_matching(s: Seq<Issue>, p: spec_fn(Issue) -> bool) -> nat
    decreases s.len(),
{
    if s.len() == 0 {
        0
    } else {
        count_matching(s.drop_last(), p) + if p(s.last()) {
            1nat
        } else {
            0nat
        }
    }
}

/// Days sampled from `start` up to `now`: one a day, starting at `start`.
pub open spec fn day_count(start: int, now: int) -> nat {
    if start <= now {
        ((now - start) / 86400 + 1) as nat
    } else {
        0
    }
}

/// Number of issues in the milestone.
pub open spec fn milestone_total(s: Seq<Issue>, id: i64) -> nat {
    count_matching(s, member_pred(id))
}

/// The actual burndown on day `k` after `start`.
pub open spec fn burndown_point(s: Seq<Issue>, id: i64, start: int, k: int) -> BurndownDataPoint {
    let t = start + 86400 * k;
    let done = count_matching(s, completed_pred(id, t));
    BurndownDataPoint {
        date: t as i64,
        remaining: (milestone_total(s, id) - done) as usize,
        completed: done as usize,
    }
}

/// The actual burndown, one point a day from `start` up to `now`.
pub open spec fn burndown_points(s: Seq<Issue>, id: i64, start: int, now: int) -> Seq<
    BurndownDataPoint,
> {
    Seq::new(day_count(start, now), |k: int| burndown_point(s, id, start, k))
}

/// Days of the ideal line: whole days from start to due date, at least one.
pub open spec fn ideal_days(start: int, end: int) -> int {
    let d = days_between(end, start);
    if d > 1 {
        d
    } else {
        1
    }
}

/// The ideal burndown on day `d` of `days`: the remaining work falls evenly
/// from `total` to zero, rounded down.
pub open spec fn ideal_point(total: nat, start: int, days: int, d: int) -> BurndownDataPoint {
    let remaining = total * (days - d) / days;
    BurndownDataPoint {
        date: (start + 86400 * d) as i64,
        remaining: remaining as usize,
        completed: (total - remaining) as usize,
    }
}

/// The ideal line: one point a day from start to due date (both included), or
/// none without a due date.
pub open spec fn ideal_line(total: nat, start: int, due: Option<i64>) -> Seq<BurndownDataPoint> {
    match due {
        Some(end) => Seq::new(
            (ideal_days(start, end as int) + 1) as nat,
            |d: int| ideal_point(total, start, ideal_days(start, end as int), d),
        ),
        None => Seq::empty(),
    }
}

/// `a / b` rounded up, for `a >= 0` and `b > 0`.
pub open spec fn ceil_div(a: int, b: int) -> int {
    (a + b - 1) / b
}

/// The projected completion: from the last (up to) seven points, the rate of
/// completion per day; the remaining work at that rate, rounded up to whole
/// days, after the last point. None without progress over a positive span of
/// days.
pub open spec fn projection(pts: Seq<BurndownDataPoint>) -> Option<i64> {
    if pts.len() < 2 {
        None
    } else {
        let n = pts.len() as int;
        let w = if n < 7 {
            n
        } else {
            7
        };
        let first = pts[n - w];
        let last = pts[n - 1];
        let days = days_between(last.date as int, first.date as int);
        let diff = last.completed - first.completed;
        if diff <= 0 || days <= 0 {
            None
        } else if last.remaining == 0 {
            Some(last.date)
        } else {
            Some((last.date + 86400 * ceil_div(last.remaining * days, diff)) as i64)
        }
    }
}

/// The projected completion, where there is one, is a representable instant.
pub open spec fn projection_in_range(pts: Seq<BurndownDataPoint>) -> bool {
    let n = pts.len() as int;
    let w = if n < 7 {
        n
    } else {
        7
    };
    let first = pts[n - w];
    let last = pts[n - 1];
    let days = days_between(last.date as int, first.date as int);
    let diff = last.completed - first.completed;
    n >= 2 && diff > 0 && days > 0 && last.remaining != 0 ==> valid_timestamp(
        last.date + 86400 * ceil_div(last.remaining * days, diff),
    )
}

/// Every point has a representable date.
pub open spec fn dates_valid(pts: Seq<BurndownDataPoint>) -> bool {
    forall|k: int| 0 <= k < pts.len() ==> valid_timestamp(#[trigger] pts[k].date as int)
}

/// The days sampled stay within the representable range (the day after the
/// last sample included).
pub open spec fn samples_in_range(m: Milestone, now: int) -> bool {
    m.created_at + 86400 * day_count(m.created_at as int, now) <= MAX_TIMESTAMP
}

/// The days sampled, and the days of the ideal line, stay within the
/// representable range.
pub open spec fn days_in_range(m: Milestone, now: int) -> bool {
    &&& samples_in_range(m, now)
    &&& m.due_on matches Some(end) ==> m.created_at + 86400 * ideal_days(
        m.created_at as int,
        end as int,
    ) <= MAX_TIMESTAMP
}

/// What a burndown of the milestone at `now` needs: the days in range and a
/// representable projection.
pub open spec fn burndown_ready(s: Seq<Issue>, m: Milestone, now: int) -> bool {
    &&& days_in_range(m, now)
    &&& projection_in_range(burndown_points(s, m.id, m.created_at as int, now))
}

/// The burndown report of the milestone over `s` at `now`.
pub open spec fn is_burndown(r: BurndownReport, s: Seq<Issue>, m: Milestone, now: int) -> bool {
    let total = milestone_total(s, m.id);
    let pts = burndown_points(s, m.id, m.created_at as int, now);
    &&& r.milestone@ == m.title@
    &&& r.start_date == m.created_at
    &&& r.end_date == m.due_on
    &&& r.total_issues == total
    &&& r.data_points@ == pts
    &&& r.ideal_burndown@ == ideal_line(total, m.created_at as int, m.due_on)
    &&& r.projected_completion == projection(pts)
}

/// The burnup on day `k` after `start`: scope and completed work.
pub open spec fn burnup_scope(s: Seq<Issue>, id: i64, start: int, k: int) -> ScopeDataPoint {
    let t = start + 86400 * k;
    ScopeDataPoint { date: t as i64, total_scope: count_matching(s, scope_pred(id, t)) as usize }
}

/// The completed work of the burnup on day `k` after `start`.
pub open spec fn burnup_completed(s: Seq<Issue>, id: i64, start: int, k: int) -> BurndownDataPoint {
    let t = start + 86400 * k;
    let done = count_matching(s, completed_pred(id, t));
    BurndownDataPoint {
        date: t as i64,
        remaining: (count_matching(s, scope_pred(id, t)) - done) as usize,
        completed: done as usize,
    }
}

/// On no sampled day has more work been completed than was in scope.
pub open spec fn burnup_consistent(s: Seq<Issue>, id: i64, start: int, now: int) -> bool {
    forall|k: int|
        0 <= k < day_count(start, now) ==> count_matching(
            s,
            #[trigger] completed_pred(id, start + 86400 * k),
        ) <= count_matching(s, scope_pred(id, start + 86400 * k))
}

/// The burnup report of the milestone over `s` at `now`.
pub open spec fn is_burnup(r: BurnupReport, s: Seq<Issue>, m: Milestone, now: int) -> bool {
    let n = day_count(m.created_at as int, now);
    &&& r.milestone@ == m.title@
    &&& r.start_date == m.created_at
    &&& r.end_date == m.due_on
    &&& r.scope_data@ == Seq::new(n, |k: int| burnup_scope(s, m.id, m.created_at as int, k))
    &&& r.completed_data@ == Seq::new(
        n,
        |k: int| burnup_completed(s, m.id, m.created_at as int, k),
    )
}

proof fn lemma_count_bound(s: Seq<Issue>, p: spec_fn(Issue) -> bool)
    ensures
        count_matching(s, p) <= s.len(),
    decreases s.len(),
{
    if s.len() > 0 {
        lemma_count_bound(s.drop_last(), p);
    }
}

/// Counting a narrower predicate gives no more.
proof fn lemma_count_mono(s: Seq<Issue>, p: spec_fn(Issue) -> bool, q: spec_fn(Issue) -> bool)
    requires
        forall|i: Issue| #[trigger] p(i) ==> q(i),
    ensures
        count_matching(s, p) <= count_matching(s, q),
    decreases s.len(),
{
    if s.len() > 0 {
        lemma_count_mono(s.drop_last(), p, q);
    }
}

fn count_where_member(issues: &[Issue], id: i64) -> (r: usize)
    ensures
        r == count_matching(issues@, member_pred(id)),
{
    let mut count: usize = 0;
    let mut i: usize = 0;
    while i < issues.len()
        invariant
            i <= issues.len(),
            count <= i,
            count == count_matching(issues@.take(i as int), member_pred(id)),
        decreases issues.len() - i,
    {
        assert(issues@.take(i + 1).drop_last() =~= issues@.take(i as int));
        let hit = match &issues[i].milestone {
            Some(m) => m.id == id,
            None => false,
        };
        if hit {
            count = count + 1;
        }
        i = i + 1;
    }
    assert(issues@.take(i as int) =~= issues@);
    count
}

fn count_where_completed(issues: &[Issue], id: i64, t: i64) -> (r: usize)
    ensures
        r == count_matching(issues@, completed_pred(id, t as int)),
{
    let mut count: usize = 0;
    let mut i: usize = 0;
    while i < issues.len()
        invariant
            i <= issues.len(),
            count <= i,
            count == count_matching(issues@.take(i as int), completed_pred(id, t as int)),
        decreases issues.len() - i,
    {
        assert(issues@.take(i + 1).drop_last() =~= issues@.take(i as int));
        let member = match &issues[i].milestone {
            Some(m) => m.id == id,
            None => false,
        };
        let closed = match issues[i].closed_at {
            Some(c) => c <= t,
            None => false,
        };
        if member && closed {
            count = count + 1;
        }
        i = i + 1;
    }
    assert(issues@.take(i as int) =~= issues@);
    count
}

fn count_where_scope(issues: &[Issue], id: i64, t: i64) -> (r: usize)
    ensures
        r == count_matching(issues@, scope_pred(id, t as int)),
{
    let mut count: usize = 0;
    let mut i: usize = 0;
    while i < issues.len()
        invariant
            i <= issues.len(),
            count <= i,
            count == count_matching(issues@.take(i as int), scope_pred(id, t as int)),
        decreases issues.len() - i,
    {
        assert(issues@.take(i + 1).drop_last() =~= issues@.take(i as int));
        let member = match &issues[i].milestone {
            Some(m) => m.id == id,
            None => false,
        };
        if member && issues[i].created_at <= t {
            count = count + 1;
        }
        i = i + 1;
    }
    assert(issues@.take(i as int) =~= issues@);
    count
}

/// `86400 * k <= x` exactly when `k` is at most the whole days in `x`.
proof fn lemma_day_floor(x: int, k: int)
    requires
        x >= 0,
        k >= 0,
    ensures
        86400 * k <= x <==> k <= x / 86400,
{
    assert(86400 * k <= x ==> k <= x / 86400) by (nonlinear_arith)
        requires
            x >= 0,
            k >= 0,
    ;
    assert(k <= x / 86400 ==> 86400 * k <= x) by (nonlinear_arith)
        requires
            x >= 0,
            k >= 0,
    ;
}

/// The day after the last sample lies past `now`, the samples before it do not.
proof fn lemma_day_count(start: int, now: int, k: int)
    requires
        0 <= k,
    ensures
        start + 86400 * k <= now <==> k < day_count(start, now),
{
    if start <= now {
        lemma_day_floor(now - start, k);
    }
}

/// The completed issues of the milestone are among its issues.
proof fn lemma_completed_le_total(s: Seq<Issue>, id: i64, t: int)
    ensures
        count_matching(s, completed_pred(id, t)) <= milestone_total(s, id),
{
    assert forall|i: Issue| #[trigger] completed_pred(id, t)(i) implies member_pred(id)(i) by {}
    lemma_count_mono(s, completed_pred(id, t), member_pred(id));
}

fn actual_points(issues: &[Issue], id: i64, start: i64, now: i64, total: usize) -> (pts: Vec<
    BurndownDataPoint,
>)
    requires
        total == milestone_total(issues@, id),
        valid_timestamp(start as int),
        valid_timestamp(now as int),
        start + 86400 * day_count(start as int, now as int) <= MAX_TIMESTAMP,
    ensures
        pts@ == burndown_points(issues@, id, start as int, now as int),
        dates_valid(pts@),
{
    let ghost s = issues@;
    let ghost n = day_count(start as int, now as int);
    let mut pts: Vec<BurndownDataPoint> = Vec::new();
    let mut current: i64 = start;
    let mut k: usize = 0;
    proof {
        lemma_day_count(start as int, now as int, 0);
    }
    while current <= now
        invariant
            s == issues@,
            n == day_count(start as int, now as int),
            total == milestone_total(s, id),
            valid_timestamp(start as int),
            valid_timestamp(now as int),
            start + 86400 * n <= MAX_TIMESTAMP,
            k <= n,
            current == start + 86400 * k,
            current <= now <==> k < n,
            pts@.len() == k,
            forall|j: int| 0 <= j < k ==> #[trigger] pts@[j] == burndown_point(s, id, start as int, j),
            dates_valid(pts@),
        decreases n - k,
    {
        let done = count_where_completed(issues, id, current);
        proof {
            lemma_completed_le_total(s, id, current as int);
        }
        pts.push(BurndownDataPoint { date: current, remaining: total - done, completed: done });
        current = current + 86400;
        k = k + 1;
        proof {
            lemma_day_count(start as int, now as int, k as int);
        }
    }
    assert(pts@ =~= burndown_points(s, id, start as int, now as int));
    pts
}

/// The ideal remaining work never exceeds the total.
proof fn lemma_ideal_bound(total: int, days: int, d: int)
    requires
        total >= 0,
        days > 0,
        0 <= d <= days,
    ensures
        0 <= total * (days - d) / days <= total,
{
    assert(0 <= total * (days - d) <= total * days) by (nonlinear_arith)
        requires
            total >= 0,
            days > 0,
            0 <= d <= days,
    ;
    assert(total * days == days * total) by (nonlinear_arith);
    vstd::arithmetic::div_mod::lemma_div_is_ordered(total * (days - d), total * days, days);
    vstd::arithmetic::div_mod::lemma_div_multiples_vanish(total, days);
    vstd::arithmetic::div_mod::lemma_div_pos_is_pos(total * (days - d), days);
}

fn ideal_points(total: usize, start: i64, end: i64) -> (pts: Vec<BurndownDataPoint>)
    requires
        valid_timestamp(start as int),
        valid_timestamp(end as int),
        start + 86400 * ideal_days(start as int, end as int) <= MAX_TIMESTAMP,
    ensures
        pts@ == ideal_line(total as nat, start as int, Some(end)),
{
    let d0 = num_days_between(end, start);
    let days: i64 = if d0 > 1 {
        d0
    } else {
        1
    };
    assert(days == ideal_days(start as int, end as int));
    let mut pts: Vec<BurndownDataPoint> = Vec::new();
    let mut d: i64 = 0;
    while d <= days
        invariant
            0 < days <= 200000000,
            days == ideal_days(start as int, end as int),
            valid_timestamp(start as int),
            start + 86400 * days <= MAX_TIMESTAMP,
            0 <= d <= days + 1,
            pts@.len() == d,
            forall|j: int| 0 <= j < d ==> #[trigger] pts@[j] == ideal_point(total as nat, start as int, days as int, j),
        decreases days + 1 - d,
    {
        proof {
            lemma_ideal_bound(total as int, days as int, d as int);
        }
        assert((total as u128) * ((days - d) as u128) <= (total as u128) * 200000000u128) by (nonlinear_arith)
            requires
                0 <= days - d <= 200000000,
        ;
        let remaining: u128 = (total as u128) * ((days - d) as u128) / (days as u128);
        let r = remaining as usize;
        pts.push(BurndownDataPoint { date: start + 86400 * d, remaining: r, completed: total - r });
        d = d + 1;
    }
    assert(pts@ =~= ideal_line(total as nat, start as int, Some(end)));
    pts
}

/// The window of points that the projection reads, and what it computes from them.
fn projection_parts(pts: &[BurndownDataPoint]) -> (r: (i64, i128, i64, usize))
    requires
        pts@.len() >= 2,
        dates_valid(pts@),
    ensures
        ({
            let n = pts@.len() as int;
            let w = if n < 7 {
                n
            } else {
                7
            };
            let first = pts@[n - w];
            let last = pts@[n - 1];
            &&& r.0 == days_between(last.date as int, first.date as int)
            &&& -200000000 <= r.0 <= 200000000
            &&& r.1 == last.completed - first.completed
            &&& r.2 == last.date
            &&& r.3 == last.remaining
        }),
{
    let n = pts.len();
    let w = if n < 7 {
        n
    } else {
        7
    };
    let first = pts[n - w];
    let last = pts[n - 1];
    let days = num_days_between(last.date, first.date);
    let diff: i128 = last.completed as i128 - first.completed as i128;
    (days, diff, last.date, last.remaining)
}

/// The quantities of the projection stay far within 128 bits.
proof fn lemma_quotient_bound(remaining: int, days: int, diff: int)
    requires
        0 <= remaining < 0x1_0000_0000_0000_0000,
        0 < days <= 200000000,
        0 < diff <= 0x1_0000_0000_0000_0000,
    ensures
        0 <= remaining * days <= 0x1_0000_0000_0000_0000 * 200000000,
        0 <= (remaining * days + diff - 1) / diff <= remaining * days + diff,
{
    assert(0 <= remaining * days <= 0x1_0000_0000_0000_0000 * 200000000) by (nonlinear_arith)
        requires
            0 <= remaining < 0x1_0000_0000_0000_0000,
            0 < days <= 200000000,
    ;
    let a = remaining * days + diff - 1;
    vstd::arithmetic::div_mod::lemma_div_is_ordered_by_denominator(a, 1, diff);
    vstd::arithmetic::div_mod::lemma_div_pos_is_pos(a, diff);
    vstd::arithmetic::div_mod::lemma_div_basics(a);
}

/// Whether the projection of the points, if any, is representable.
fn projection_fits(pts: &[BurndownDataPoint]) -> (r: bool)
    requires
        dates_valid(pts@),
    ensures
        r == projection_in_range(pts@),
{
    if pts.len() < 2 {
        return true;
    }
    let (days, diff, date, remaining) = projection_parts(pts);
    if diff <= 0 || days <= 0 || remaining == 0 {
        return true;
    }
    proof {
        lemma_quotient_bound(remaining as int, days as int, diff as int);
    }
    let num: i128 = remaining as i128 * days as i128;
    let q: i128 = (num + diff - 1) / diff;
    let t: i128 = date as i128 + 86400 * q;
    -8334601315200 <= t && t <= 8210266876799
}

impl BurndownCalculator {
    /// Project the completion date from the last (up to) seven data points
    pub fn project_completion(data_points: &[BurndownDataPoint], _total: usize) -> (r: Option<i64>)
        requires
            dates_valid(data_points@),
            projection_in_range(data_points@),
        ensures
            r == projection(data_points@),
    {
        if data_points.len() < 2 {
            return None;
        }
        let (days, diff, date, remaining) = projection_parts(data_points);
        if diff <= 0 || days <= 0 {
            return None;
        }
        if remaining == 0 {
            return Some(date);
        }
        proof {
            lemma_quotient_bound(remaining as int, days as int, diff as int);
        }
        let num: i128 = remaining as i128 * days as i128;
        let q: i128 = (num + diff - 1) / diff;
        let t: i128 = date as i128 + 86400 * q;
        Some(t as i64)
    }

    fn assemble(
        issues: &[Issue],
        milestone: &Milestone,
        now: i64,
        total: usize,
        data_points: Vec<BurndownDataPoint>,
    ) -> (r: BurndownReport)
        requires
            valid_timestamp(now as int),
            milestone.valid(),
            days_in_range(*milestone, now as int),
            total == milestone_total(issues@, milestone.id),
            data_points@ == burndown_points(issues@, milestone.id, milestone.created_at as int, now as int),
            dates_valid(data_points@),
            projection_in_range(data_points@),
        ensures
            is_burndown(r, issues@, *milestone, now as int),
    {
        let start = milestone.created_at;
        let ideal_burndown = match milestone.due_on {
            Some(end) => ideal_points(total, start, end),
            None => Vec::new(),
        };
        let projected_completion = Self::project_completion(data_points.as_slice(), total);
        BurndownReport {
            milestone: milestone.title.clone(),
            start_date: start,
            end_date: milestone.due_on,
            total_issues: total,
            data_points,
            ideal_burndown,
            projected_completion,
        }
    }

    /// Generate a burndown report for a milestone, sampling one point a day
    /// from its creation up to `now`
    pub fn calculate_at(issues: &[Issue], milestone: &Milestone, now: i64) -> (r: BurndownReport)
        requires
            valid_timestamp(now as int),
            milestone.valid(),
            burndown_ready(issues@, *milestone, now as int),
        ensures
            is_burndown(r, issues@, *milestone, now as int),
    {
        let total = count_where_member(issues, milestone.id);
        let data_points = actual_points(issues, milestone.id, milestone.created_at, now, total);
        Self::assemble(issues, milestone, now, total, data_points)
    }

    /// Generate a burndown report for a milestone up to the current time.
    /// `Ok(None)` where the days sampled or the projected completion leave the
    /// representable range; an error when the clock cannot be read.
    pub fn calculate(issues: &[Issue], milestone: &Milestone) -> (r: Result<
        Option<BurndownReport>,
        ClockUnavailable,
    >)
        requires
            milestone.valid(),
        ensures
            r matches Ok(Some(rep)) ==> exists|now: int|
                clock_instant(now) && burndown_ready(issues@, *milestone, now) && is_burndown(
                    rep,
                    issues@,
                    *milestone,
                    now,
                ),
            r matches Ok(None) ==> exists|now: int|
                clock_instant(now) && !burndown_ready(issues@, *milestone, now),
    {
        let now = match now_timestamp() {
            Some(t) => t,
            None => {
                return Err(ClockUnavailable);
            },
        };
        if !days_fit(milestone, now) {
            return Ok(None);
        }
        let total = count_where_member(issues, milestone.id);
        let data_points = actual_points(issues, milestone.id, milestone.created_at, now, total);
        if !projection_fits(data_points.as_slice()) {
            return Ok(None);
        }
        Ok(Some(Self::assemble(issues, milestone, now, total, data_points)))
    }

    /// Generate a burnup report for a milestone, sampling one point a day from
    /// its creation up to `now`
    pub fn calculate_burnup_at(issues: &[Issue], milestone: &Milestone, now: i64) -> (r: BurnupReport)
        requires
            valid_timestamp(now as int),
            milestone.valid(),
            samples_in_range(*milestone, now as int),
            burnup_consistent(issues@, milestone.id, milestone.created_at as int, now as int),
        ensures
            is_burnup(r, issues@, *milestone, now as int),
    {
        let series = burnup_series(issues, milestone.id, milestone.created_at, now);
        match series {
            Some((scope_data, completed_data)) => BurnupReport {
                milestone: milestone.title.clone(),
                start_date: milestone.created_at,
                end_date: milestone.due_on,
                scope_data,
                completed_data,
            },
            None => {
                proof {
                    assert(false);
                }
                BurnupReport {
                    milestone: milestone.title.clone(),
                    start_date: milestone.created_at,
                    end_date: milestone.due_on,
                    scope_data: Vec::new(),
                    completed_data: Vec::new(),
                }
            },
        }
    }

    /// Generate a burnup report for a milestone up to the current time.
    /// `Ok(None)` where the days sampled leave the representable range, or
    /// where on some day more issues were closed than created; an error when
    /// the clock cannot be read.
    pub fn calculate_burnup(issues: &[Issue], milestone: &Milestone) -> (r: Result<
        Option<BurnupReport>,
        ClockUnavailable,
    >)
        requires
            milestone.valid(),
        ensures
            r matches Ok(Some(rep)) ==> exists|now: int|
                clock_instant(now) && samples_in_range(*milestone, now) && is_burnup(
                    rep,
                    issues@,
                    *milestone,
                    now,
                ),
            r matches Ok(None) ==> exists|now: int|
                clock_instant(now) && !(samples_in_range(*milestone, now) && burnup_consistent(
                    issues@,
                    milestone.id,
                    milestone.created_at as int,
                    now,
                )),
    {
        let now = match now_timestamp() {
            Some(t) => t,
            None => {
                return Err(ClockUnavailable);
            },
        };
        if !samples_fit(milestone, now) {
            return Ok(None);
        }
        match burnup_series(issues, milestone.id, milestone.created_at, now) {
            Some((scope_data, completed_data)) => Ok(
                Some(
                    BurnupReport {
                        milestone: milestone.title.clone(),
                        start_date: milestone.created_at,
                        end_date: milestone.due_on,
                        scope_data,
                        completed_data,
                    },
                ),
            ),
            None => Ok(None),
        }
    }
}

/// Days sampled from `start` up to `now`.
fn sample_days(start: i64, now: i64) -> (r: i64)
    requires
        valid_timestamp(start as int),
        valid_timestamp(now as int),
    ensures
        r == day_count(start as int, now as int),
        0 <= r <= 200000000,
{
    if start <= now {
        (now - start) / 86400 + 1
    } else {
        0
    }
}

fn samples_fit(m: &Milestone, now: i64) -> (r: bool)
    requires
        m.valid(),
        valid_timestamp(now as int),
    ensures
        r == samples_in_range(*m, now as int),
{
    let n = sample_days(m.created_at, now);
    m.created_at + 86400 * n <= 8210266876799
}

fn days_fit(m: &Milestone, now: i64) -> (r: bool)
    requires
        m.valid(),
        valid_timestamp(now as int),
    ensures
        r == days_in_range(*m, now as int),
{
    if !samples_fit(m, now) {
        return false;
    }
    match m.due_on {
        Some(end) => {
            let d0 = num_days_between(end, m.created_at);
            let days: i64 = if d0 > 1 {
                d0
            } else {
                1
            };
            m.created_at + 86400 * days <= 8210266876799
        },
        None => true,
    }
}

fn burnup_series(issues: &[Issue], id: i64, start: i64, now: i64) -> (r: Option<
    (Vec<ScopeDataPoint>, Vec<BurndownDataPoint>),
>)
    requires
        valid_timestamp(start as int),
        valid_timestamp(now as int),
        start + 86400 * day_count(start as int, now as int) <= MAX_TIMESTAMP,
    ensures
        r is Some <==> burnup_consistent(issues@, id, start as int, now as int),
        r matches Some((a, b)) ==> {
            &&& a@ == Seq::new(
                day_count(start as int, now as int),
                |k: int| burnup_scope(issues@, id, start as int, k),
            )
            &&& b@ == Seq::new(
                day_count(start as int, now as int),
                |k: int| burnup_completed(issues@, id, start as int, k),
            )
        },
{
    let ghost s = issues@;
    let ghost n = day_count(start as int, now as int);
    let mut scope_data: Vec<ScopeDataPoint> = Vec::new();
    let mut completed_data: Vec<BurndownDataPoint> = Vec::new();
    let mut current: i64 = start;
    let mut k: usize = 0;
    proof {
        lemma_day_count(start as int, now as int, 0);
    }
    while current <= now
        invariant
            s == issues@,
            n == day_count(start as int, now as int),
            valid_timestamp(start as int),
            valid_timestamp(now as int),
            start + 86400 * n <= MAX_TIMESTAMP,
            k <= n,
            current == start + 86400 * k,
            current <= now <==> k < n,
            scope_data@.len() == k,
            completed_data@.len() == k,
            forall|j: int| 0 <= j < k ==> #[trigger] scope_data@[j] == burnup_scope(s, id, start as int, j),
            forall|j: int|
                0 <= j < k ==> #[trigger] completed_data@[j] == burnup_completed(s, id, start as int, j),
            forall|j: int|
                0 <= j < k ==> count_matching(s, #[trigger] completed_pred(id, start + 86400 * j))
                    <= count_matching(s, scope_pred(id, start + 86400 * j)),
        decreases n - k,
    {
        let scope = count_where_scope(issues, id, current);
        let done = count_where_completed(issues, id, current);
        if done > scope {
            assert(!burnup_consistent(s, id, start as int, now as int)) by {
                assert(count_matching(s, completed_pred(id, start + 86400 * (k as int))) > count_matching(
                    s,
                    scope_pred(id, start + 86400 * (k as int)),
                ));
            }
            return None;
        }
        scope_data.push(ScopeDataPoint { date: current, total_scope: scope });
        completed_data.push(BurndownDataPoint { date: current, remaining: scope - done, completed: done });
        current = current + 86400;
        k = k + 1;
        proof {
            lemma_day_count(start as int, now as int, k as int);
        }
    }
    assert(scope_data@ =~= Seq::new(n, |k: int| burnup_scope(s, id, start as int, k)));
    assert(completed_data@ =~= Seq::new(n, |k: int| burnup_completed(s, id, start as int, k)));
    Some((scope_data, completed_data))
}

/// Over the days of a burndown, completed work never decreases, and on each
/// day remaining and completed work add up to the milestone's issues.
pub proof fn law_burndown_progress(s: Seq<Issue>, id: i64, start: int, now: int, j: int, k: int)
    requires
        s.len() <= usize::MAX,
        0 <= j <= k < day_count(start, now),
    ensures
        burndown_points(s, id, start, now)[j].completed <= burndown_points(s, id, start, now)[k].completed,
        burndown_points(s, id, start, now)[k].remaining + burndown_points(s, id, start, now)[k].completed
            == milestone_total(s, id),
{
    let tj = start + 86400 * j;
    let tk = start + 86400 * k;
    assert forall|i: Issue| #[trigger] completed_pred(id, tj)(i) implies completed_pred(id, tk)(i) by {}
    lemma_count_mono(s, completed_pred(id, tj), completed_pred(id, tk));
    lemma_count_bound(s, completed_pred(id, tk));
    lemma_count_bound(s, member_pred(id));
    lemma_completed_le_total(s, id, tk);
}

/// The ideal line of a milestone with a due date starts at all of its issues
/// and ends at none, never rising in between.
pub proof fn law_ideal_line_falls(total: nat, start: int, end: i64, j: int, k: int)
    requires
        total <= usize::MAX,
        0 <= j <= k <= ideal_days(start, end as int),
    ensures
        ideal_line(total, start, Some(end))[0].remaining == total,
        ideal_line(total, start, Some(end))[ideal_days(start, end as int)].remaining == 0,
        ideal_line(total, start, Some(end))[k].remaining <= ideal_line(total, start, Some(end))[j].remaining,
{
    let days = ideal_days(start, end as int);
    assert(total * (days - 0) == days * total) by (nonlinear_arith);
    vstd::arithmetic::div_mod::lemma_div_multiples_vanish(total as int, days);
    assert(total * (days - days) == 0) by (nonlinear_arith);
    assert(total * (days - k) <= total * (days - j)) by (nonlinear_arith)
        requires
            0 <= j <= k,
    ;
    vstd::arithmetic::div_mod::lemma_div_is_ordered(total * (days - k), total * (days - j), days);
    lemma_ideal_bound(total as int, days, j);
    lemma_ideal_bound(total as int, days, k);
}

/// Over the days of a burnup, the scope never shrinks and the completed work
/// never decreases.
pub proof fn law_burnup_monotone(s: Seq<Issue>, id: i64, start: int, j: int, k: int)
    requires
        s.len() <= usize::MAX,
        0 <= j <= k,
    ensures
        burnup_scope(s, id, start, j).total_scope <= burnup_scope(s, id, start, k).total_scope,
        burnup_completed(s, id, start, j).completed <= burnup_completed(s, id, start, k).completed,
{
    let tj = start + 86400 * j;
    let tk = start + 86400 * k;
    assert forall|i: Issue| #[trigger] scope_pred(id, tj)(i) implies scope_pred(id, tk)(i) by {}
    lemma_count_mono(s, scope_pred(id, tj), scope_pred(id, tk));
    assert forall|i: Issue| #[trigger] completed_pred(id, tj)(i) implies completed_pred(id, tk)(i) by {}
    lemma_count_mono(s, completed_pred(id, tj), completed_pred(id, tk));
    lemma_count_bound(s, scope_pred(id, tk));
    lemma_count_bound(s, completed_pred(id, tk));
}

/// On every day of a burnup, the work remaining and the work completed make up
/// the day's scope: `remaining + completed == total_scope`, for the same date.
pub proof fn law_burnup_parts_make_scope(r: BurnupReport, s: Seq<Issue>, m: Milestone, now: int)
    requires
        is_burnup(r, s, m, now),
        burnup_consistent(s, m.id, m.created_at as int, now),
        s.len() <= usize::MAX,
    ensures
        r.scope_data@.len() == r.completed_data@.len(),
        forall|k: int|
            0 <= k < r.completed_data@.len() ==> {
                &&& (#[trigger] r.completed_data@[k]).remaining + r.completed_data@[k].completed
                    == r.scope_data@[k].total_scope
                &&& r.completed_data@[k].date == r.scope_data@[k].date
            },
{
    let start = m.created_at as int;
    assert forall|k: int|
        0 <= k < r.completed_data@.len() implies {
        &&& (#[trigger] r.completed_data@[k]).remaining + r.completed_data@[k].completed
            == r.scope_data@[k].total_scope
        &&& r.completed_data@[k].date == r.scope_data@[k].date
    } by {
        let t = start + 86400 * k;
        lemma_count_bound(s, scope_pred(m.id, t));
        lemma_count_bound(s, completed_pred(m.id, t));
        assert(count_matching(s, completed_pred(m.id, start + 86400 * k)) <= count_matching(
            s,
            scope_pred(m.id, start + 86400 * k),
        ));
    }
}

proof fn lemma_count_none(s: Seq<Issue>, p: spec_fn(Issue) -> bool)
    requires
        forall|i: int| 0 <= i < s.len() ==> !p(#[trigger] s[i]),
    ensures
        count_matching(s, p) == 0,
    decreases s.len(),
{
    if s.len() > 0 {
        assert forall|i: int| 0 <= i < s.drop_last().len() implies !p(#[trigger] s.drop_last()[i]) by {
            assert(s.drop_last()[i] == s[i]);
        }
        lemma_count_none(s.drop_last(), p);
        assert(s[s.len() - 1] == s.last());
    }
}

proof fn lemma_count_same(s: Seq<Issue>, p: spec_fn(Issue) -> bool, q: spec_fn(Issue) -> bool)
    requires
        forall|i: int| 0 <= i < s.len() ==> p(#[trigger] s[i]) == q(s[i]),
    ensures
        count_matching(s, p) == count_matching(s, q),
    decreases s.len(),
{
    if s.len() > 0 {
        assert forall|i: int| 0 <= i < s.drop_last().len() implies p(#[trigger] s.drop_last()[i]) == q(
            s.drop_last()[i],
        ) by {
            assert(s.drop_last()[i] == s[i]);
        }
        lemma_count_same(s.drop_last(), p, q);
        assert(s[s.len() - 1] == s.last());
    }
}

/// The scope of a burnup day counts the milestone's issues created by that
/// day: none before the first was created, all of them once every one was;
/// the completed work is none before any was closed.
pub proof fn law_burnup_scope_by_creation(r: BurnupReport, s: Seq<Issue>, m: Milestone, now: int, k: int)
    requires
        is_burnup(r, s, m, now),
        samples_in_range(m, now),
        valid_timestamp(m.created_at as int),
        s.len() <= usize::MAX,
        0 <= k < r.scope_data@.len(),
    ensures
        (forall|i: int| 0 <= i < s.len() && in_milestone(#[trigger] s[i], m.id) ==> s[i].created_at
            > r.scope_data@[k].date) ==> r.scope_data@[k].total_scope == 0,
        (forall|i: int| 0 <= i < s.len() && in_milestone(#[trigger] s[i], m.id) ==> s[i].created_at
            <= r.scope_data@[k].date) ==> r.scope_data@[k].total_scope == milestone_total(s, m.id),
        (forall|i: int|
            0 <= i < s.len() && in_milestone(#[trigger] s[i], m.id) ==> !(s[i].closed_at matches Some(c) && c
                <= r.completed_data@[k].date)) ==> r.completed_data@[k].completed == 0,
{
    let t = m.created_at + 86400 * k;
    let sp = scope_pred(m.id, t);
    let cp = completed_pred(m.id, t);
    lemma_count_bound(s, sp);
    lemma_count_bound(s, cp);
    lemma_count_bound(s, member_pred(m.id));
    assert(r.scope_data@[k] == burnup_scope(s, m.id, m.created_at as int, k));
    assert(r.completed_data@[k] == burnup_completed(s, m.id, m.created_at as int, k));
    assert(86400 * k <= 86400 * day_count(m.created_at as int, now));
    assert(r.scope_data@[k].date == t && r.completed_data@[k].date == t);
    if forall|i: int| 0 <= i < s.len() && in_milestone(#[trigger] s[i], m.id) ==> s[i].created_at
        > r.scope_data@[k].date {
        assert forall|i: int| 0 <= i < s.len() implies !sp(#[trigger] s[i]) by {
            if in_milestone(s[i], m.id) {
                assert(s[i].created_at > r.scope_data@[k].date);
            }
        }
        lemma_count_none(s, sp);
    }
    if forall|i: int| 0 <= i < s.len() && in_milestone(#[trigger] s[i], m.id) ==> s[i].created_at
        <= r.scope_data@[k].date {
        assert forall|i: int| 0 <= i < s.len() implies sp(#[trigger] s[i]) == member_pred(m.id)(s[i]) by {
            if in_milestone(s[i], m.id) {
                assert(s[i].created_at <= r.scope_data@[k].date);
            }
        }
        lemma_count_same(s, sp, member_pred(m.id));
    }
    if forall|i: int|
        0 <= i < s.len() && in_milestone(#[trigger] s[i], m.id) ==> !(s[i].closed_at matches Some(c) && c
            <= r.completed_data@[k].date) {
        assert forall|i: int| 0 <= i < s.len() implies !cp(#[trigger] s[i]) by {
            if in_milestone(s[i], m.id) {
                assert(!(s[i].closed_at matches Some(c) && c <= r.completed_data@[k].date));
            }
        }
        lemma_count_none(s, cp);
    }
}

} // verus!
