//! Velocity metrics calculations
use vstd::prelude::*;

use crate::error::Error;
use crate::metrics::issues::count_open;
use crate::models::issue::{Issue, IssueState};
use crate::text::{push_str, str_eq, to_lowercase, unicode_lower};
use crate::time::{clock_instant, now_timestamp, valid_timestamp, ClockUnavailable, MIN_TIMESTAMP};

verus! {

/// Time period for velocity calculations
#[derive(Debug, Clone, Copy, PartialEq, Eq, Structural)]
pub enum Period {
    /// Daily
    Day,
    /// Weekly
    Week,
    /// Monthly
    Month,
}

/// Length of a period in seconds: a day, a week (7 days) or a month (30 days).
pub open spec fn period_secs(p: Period) -> int {
    match p {
        Period::Day => 86400,
        Period::Week => 604800,
        Period::Month => 2592000,
    }
}

/// The name of a period.
pub open spec fn period_label(p: Period) -> Seq<char> {
    match p {
        Period::Day => "day"@,
        Period::Week => "week"@,
        Period::Month => "month"@,
    }
}

/// The period a (lowercased) name stands for.
pub open spec fn period_named(lower: Seq<char>) -> Option<Period> {
    if lower == "day"@ || lower == "daily"@ {
        Some(Period::Day)
    } else if lower == "week"@ || lower == "weekly"@ {
        Some(Period::Week)
    } else if lower == "month"@ || lower == "monthly"@ {
        Some(Period::Month)
    } else {
        None
    }
}

impl Period {
    /// Get duration for this period, in seconds
    pub fn duration(&self) -> (r: i64)
        ensures
            r == period_secs(*self),
    {
        match self {
            Period::Day => 86400,
            Period::Week => 604800,
            Period::Month => 2592000,
        }
    }

    /// Get display name
    pub fn label(&self) -> (r: &'static str)
        ensures
            r@ == period_label(*self),
    {
        match self {
            Period::Day => "day",
            Period::Week => "week",
            Period::Month => "month",
        }
    }

    /// Parse a period name, case-insensitively: day/daily, week/weekly, month/monthly
    pub fn parse(s: &str) -> (r: Result<Period, Error>)
        ensures
            period_named(unicode_lower(s@)) matches Some(p) ==> r == Ok::<Period, Error>(p),
            period_named(unicode_lower(s@)) is None ==> (r matches Err(Error::Custom(m)) && m@
                == "Invalid period: "@ + s@),
    {
        let lower = to_lowercase(s);
        let l = lower.as_str();
        if str_eq(l, "day") || str_eq(l, "daily") {
            Ok(Period::Day)
        } else if str_eq(l, "week") || str_eq(l, "weekly") {
            Ok(Period::Week)
        } else if str_eq(l, "month") || str_eq(l, "monthly") {
            Ok(Period::Month)
        } else {
            let mut m = String::from_str("Invalid period: ");
            push_str(&mut m, s);
            Err(Error::Custom(m))
        }
    }
}

impl std::str::FromStr for Period {
    type Err = Error;

    fn from_str(s: &str) -> (r: Result<Self, Self::Err>)
        ensures
            period_named(unicode_lower(s@)) matches Some(p) ==> r == Ok::<Period, Error>(p),
            period_named(unicode_lower(s@)) is None ==> (r matches Err(Error::Custom(m)) && m@
                == "Invalid period: "@ + s@),
    {
        Period::parse(s)
    }
}

/// Velocity trend direction
#[derive(Debug, Clone, Copy, PartialEq, Eq, Structural)]
pub enum Trend {
    /// Issue count is increasing
    Increasing,
    /// Issue count is decreasing
    Decreasing,
    /// Issue count is stable
    Stable,
}

impl Trend {
    /// Get display label
    pub fn label(&self) -> (r: &'static str)
        ensures
            r@ == (match *self {
                Trend::Increasing => "increasing"@,
                Trend::Decreasing => "decreasing"@,
                Trend::Stable => "stable"@,
            }),
    {
        match self {
            Trend::Increasing => "increasing",
            Trend::Decreasing => "decreasing",
            Trend::Stable => "stable",
        }
    }
}

/// Velocity metrics over time. The average number of issues opened (closed)
/// per period is the mean of `opened` (`closed`) over the data points.
#[derive(Debug, Clone)]
pub struct VelocityMetrics {
    /// Time period used
    pub period: Period,
    /// Data points for each period, oldest first
    pub data_points: Vec<VelocityDataPoint>,
    /// Overall trend
    pub trend: Trend,
}

/// Single velocity data point
#[derive(Debug, Clone, Copy, PartialEq, Eq, Structural)]
pub struct VelocityDataPoint {
    /// Period start date
    pub period_start: i64,
    /// Period end date
    pub period_end: i64,
    /// Issues opened in this period
    pub opened: usize,
    /// Issues closed in this period
    pub closed: usize,
    /// Net change (opened - closed)
    pub net_change: i64,
    /// Cumulative open issues at end of period
    pub cumulative_open: usize,
}

/// Calculator for velocity metrics
pub struct VelocityCalculator;

/// Number of issues created in `[a, b)`.
pub open spec fn created_in(s: Seq<Issue>, a: int, b: int) -> nat
    decreases s.len(),
{
    if s.len() == 0 {
        0
    } else {
        created_in(s.drop_last(), a, b) + if a <= s.last().created_at < b {
            1nat
        } else {
            0nat
        }
    }
}

/// Number of issues closed in `[a, b)`.
pub open spec fn closed_in(s: Seq<Issue>, a: int, b: int) -> nat
    decreases s.len(),
{
    if s.len() == 0 {
        0
    } else {
        closed_in(s.drop_last(), a, b) + if s.last().closed_at matches Some(c) && a <= c < b {
            1nat
        } else {
            0nat
        }
    }
}

/// The end of the `i`-th period counting back from `now` (`now` minus `i` periods of `d` seconds).
pub open spec fn period_end(now: int, d: int, i: nat) -> int
    decreases i,
{
    if i == 0 {
        now
    } else {
        period_end(now, d, (i - 1) as nat) - d
    }
}

/// Net change of the `i`-th period counting back from `now`.
pub open spec fn net_at(s: Seq<Issue>, now: int, d: int, i: nat) -> int {
    created_in(s, period_end(now, d, i + 1), period_end(now, d, i)) - closed_in(
        s,
        period_end(now, d, i + 1),
        period_end(now, d, i),
    )
}

/// Open issues at the end of the `i`-th period counting back from `now`: the
/// issues open now, walked back one period at a time (never below zero).
pub open spec fn cumulative_at(s: Seq<Issue>, now: int, d: int, i: nat) -> int
    decreases i,
{
    if i == 0 {
        count_open(s) as int
    } else {
        let c = cumulative_at(s, now, d, (i - 1) as nat) - net_at(s, now, d, (i - 1) as nat);
        if c > 0 {
            c
        } else {
            0
        }
    }
}

/// The data point of the `i`-th period counting back from `now`.
pub open spec fn point_at(s: Seq<Issue>, now: int, d: int, i: nat) -> VelocityDataPoint {
    VelocityDataPoint {
        period_start: period_end(now, d, i + 1) as i64,
        period_end: period_end(now, d, i) as i64,
        opened: created_in(s, period_end(now, d, i + 1), period_end(now, d, i)) as usize,
        closed: closed_in(s, period_end(now, d, i + 1), period_end(now, d, i)) as usize,
        net_change: net_at(s, now, d, i) as i64,
        cumulative_open: cumulative_at(s, now, d, i) as usize,
    }
}

/// Sum of the net changes of a run of data points.
pub open spec fn net_sum(pts: Seq<VelocityDataPoint>) -> int
    decreases pts.len(),
{
    if pts.len() == 0 {
        0
    } else {
        net_sum(pts.drop_last()) + pts.last().net_change
    }
}

/// The trend of a series: with at least four points, the net change of the
/// later half against that of the earlier half, with a margin of 5.
pub open spec fn trend_spec(pts: Seq<VelocityDataPoint>) -> Trend {
    if pts.len() < 4 {
        Trend::Stable
    } else {
        let mid = (pts.len() / 2) as int;
        let first = net_sum(pts.take(mid));
        let second = net_sum(pts.skip(mid));
        if second > first + 5 {
            Trend::Increasing
        } else if second < first - 5 {
            Trend::Decreasing
        } else {
            Trend::Stable
        }
    }
}

/// The velocity of `s` over `n` periods of `period` ending at `now`.
pub open spec fn is_velocity(m: VelocityMetrics, s: Seq<Issue>, period: Period, n: nat, now: int) -> bool {
    &&& m.period == period
    &&& m.data_points@.len() == n
    &&& forall|k: int|
        0 <= k < n ==> #[trigger] m.data_points@[k] == point_at(
            s,
            now,
            period_secs(period),
            (n - 1 - k) as nat,
        )
    &&& m.trend == trend_spec(m.data_points@)
}

/// The periods fit: no more than 2^31 of them, and the start of the earliest is representable.
pub open spec fn periods_in_range(period: Period, n: nat, now: int) -> bool {
    &&& n <= 2147483648
    &&& valid_timestamp(period_end(now, period_secs(period), n))
}

proof fn lemma_created_in_bound(s: Seq<Issue>, a: int, b: int)
    ensures
        created_in(s, a, b) <= s.len(),
    decreases s.len(),
{
    if s.len() > 0 {
        lemma_created_in_bound(s.drop_last(), a, b);
    }
}

proof fn lemma_closed_in_bound(s: Seq<Issue>, a: int, b: int)
    ensures
        closed_in(s, a, b) <= s.len(),
    decreases s.len(),
{
    if s.len() > 0 {
        lemma_closed_in_bound(s.drop_last(), a, b);
    }
}

proof fn lemma_closed_in_split(s: Seq<Issue>, a: int, b: int, c: int)
    requires
        a <= b <= c,
    ensures
        closed_in(s, a, b) + closed_in(s, b, c) == closed_in(s, a, c),
    decreases s.len(),
{
    if s.len() > 0 {
        lemma_closed_in_split(s.drop_last(), a, b, c);
    }
}

proof fn lemma_count_open_bound(s: Seq<Issue>)
    ensures
        count_open(s) <= s.len(),
    decreases s.len(),
{
    if s.len() > 0 {
        lemma_count_open_bound(s.drop_last());
    }
}

/// Periods that reach back to a representable instant from every instant the
/// clock can read: together they span at most `-MIN_TIMESTAMP` seconds.
pub open spec fn periods_fit(period: Period, n: int) -> bool {
    0 <= n && n * period_secs(period) <= -MIN_TIMESTAMP
}

proof fn lemma_period_end_closed(now: int, d: int, i: nat)
    ensures
        period_end(now, d, i) == now - i * d,
    decreases i,
{
    if i > 0 {
        let j = (i - 1) as nat;
        lemma_period_end_closed(now, d, j);
        assert(period_end(now, d, i) == period_end(now, d, j) - d);
        assert(j * d + d == i * d) by (nonlinear_arith)
            requires
                j == i - 1,
        ;
    } else {
        assert(i * d == 0) by (nonlinear_arith)
            requires
                i == 0,
        ;
    }
}

proof fn lemma_periods_fit(period: Period, n: nat, now: int)
    requires
        periods_fit(period, n as int),
        clock_instant(now),
    ensures
        periods_in_range(period, n, now),
{
    lemma_period_end_closed(now, period_secs(period), n);
    assert(n * period_secs(period) >= n * 86400) by (nonlinear_arith)
        requires
            period_secs(period) >= 86400,
    ;
}

proof fn lemma_period_end_decreasing(now: int, d: int, i: nat, j: nat)
    requires
        d > 0,
        i <= j,
    ensures
        period_end(now, d, j) <= period_end(now, d, i),
    decreases j,
{
    if j > i {
        lemma_period_end_decreasing(now, d, i, (j - 1) as nat);
    }
}

/// The walked-back open count never exceeds the issues open now plus those
/// closed since the end of that period.
proof fn lemma_cumulative_bound(s: Seq<Issue>, now: int, d: int, i: nat)
    requires
        d > 0,
    ensures
        0 <= cumulative_at(s, now, d, i) <= count_open(s) + closed_in(s, period_end(now, d, i), now),
    decreases i,
{
    if i == 0 {
    } else {
        let j = (i - 1) as nat;
        lemma_cumulative_bound(s, now, d, j);
        lemma_period_end_decreasing(now, d, 0, j);
        lemma_closed_in_split(s, period_end(now, d, i), period_end(now, d, j), now);
    }
}

fn count_created(issues: &[Issue], a: i64, b: i64) -> (r: usize)
    ensures
        r == created_in(issues@, a as int, b as int),
{
    let mut count: usize = 0;
    let mut i: usize = 0;
    while i < issues.len()
        invariant
            i <= issues.len(),
            count <= i,
            count == created_in(issues@.take(i as int), a as int, b as int),
        decreases issues.len() - i,
    {
        assert(issues@.take(i + 1).drop_last() =~= issues@.take(i as int));
        if issues[i].created_at >= a && issues[i].created_at < b {
            count = count + 1;
        }
        i = i + 1;
    }
    assert(issues@.take(i as int) =~= issues@);
    count
}

fn count_closed_between(issues: &[Issue], a: i64, b: i64) -> (r: usize)
    ensures
        r == closed_in(issues@, a as int, b as int),
{
    let mut count: usize = 0;
    let mut i: usize = 0;
    while i < issues.len()
        invariant
            i <= issues.len(),
            count <= i,
            count == closed_in(issues@.take(i as int), a as int, b as int),
        decreases issues.len() - i,
    {
        assert(issues@.take(i + 1).drop_last() =~= issues@.take(i as int));
        let hit = match issues[i].closed_at {
            Some(c) => c >= a && c < b,
            None => false,
        };
        if hit {
            count = count + 1;
        }
        i = i + 1;
    }
    assert(issues@.take(i as int) =~= issues@);
    count
}

fn count_open_issues(issues: &[Issue]) -> (r: usize)
    ensures
        r == count_open(issues@),
{
    let mut count: usize = 0;
    let mut i: usize = 0;
    while i < issues.len()
        invariant
            i <= issues.len(),
            count <= i,
            count == count_open(issues@.take(i as int)),
        decreases issues.len() - i,
    {
        assert(issues@.take(i + 1).drop_last() =~= issues@.take(i as int));
        if issues[i].state == IssueState::Open {
            count = count + 1;
        }
        i = i + 1;
    }
    assert(issues@.take(i as int) =~= issues@);
    count
}

impl VelocityCalculator {
    /// Calculate velocity metrics for issues over `num_periods` periods ending at `now`
    pub fn calculate_at(issues: &[Issue], period: Period, num_periods: usize, now: i64) -> (m:
        VelocityMetrics)
        requires
            valid_timestamp(now as int),
            periods_in_range(period, num_periods as nat, now as int),
            issues@.len() < 0x4000_0000_0000_0000,
            2 * issues@.len() <= usize::MAX,
        ensures
            is_velocity(m, issues@, period, num_periods as nat, now as int),
    {
        let period_duration = period.duration();
        let ghost d = period_secs(period);
        let ghost s = issues@;
        let ghost n = num_periods as nat;
        let current_open = count_open_issues(issues);
        proof {
            lemma_count_open_bound(s);
        }
        let mut cumulative_open: usize = current_open;
        let mut backwards: Vec<VelocityDataPoint> = Vec::new();
        let mut period_end_at: i64 = now;
        let mut i: usize = 0;
        while i < num_periods
            invariant
                i <= num_periods,
                d == period_secs(period),
                period_duration == d,
                s == issues@,
                n == num_periods,
                s.len() < 0x4000_0000_0000_0000,
                2 * s.len() <= usize::MAX,
                valid_timestamp(now as int),
                periods_in_range(period, n, now as int),
                period_end_at == period_end(now as int, d, i as nat),
                cumulative_open == cumulative_at(s, now as int, d, i as nat),
                backwards@.len() == i,
                forall|k: int| 0 <= k < i ==> #[trigger] backwards@[k] == point_at(s, now as int, d, k as nat),
            decreases num_periods - i,
        {
            proof {
                lemma_period_end_decreasing(now as int, d, (i + 1) as nat, n);
                lemma_period_end_decreasing(now as int, d, 0, i as nat);
            }
            let period_start_at = period_end_at - period_duration;
            let opened = count_created(issues, period_start_at, period_end_at);
            let closed = count_closed_between(issues, period_start_at, period_end_at);
            proof {
                lemma_created_in_bound(s, period_start_at as int, period_end_at as int);
                lemma_closed_in_bound(s, period_start_at as int, period_end_at as int);
            }
            let net_change = opened as i64 - closed as i64;
            backwards.push(
                VelocityDataPoint {
                    period_start: period_start_at,
                    period_end: period_end_at,
                    opened,
                    closed,
                    net_change,
                    cumulative_open,
                },
            );
            proof {
                assert(period_start_at == period_end(now as int, d, (i + 1) as nat));
                assert(net_change == net_at(s, now as int, d, i as nat));
                lemma_cumulative_bound(s, now as int, d, i as nat);
                lemma_closed_in_split(
                    s,
                    period_start_at as int,
                    period_end_at as int,
                    now as int,
                );
                lemma_closed_in_bound(s, period_start_at as int, now as int);
                lemma_count_open_bound(s);
            }
            let next = cumulative_open as i64 - net_change;
            assert(next == cumulative_at(s, now as int, d, i as nat) - net_at(s, now as int, d, i as nat));
            cumulative_open = if next > 0 {
                next as usize
            } else {
                0
            };
            assert(cumulative_open == cumulative_at(s, now as int, d, (i + 1) as nat)) by {
                reveal_with_fuel(cumulative_at, 2);
            }
            period_end_at = period_start_at;
            i = i + 1;
        }
        // Reverse to chronological order
        let mut data_points: Vec<VelocityDataPoint> = Vec::new();
        let mut k: usize = 0;
        while k < backwards.len()
            invariant
                k <= backwards.len(),
                backwards@.len() == n,
                data_points@.len() == k,
                forall|j: int| 0 <= j < k ==> #[trigger] data_points@[j] == backwards@[n - 1 - j],
            decreases backwards.len() - k,
        {
            data_points.push(backwards[backwards.len() - 1 - k]);
            k = k + 1;
        }
        let trend = Self::calculate_trend(data_points.as_slice());
        VelocityMetrics { period, data_points, trend }
    }

    /// Calculate velocity metrics for issues over a number of periods ending
    /// now. `Ok(None)` when those periods reach back past the representable
    /// range; an error when the clock cannot be read.
    pub fn calculate(issues: &[Issue], period: Period, num_periods: usize) -> (r: Result<
        Option<VelocityMetrics>,
        ClockUnavailable,
    >)
        requires
            issues@.len() < 0x4000_0000_0000_0000,
            2 * issues@.len() <= usize::MAX,
        ensures
            r matches Ok(Some(m)) ==> exists|now: int|
                clock_instant(now) && is_velocity(m, issues@, period, num_periods as nat, now),
            r matches Ok(None) ==> exists|now: int|
                clock_instant(now) && !periods_in_range(period, num_periods as nat, now),
            periods_fit(period, num_periods as int) ==> !(r matches Ok(None)),
    {
        let now = match now_timestamp() {
            Some(t) => t,
            None => {
                return Err(ClockUnavailable);
            },
        };
        proof {
            if periods_fit(period, num_periods as int) {
                lemma_periods_fit(period, num_periods as nat, now as int);
            }
        }
        if num_periods > 2147483648 {
            return Ok(None);
        }
        let d = period.duration();
        let mut end: i64 = now;
        let mut i: usize = 0;
        while i < num_periods
            invariant
                i <= num_periods <= 2147483648,
                d == period_secs(period),
                valid_timestamp(now as int),
                clock_instant(now as int),
                periods_fit(period, num_periods as int) ==> periods_in_range(period, num_periods as nat, now as int),
                end == period_end(now as int, d as int, i as nat),
                valid_timestamp(end as int),
            decreases num_periods - i,
        {
            if end - d < MIN_TIMESTAMP {
                proof {
                    lemma_period_end_decreasing(now as int, d as int, (i + 1) as nat, num_periods as nat);
                }
                return Ok(None);
            }
            end = end - d;
            i = i + 1;
        }
        Ok(Some(Self::calculate_at(issues, period, num_periods, now)))
    }

    /// The trend of a series of data points
    pub fn calculate_trend(data_points: &[VelocityDataPoint]) -> (t: Trend)
        ensures
            t == trend_spec(data_points@),
    {
        if data_points.len() < 4 {
            return Trend::Stable;
        }
        let mid = data_points.len() / 2;
        let mut first: i128 = 0;
        let mut k: usize = 0;
        while k < mid
            invariant
                k <= mid <= data_points.len(),
                first == net_sum(data_points@.take(k as int)),
                -9223372036854775808 * k <= first <= 9223372036854775807 * k,
            decreases mid - k,
        {
            assert(data_points@.take(k + 1).drop_last() =~= data_points@.take(k as int));
            first = first + data_points[k].net_change as i128;
            k = k + 1;
        }
        let mut second: i128 = 0;
        let mut j: usize = mid;
        while j < data_points.len()
            invariant
                mid <= j <= data_points.len(),
                second == net_sum(data_points@.subrange(mid as int, j as int)),
                -9223372036854775808 * (j - mid) <= second <= 9223372036854775807 * (j - mid),
            decreases data_points.len() - j,
        {
            assert(data_points@.subrange(mid as int, j + 1).drop_last() =~= data_points@.subrange(
                mid as int,
                j as int,
            ));
            second = second + data_points[j].net_change as i128;
            j = j + 1;
        }
        assert(data_points@.subrange(mid as int, data_points.len() as int) =~= data_points@.skip(
            mid as int,
        ));
        let threshold: i128 = 5;
        if second > first + threshold {
            Trend::Increasing
        } else if second < first - threshold {
            Trend::Decreasing
        } else {
            Trend::Stable
        }
    }
}

/// The periods of a velocity report tile time: oldest first, each ends where
/// the next begins, and each lasts one period.
pub proof fn law_velocity_periods_adjacent(
    m: VelocityMetrics,
    s: Seq<Issue>,
    period: Period,
    n: nat,
    now: int,
    k: int,
)
    requires
        is_velocity(m, s, period, n, now),
        periods_in_range(period, n, now),
        valid_timestamp(now),
        0 <= k < n,
    ensures
        k + 1 < n ==> m.data_points@[k].period_end == m.data_points@[k + 1].period_start,
        m.data_points@[k].period_end - m.data_points@[k].period_start == period_secs(period),
{
    let d = period_secs(period);
    let i = (n - 1 - k) as nat;
    lemma_period_end_decreasing(now, d, 0, i);
    lemma_period_end_decreasing(now, d, i + 1, n);
    assert(period_end(now, d, i + 1) == period_end(now, d, i) - d);
    if k + 1 < n {
        assert(m.data_points@[k + 1] == point_at(s, now, d, (n - 1 - (k + 1)) as nat));
        assert(((n - 1 - (k + 1)) as nat) + 1 == i);
    }
}

/// Each velocity data point's net change is the issues opened minus those
/// closed in its period; the latest point's open count is the number of
/// issues open now, and each earlier point's open count is the next one's
/// less that period's net change (never below zero).
pub proof fn law_velocity_net_and_open(
    m: VelocityMetrics,
    s: Seq<Issue>,
    period: Period,
    n: nat,
    now: int,
    k: int,
)
    requires
        is_velocity(m, s, period, n, now),
        s.len() < 0x4000_0000_0000_0000,
        2 * s.len() <= usize::MAX,
        0 <= k < n,
    ensures
        m.data_points@[k].net_change == m.data_points@[k].opened - m.data_points@[k].closed,
        k == n - 1 ==> m.data_points@[k].cumulative_open == count_open(s),
        k + 1 < n ==> m.data_points@[k].cumulative_open == (if m.data_points@[k + 1].cumulative_open
            - m.data_points@[k + 1].net_change > 0 {
            m.data_points@[k + 1].cumulative_open - m.data_points@[k + 1].net_change
        } else {
            0
        }),
{
    let d = period_secs(period);
    let i = (n - 1 - k) as nat;
    assert(m.data_points@[k] == point_at(s, now, d, i));
    let a = period_end(now, d, i + 1);
    let b = period_end(now, d, i);
    lemma_created_in_bound(s, a, b);
    lemma_closed_in_bound(s, a, b);
    lemma_count_open_bound(s);
    lemma_cumulative_bound(s, now, d, i);
    lemma_closed_in_bound(s, period_end(now, d, i), now);
    if k + 1 < n {
        let j = (i - 1) as nat;
        assert(m.data_points@[k + 1] == point_at(s, now, d, j));
        lemma_created_in_bound(s, period_end(now, d, j + 1), period_end(now, d, j));
        lemma_closed_in_bound(s, period_end(now, d, j + 1), period_end(now, d, j));
        lemma_cumulative_bound(s, now, d, j);
        lemma_closed_in_bound(s, period_end(now, d, j), now);
    }
}

} // verus!
