use std::collections::HashMap;

use greport::config::{SlaConfig, SlaPriority};
use greport::metrics::issues::IssueMetricsCalculator;
use greport::metrics::pulls::PullMetricsCalculator;
use greport::metrics::sla::{SlaCalculator, ViolationType};
use greport::metrics::velocity::{Period, Trend, VelocityCalculator, VelocityDataPoint};
use greport::models::{Issue, IssueEvent, IssueState, Label, PullRequest, PullState, User};
use greport::stats::Median;

const NOW: i64 = 1_770_000_000;
const HOUR: i64 = 3600;
const DAY: i64 = 86400;

fn user(login: &str) -> User {
    User { id: 1, login: login.to_string(), avatar_url: String::new(), html_url: String::new() }
}

fn issue(state: IssueState, age_days: i64) -> Issue {
    let created = NOW - age_days * DAY;
    Issue {
        id: 1,
        number: 1,
        title: "Test".to_string(),
        body: None,
        state,
        labels: vec![],
        assignees: vec![],
        milestone: None,
        author: User::unknown(),
        comments_count: 0,
        created_at: created,
        updated_at: created,
        closed_at: if state == IssueState::Closed { Some(NOW) } else { None },
        closed_by: None,
    }
}

fn tally(v: &[(String, usize)], key: &str) -> Option<usize> {
    v.iter().find(|(k, _)| k == key).map(|(_, c)| *c)
}

#[test]
fn test_issue_metrics() {
    let issues = vec![issue(IssueState::Open, 5), issue(IssueState::Open, 15), issue(IssueState::Closed, 10)];

    let calculator = IssueMetricsCalculator::new(30);
    let metrics = calculator.calculate_at(&issues, NOW);

    assert_eq!(metrics.total, 3);
    assert_eq!(metrics.open, 2);
    assert_eq!(metrics.closed, 1);
}

#[test]
fn issue_metrics_with_the_clock() {
    let issues = vec![issue(IssueState::Open, 5), issue(IssueState::Closed, 10)];
    let metrics = IssueMetricsCalculator::new(30).calculate(&issues).unwrap().unwrap();
    assert_eq!(metrics.total, 2);
    assert_eq!(metrics.open + metrics.closed, metrics.total);
}

#[test]
fn issue_metrics_need_no_threshold_without_open_issues() {
    let issues = vec![issue(IssueState::Closed, 3), issue(IssueState::Closed, 9)];
    let metrics = IssueMetricsCalculator::new(200_000_000).calculate(&issues).unwrap().unwrap();
    assert_eq!(metrics.stale_count, 0);
    assert_eq!(metrics.closed, 2);
    let open = vec![issue(IssueState::Open, 3)];
    assert!(IssueMetricsCalculator::new(200_000_000).calculate(&open).unwrap().is_none());
}

#[test]
fn test_median_calculation() {
    assert_eq!(IssueMetricsCalculator::calculate_median(&[1, 2, 3]), Some(Median::Middle(2)));
    assert_eq!(IssueMetricsCalculator::calculate_median(&[1, 2, 3, 4]), Some(Median::Between(2, 3)));
    // The median of an even sample is the mean of the middle values: 2.5
    if let Some(Median::Between(a, b)) = IssueMetricsCalculator::calculate_median(&[1, 2, 3, 4]) {
        assert_eq!((a + b) as f64 / 2.0, 2.5);
    }
    assert_eq!(IssueMetricsCalculator::calculate_median(&[]), None);
}

#[test]
fn median_sorts_unordered_samples() {
    assert_eq!(IssueMetricsCalculator::calculate_median(&[5, -1, 3]), Some(Median::Middle(3)));
    assert_eq!(IssueMetricsCalculator::calculate_median(&[9, 1]), Some(Median::Between(1, 9)));
}

#[test]
fn issue_metrics_age_buckets_and_tallies() {
    let mut a = issue(IssueState::Open, 0);
    a.labels.push(Label { id: 1, name: "bug".into(), color: "f00".into(), description: None });
    a.assignees.push(user("alice"));
    let mut b = issue(IssueState::Open, 3);
    b.labels.push(Label { id: 1, name: "bug".into(), color: "f00".into(), description: None });
    let c = issue(IssueState::Open, 400);
    let mut d = issue(IssueState::Closed, 2);
    d.closed_at = Some(d.created_at + 10 * HOUR);
    let issues = vec![a, b, c, d];
    let m = IssueMetricsCalculator::new(30).calculate_at(&issues, NOW);
    let counts: Vec<usize> = m.age_distribution.buckets.iter().map(|b| b.count).collect();
    assert_eq!(counts, vec![1, 1, 0, 0, 0, 1]);
    // Law: the bucket counts add up to the open issues of non-negative age
    assert_eq!(counts.iter().sum::<usize>(), m.open);
    assert_eq!(m.age_distribution.buckets[0].label, "< 1 day");
    assert_eq!(tally(&m.by_label, "bug"), Some(2));
    assert_eq!(tally(&m.by_assignee, "alice"), Some(1));
    assert_eq!(tally(&m.by_assignee, "Unassigned"), Some(3));
    assert_eq!(m.close_time_total_hours, 10);
    assert_eq!(m.close_time_samples, 1);
    assert_eq!(m.stale_count, 1);
}

fn pr(number: u64, state: PullState, merged: bool, merge_hours_ago: Option<i64>, additions: u32, deletions: u32, author: &str, draft: bool) -> PullRequest {
    let created_hours_ago = merge_hours_ago.unwrap_or(24) + 48;
    PullRequest {
        id: number as i64,
        number,
        title: format!("PR #{}", number),
        body: None,
        state,
        draft,
        author: user(author),
        labels: vec![],
        milestone: None,
        head_ref: "feature".to_string(),
        base_ref: "main".to_string(),
        merged,
        merged_at: merge_hours_ago.map(|h| NOW - h * HOUR),
        additions,
        deletions,
        changed_files: 1,
        created_at: NOW - created_hours_ago * HOUR,
        updated_at: NOW,
        closed_at: if state == PullState::Closed { Some(NOW) } else { None },
    }
}

#[test]
fn test_pull_metrics_basic_counts() {
    let prs = vec![
        pr(1, PullState::Open, false, None, 10, 5, "alice", false),
        pr(2, PullState::Closed, true, Some(24), 20, 10, "bob", false),
        pr(3, PullState::Closed, false, None, 30, 15, "alice", false),
    ];

    let metrics = PullMetricsCalculator::calculate(&prs);
    assert_eq!(metrics.total, 3);
    assert_eq!(metrics.open, 1);
    assert_eq!(metrics.merged, 1);
    assert_eq!(metrics.closed_unmerged, 1);
}

#[test]
fn pull_states_partition_the_total() {
    // Law: open, merged and closed-unmerged pull requests add up to the total.
    let prs = vec![
        pr(1, PullState::Open, false, None, 1, 1, "a", false),
        pr(2, PullState::Open, false, None, 1, 1, "b", true),
        pr(3, PullState::Closed, true, Some(5), 1, 1, "a", false),
        pr(4, PullState::Closed, false, None, 1, 1, "c", false),
        pr(5, PullState::Closed, true, Some(2), 1, 1, "d", false),
    ];
    let m = PullMetricsCalculator::calculate(&prs);
    assert_eq!((m.open, m.merged, m.closed_unmerged), (2, 2, 1));
    assert_eq!(m.open + m.merged + m.closed_unmerged, m.total);
}

#[test]
fn test_pull_metrics_by_author() {
    let prs = vec![
        pr(1, PullState::Open, false, None, 10, 5, "alice", false),
        pr(2, PullState::Open, false, None, 20, 10, "bob", false),
        pr(3, PullState::Closed, true, Some(24), 30, 15, "alice", false),
    ];

    let metrics = PullMetricsCalculator::calculate(&prs);
    assert_eq!(tally(&metrics.by_author, "alice").unwrap(), 2);
    assert_eq!(tally(&metrics.by_author, "bob").unwrap(), 1);
}

#[test]
fn test_pull_metrics_by_size() {
    let prs = vec![
        pr(1, PullState::Open, false, None, 3, 2, "alice", false),
        pr(2, PullState::Open, false, None, 20, 10, "bob", false),
        pr(3, PullState::Open, false, None, 100, 50, "charlie", false),
        pr(4, PullState::Open, false, None, 200, 100, "dave", false),
        pr(5, PullState::Open, false, None, 400, 200, "eve", false),
    ];

    let metrics = PullMetricsCalculator::calculate(&prs);
    assert_eq!(tally(&metrics.by_size, "XS").unwrap_or(0), 1);
    assert_eq!(tally(&metrics.by_size, "S").unwrap_or(0), 1);
    assert_eq!(tally(&metrics.by_size, "M").unwrap_or(0), 1);
    assert_eq!(tally(&metrics.by_size, "L").unwrap_or(0), 1);
    assert_eq!(tally(&metrics.by_size, "XL").unwrap_or(0), 1);
    // Law: the counts of a tally add up to the number counted
    assert_eq!(metrics.by_size.iter().map(|(_, c)| c).sum::<usize>(), metrics.total);
}

#[test]
fn test_pull_metrics_merge_time() {
    let prs = vec![
        pr(1, PullState::Closed, true, Some(24), 10, 5, "alice", false),
        pr(2, PullState::Closed, true, Some(0), 20, 10, "bob", false),
    ];

    let metrics = PullMetricsCalculator::calculate(&prs);
    assert!(metrics.merge_time_samples > 0);
    assert!(metrics.median_time_to_merge_hours.is_some());
    assert_eq!(metrics.merge_time_total_hours, 96);
    assert_eq!(metrics.median_time_to_merge_hours, Some(Median::Between(48, 48)));
}

#[test]
fn test_pull_metrics_draft_count() {
    let prs = vec![
        pr(1, PullState::Open, false, None, 10, 5, "alice", true),
        pr(2, PullState::Open, false, None, 20, 10, "bob", true),
        pr(3, PullState::Open, false, None, 30, 15, "charlie", false),
    ];

    let metrics = PullMetricsCalculator::calculate(&prs);
    assert_eq!(metrics.draft_count, 2);
}

#[test]
fn test_pull_metrics_empty() {
    let prs: Vec<PullRequest> = vec![];
    let metrics = PullMetricsCalculator::calculate(&prs);

    assert_eq!(metrics.total, 0);
    assert_eq!(metrics.open, 0);
    assert_eq!(metrics.merged, 0);
    assert_eq!(metrics.merge_time_samples, 0);
    assert!(metrics.median_time_to_merge_hours.is_none());
}

#[test]
fn test_pull_metrics_median_calculation() {
    let values = vec![10, 20, 30, 40, 50];
    assert_eq!(PullMetricsCalculator::calculate_median(&values), Some(Median::Middle(30)));

    let values = vec![10, 20, 30, 40];
    let median = PullMetricsCalculator::calculate_median(&values);
    assert_eq!(median, Some(Median::Between(20, 30)));
    if let Some(Median::Between(a, b)) = median {
        assert_eq!((a + b) as f64 / 2.0, 25.0);
    }

    let values: Vec<i64> = vec![];
    assert!(PullMetricsCalculator::calculate_median(&values).is_none());
}

fn sla_issue(number: u64, created_hours_ago: i64, closed_hours_ago: Option<i64>, labels: Vec<Label>) -> Issue {
    Issue {
        id: number as i64,
        number,
        title: format!("Issue #{}", number),
        body: None,
        state: if closed_hours_ago.is_some() { IssueState::Closed } else { IssueState::Open },
        labels,
        assignees: vec![],
        milestone: None,
        author: user("test"),
        comments_count: 0,
        created_at: NOW - created_hours_ago * HOUR,
        updated_at: NOW,
        closed_at: closed_hours_ago.map(|h| NOW - h * HOUR),
        closed_by: None,
    }
}

fn default_sla_config() -> SlaConfig {
    SlaConfig { response_time_hours: 24, resolution_time_hours: 168, priority: vec![] }
}

fn comment_at(t: i64) -> IssueEvent {
    IssueEvent {
        id: 1,
        event_type: "commented".to_string(),
        actor: Some(user("test")),
        created_at: t,
        label_name: None,
        assignee: None,
    }
}

#[test]
fn test_sla_calculation_response_met() {
    let calculator = SlaCalculator::new(default_sla_config());
    let issue = sla_issue(1, 48, None, vec![]);
    let mut events: HashMap<u64, Vec<IssueEvent>> = HashMap::new();
    events.insert(1, vec![comment_at(NOW - 36 * HOUR)]);

    let report = calculator.calculate(&[issue], &events);
    assert_eq!(report.response_sla_met, 1);
    assert_eq!(report.response_sla_breached, 0);
}

#[test]
fn test_sla_calculation_response_breached() {
    let calculator = SlaCalculator::new(default_sla_config());
    let issue = sla_issue(1, 72, None, vec![]);
    let mut events: HashMap<u64, Vec<IssueEvent>> = HashMap::new();
    events.insert(1, vec![comment_at(NOW - 24 * HOUR)]);

    let report = calculator.calculate(&[issue], &events);
    assert_eq!(report.response_sla_met, 0);
    assert_eq!(report.response_sla_breached, 1);
    assert_eq!(report.violations.len(), 1);
    assert_eq!(report.violations[0].violation_type, ViolationType::Response);
    assert_eq!(report.violations[0].actual_hours, 48);
    assert_eq!(report.violations[0].exceeded_by_hours, 24);
}

#[test]
fn test_sla_calculation_resolution_met() {
    let calculator = SlaCalculator::new(default_sla_config());
    let issue = sla_issue(1, 100, Some(4), vec![]);
    let events: HashMap<u64, Vec<IssueEvent>> = HashMap::new();

    let report = calculator.calculate(&[issue], &events);
    assert_eq!(report.resolution_sla_met, 1);
    assert_eq!(report.resolution_sla_breached, 0);
}

#[test]
fn test_sla_calculation_resolution_breached() {
    let calculator = SlaCalculator::new(default_sla_config());
    let issue = sla_issue(1, 200, Some(4), vec![]);
    let events: HashMap<u64, Vec<IssueEvent>> = HashMap::new();

    let report = calculator.calculate(&[issue], &events);
    assert_eq!(report.resolution_sla_met, 0);
    assert_eq!(report.resolution_sla_breached, 1);
    assert_eq!(report.violations.len(), 1);
    assert_eq!(report.violations[0].violation_type, ViolationType::Resolution);
}

#[test]
fn test_sla_with_priority_labels() {
    let config = SlaConfig {
        response_time_hours: 24,
        resolution_time_hours: 168,
        priority: vec![("critical".to_string(), SlaPriority { response_time_hours: 4, resolution_time_hours: 24 })],
    };
    let calculator = SlaCalculator::new(config);
    let critical_label = Label { id: 1, name: "critical".to_string(), color: "ff0000".to_string(), description: None };
    let issue = sla_issue(1, 30, Some(5), vec![critical_label]);
    let events: HashMap<u64, Vec<IssueEvent>> = HashMap::new();

    let report = calculator.calculate(&[issue], &events);
    assert_eq!(report.resolution_sla_breached, 1);
    assert!(report.violations.iter().any(|v| v.sla_hours == 24));
}

#[test]
fn test_sla_compliance_percentage() {
    let calculator = SlaCalculator::new(default_sla_config());
    let issues = vec![
        sla_issue(1, 100, Some(4), vec![]),
        sla_issue(2, 120, Some(10), vec![]),
        sla_issue(3, 200, Some(5), vec![]),
    ];
    let events: HashMap<u64, Vec<IssueEvent>> = HashMap::new();

    let report = calculator.calculate(&issues, &events);
    assert_eq!(report.resolution_sla_met, 2);
    assert_eq!(report.resolution_sla_breached, 1);
    let percent = report.resolution_sla_met as f64 * 100.0
        / (report.resolution_sla_met + report.resolution_sla_breached) as f64;
    assert!((percent - 66.67).abs() < 0.1);
}

fn velocity_issue(created_days_ago: i64, closed_days_ago: Option<i64>) -> Issue {
    let created = NOW - created_days_ago * DAY;
    Issue {
        id: 1,
        number: 1,
        title: "Test".to_string(),
        body: None,
        state: if closed_days_ago.is_some() { IssueState::Closed } else { IssueState::Open },
        labels: vec![],
        assignees: vec![],
        milestone: None,
        author: User::unknown(),
        comments_count: 0,
        created_at: created,
        updated_at: created,
        closed_at: closed_days_ago.map(|d| NOW - d * DAY),
        closed_by: None,
    }
}

#[test]
fn test_velocity_calculation() {
    let issues = vec![velocity_issue(5, None), velocity_issue(10, Some(3)), velocity_issue(15, Some(12))];

    let velocity = VelocityCalculator::calculate_at(&issues, Period::Week, 4, NOW);

    assert_eq!(velocity.period, Period::Week);
    assert_eq!(velocity.data_points.len(), 4);
    // Newest period last: opened 1 (5 days ago), closed 1 (3 days ago)
    let last = velocity.data_points[3];
    assert_eq!((last.opened, last.closed, last.net_change, last.cumulative_open), (1, 1, 0, 1));
    let prev = velocity.data_points[2];
    assert_eq!((prev.opened, prev.closed, prev.cumulative_open), (1, 1, 1));
    let older = velocity.data_points[1];
    assert_eq!((older.opened, older.closed, older.cumulative_open), (1, 0, 1));
    assert_eq!(velocity.data_points[0].cumulative_open, 0);
    // Law: the periods tile time, oldest first
    for k in 0..3 {
        assert_eq!(velocity.data_points[k].period_end, velocity.data_points[k + 1].period_start);
        assert_eq!(velocity.data_points[k].period_end - velocity.data_points[k].period_start, 7 * DAY);
    }
    assert_eq!(velocity.data_points[3].period_end, NOW);
}

#[test]
fn velocity_with_the_clock() {
    let issues = vec![velocity_issue(5, None)];
    let velocity = VelocityCalculator::calculate(&issues, Period::Day, 3).unwrap().unwrap();
    assert_eq!(velocity.data_points.len(), 3);
}

#[test]
fn test_trend_stable() {
    let point = VelocityDataPoint { period_start: NOW, period_end: NOW, opened: 5, closed: 5, net_change: 0, cumulative_open: 10 };
    let data_points = vec![point; 8];

    let trend = VelocityCalculator::calculate_trend(&data_points);
    assert_eq!(trend, Trend::Stable);
}

#[test]
fn trend_compares_halves_with_a_margin() {
    let mk = |net: i64| VelocityDataPoint { period_start: 0, period_end: 0, opened: 0, closed: 0, net_change: net, cumulative_open: 0 };
    assert_eq!(VelocityCalculator::calculate_trend(&[mk(0), mk(0), mk(3), mk(3)]), Trend::Increasing);
    assert_eq!(VelocityCalculator::calculate_trend(&[mk(3), mk(3), mk(0), mk(0)]), Trend::Decreasing);
    assert_eq!(VelocityCalculator::calculate_trend(&[mk(0), mk(0), mk(3), mk(2)]), Trend::Stable);
    assert_eq!(VelocityCalculator::calculate_trend(&[mk(0), mk(100), mk(0)]), Trend::Stable);
}

#[test]
fn period_parse_and_labels() {
    assert_eq!(Period::parse("Weekly").unwrap(), Period::Week);
    assert_eq!("day".parse::<Period>().unwrap(), Period::Day);
    assert_eq!(Period::parse("MONTH").unwrap(), Period::Month);
    match Period::parse("yearly") {
        Err(greport::error::Error::Custom(m)) => assert_eq!(m, "Invalid period: yearly"),
        other => panic!("unexpected {:?}", other),
    }
    assert_eq!(Period::Month.duration(), 30 * DAY);
    assert_eq!(Period::Week.label(), "week");
    assert_eq!(Trend::Decreasing.label(), "decreasing");
}

#[test]
fn sla_violations_count_every_breach() {
    // Law: one violation per breached target
    let calculator = SlaCalculator::new(default_sla_config());
    let issue = sla_issue(9, 400, Some(10), vec![]);
    let mut events: HashMap<u64, Vec<IssueEvent>> = HashMap::new();
    events.insert(9, vec![comment_at(NOW - 300 * HOUR), comment_at(NOW - 350 * HOUR)]);
    let report = calculator.calculate(&[issue, sla_issue(10, 5, None, vec![])], &events);
    assert_eq!(report.response_sla_breached, 1);
    assert_eq!(report.resolution_sla_breached, 1);
    assert_eq!(report.violations.len(), report.response_sla_breached + report.resolution_sla_breached);
    // The first comment counts: 50 hours after creation
    assert_eq!(report.violations[0].actual_hours, 50);
    assert_eq!(report.violations[1].violation_type, ViolationType::Resolution);
    assert_eq!(report.violations[1].actual_hours, 390);
    assert_eq!(report.violations[1].exceeded_by_hours, 222);
}
