use greport::models::{Issue, IssueState, Label, Milestone, MilestoneState, PullRequest, PullState, User};
use greport::reports::burndown::{BurndownCalculator, BurndownDataPoint};
use greport::reports::release_notes::{ReleaseNotesConfig, ReleaseNotesGenerator};

const NOW: i64 = 1_770_000_000;
const DAY: i64 = 86400;

fn test_user(login: &str) -> User {
    User { id: 1, login: login.to_string(), avatar_url: String::new(), html_url: String::new() }
}

fn milestone(days_old: i64, due_in_days: Option<i64>) -> Milestone {
    Milestone {
        id: 1,
        number: 1,
        title: "v1.0".to_string(),
        description: Some("Test milestone".to_string()),
        state: MilestoneState::Open,
        open_issues: 5,
        closed_issues: 3,
        due_on: due_in_days.map(|d| NOW + d * DAY),
        created_at: NOW - days_old * DAY,
        closed_at: None,
    }
}

fn ms_issue(number: u64, milestone_id: Option<i64>, days_old: i64, closed_days_ago: Option<i64>) -> Issue {
    let milestone = milestone_id.map(|id| Milestone {
        id,
        number: 1,
        title: "v1.0".to_string(),
        description: None,
        state: MilestoneState::Open,
        open_issues: 0,
        closed_issues: 0,
        due_on: None,
        created_at: NOW - 14 * DAY,
        closed_at: None,
    });
    Issue {
        id: number as i64,
        number,
        title: format!("Issue #{}", number),
        body: None,
        state: if closed_days_ago.is_some() { IssueState::Closed } else { IssueState::Open },
        labels: vec![],
        assignees: vec![],
        milestone,
        author: test_user("test"),
        comments_count: 0,
        created_at: NOW - days_old * DAY,
        updated_at: NOW,
        closed_at: closed_days_ago.map(|d| NOW - d * DAY),
        closed_by: None,
    }
}

#[test]
fn test_burndown_basic() {
    let milestone = milestone(14, Some(14));
    let issues = vec![
        ms_issue(1, Some(1), 14, Some(7)),
        ms_issue(2, Some(1), 14, Some(3)),
        ms_issue(3, Some(1), 14, None),
        ms_issue(4, Some(1), 14, None),
    ];

    let report = BurndownCalculator::calculate_at(&issues, &milestone, NOW);

    assert_eq!(report.milestone, "v1.0");
    assert_eq!(report.total_issues, 4);
    assert!(!report.data_points.is_empty());
    assert_eq!(report.data_points.first().unwrap().remaining, 4);
    assert_eq!(report.data_points.last().unwrap().remaining, 2);
    assert_eq!(report.data_points.len(), 15);
    // Law: completed work never decreases; remaining + completed is the total
    for w in report.data_points.windows(2) {
        assert!(w[0].completed <= w[1].completed);
    }
    for p in &report.data_points {
        assert_eq!(p.remaining + p.completed, 4);
    }
}

#[test]
fn test_burndown_with_due_date_generates_ideal_line() {
    let milestone = milestone(14, Some(14));
    let issues = vec![ms_issue(1, Some(1), 14, None), ms_issue(2, Some(1), 14, None)];

    let report = BurndownCalculator::calculate_at(&issues, &milestone, NOW);

    assert!(!report.ideal_burndown.is_empty());
    assert_eq!(report.ideal_burndown.first().unwrap().remaining, 2);
    assert_eq!(report.ideal_burndown.last().unwrap().remaining, 0);
    assert_eq!(report.ideal_burndown.len(), 29);
    assert_eq!(report.ideal_burndown[14].remaining, 1);
    // Law: the ideal line never rises
    for w in report.ideal_burndown.windows(2) {
        assert!(w[1].remaining <= w[0].remaining);
    }
}

#[test]
fn test_burndown_without_due_date() {
    let milestone = milestone(7, None);
    let issues = vec![ms_issue(1, Some(1), 7, None), ms_issue(2, Some(1), 7, None)];

    let report = BurndownCalculator::calculate_at(&issues, &milestone, NOW);

    assert!(report.ideal_burndown.is_empty());
    assert!(report.end_date.is_none());
}

#[test]
fn burndown_with_the_clock() {
    let now = chrono::Utc::now().timestamp();
    let mut milestone = milestone(7, None);
    milestone.created_at = now - 7 * DAY;
    let issues = vec![ms_issue(1, Some(1), 7, None)];
    let report = BurndownCalculator::calculate(&issues, &milestone).unwrap().unwrap();
    assert_eq!(report.total_issues, 1);
    assert!(report.data_points.len() >= 8);
}

#[test]
fn test_burndown_filters_by_milestone() {
    let milestone = milestone(7, Some(7));
    let issues = vec![
        ms_issue(1, Some(1), 7, None),
        ms_issue(2, Some(1), 7, None),
        ms_issue(3, Some(2), 7, None),
        ms_issue(4, None, 7, None),
    ];

    let report = BurndownCalculator::calculate_at(&issues, &milestone, NOW);
    assert_eq!(report.total_issues, 2);
}

#[test]
fn test_burnup_report() {
    let milestone = milestone(14, Some(14));
    let issues = vec![
        ms_issue(1, Some(1), 14, Some(7)),
        ms_issue(2, Some(1), 10, Some(3)),
        ms_issue(3, Some(1), 7, None),
    ];

    let report = BurndownCalculator::calculate_burnup_at(&issues, &milestone, NOW);

    assert_eq!(report.milestone, "v1.0");
    assert!(!report.scope_data.is_empty());
    assert!(!report.completed_data.is_empty());

    let first_scope = report.scope_data.first().unwrap().total_scope;
    let last_scope = report.scope_data.last().unwrap().total_scope;
    assert!(last_scope >= first_scope);
    assert_eq!((first_scope, last_scope), (1, 3));
    // Law: scope and completed work never decrease
    for w in report.scope_data.windows(2) {
        assert!(w[0].total_scope <= w[1].total_scope);
    }
    for w in report.completed_data.windows(2) {
        assert!(w[0].completed <= w[1].completed);
    }
}

#[test]
fn burnup_refuses_work_closed_before_it_was_created() {
    let now = chrono::Utc::now().timestamp();
    let mut milestone = milestone(3, None);
    milestone.created_at = now - 3 * DAY;
    let mut odd = ms_issue(1, Some(1), 1, None);
    odd.created_at = now - DAY;
    odd.closed_at = Some(now - 2 * DAY);
    assert!(BurndownCalculator::calculate_burnup(&[odd], &milestone).unwrap().is_none());
}

#[test]
fn test_project_completion_calculation() {
    let data_points: Vec<BurndownDataPoint> = (0..10)
        .map(|day| BurndownDataPoint { date: NOW - (9 - day) * DAY, remaining: (10 - day) as usize, completed: day as usize })
        .collect();

    let projected = BurndownCalculator::project_completion(&data_points, 10);
    assert!(projected.is_some());
    assert!(projected.unwrap() >= NOW - DAY);
    // One issue a day over the last seven points, one remaining: one more day
    assert_eq!(projected, Some(NOW + DAY));
}

#[test]
fn test_project_completion_no_progress() {
    let data_points: Vec<BurndownDataPoint> = (0..5)
        .map(|day| BurndownDataPoint { date: NOW - (4 - day) * DAY, remaining: 10, completed: 0 })
        .collect();

    let projected = BurndownCalculator::project_completion(&data_points, 10);
    assert!(projected.is_none());
}

#[test]
fn project_completion_rounds_up_and_handles_done() {
    let p = |d: i64, r: usize, c: usize| BurndownDataPoint { date: NOW + d * DAY, remaining: r, completed: c };
    // Two done over three days, five remaining: 7.5 days, rounded up to 8
    assert_eq!(BurndownCalculator::project_completion(&[p(0, 7, 0), p(3, 5, 2)], 7), Some(NOW + 11 * DAY));
    // Nothing remaining: the last date
    assert_eq!(BurndownCalculator::project_completion(&[p(0, 2, 0), p(2, 0, 2)], 2), Some(NOW + 2 * DAY));
    assert_eq!(BurndownCalculator::project_completion(&[p(0, 2, 0)], 2), None);
}

fn label(name: &str) -> Label {
    Label { id: 1, name: name.to_string(), color: "ff0000".to_string(), description: None }
}

fn rn_issue(number: u64, title: &str, author: &str, labels: Vec<Label>) -> Issue {
    Issue {
        id: number as i64,
        number,
        title: title.to_string(),
        body: None,
        state: IssueState::Closed,
        labels,
        assignees: vec![],
        milestone: None,
        author: test_user(author),
        comments_count: 0,
        created_at: NOW,
        updated_at: NOW,
        closed_at: Some(NOW),
        closed_by: None,
    }
}

fn rn_pr(number: u64, author: &str) -> PullRequest {
    PullRequest {
        id: number as i64,
        number,
        title: format!("PR #{}", number),
        body: None,
        state: PullState::Closed,
        draft: false,
        author: test_user(author),
        labels: vec![],
        milestone: None,
        head_ref: "feature".to_string(),
        base_ref: "main".to_string(),
        merged: true,
        merged_at: Some(NOW),
        additions: 10,
        deletions: 5,
        changed_files: 1,
        created_at: NOW,
        updated_at: NOW,
        closed_at: Some(NOW),
    }
}

fn titles(notes: &greport::reports::ReleaseNotes) -> Vec<&str> {
    notes.sections.iter().map(|s| s.title.as_str()).collect()
}

#[test]
fn test_release_notes_basic_generation() {
    let generator = ReleaseNotesGenerator::with_defaults();
    let issues = vec![
        rn_issue(1, "Fix login bug", "alice", vec![label("bug")]),
        rn_issue(2, "Add dark mode", "bob", vec![label("feature")]),
    ];
    let prs = vec![rn_pr(10, "charlie")];

    let notes = generator.generate("v1.0.0", &issues, &prs).unwrap();

    assert_eq!(notes.version, "v1.0.0");
    assert_eq!(notes.stats.issues_closed, 2);
    assert_eq!(notes.stats.prs_merged, 1);
    assert_eq!(notes.stats.contributors_count, 3);
    assert_eq!(notes.summary, "This release includes 2 issues closed and 1 pull requests merged.");
    assert_eq!(notes.date.len(), 10);
}

#[test]
fn release_notes_carry_todays_date() {
    let generator = ReleaseNotesGenerator::with_defaults();
    let before = chrono::Utc::now().format("%Y-%m-%d").to_string();
    let notes = generator.generate("v1", &[], &[]).unwrap();
    let after = chrono::Utc::now().format("%Y-%m-%d").to_string();
    assert!(notes.date == before || notes.date == after);
}

#[test]
fn test_release_notes_categorization() {
    let generator = ReleaseNotesGenerator::with_defaults();
    let issues = vec![
        rn_issue(1, "Fix critical bug", "alice", vec![label("bug")]),
        rn_issue(2, "Add new feature", "bob", vec![label("enhancement")]),
        rn_issue(3, "Security fix", "charlie", vec![label("security")]),
        rn_issue(4, "Uncategorized item", "dave", vec![]),
    ];

    let notes = generator.generate("v1.0.0", &issues, &[]).unwrap();
    let section_titles = titles(&notes);
    assert!(section_titles.contains(&"Bug Fixes"));
    assert!(section_titles.contains(&"Enhancements"));
    assert!(section_titles.contains(&"Security"));
    assert!(section_titles.contains(&"Other"));
}

#[test]
fn test_release_notes_section_ordering() {
    let generator = ReleaseNotesGenerator::with_defaults();
    let issues = vec![
        rn_issue(1, "Bug fix", "alice", vec![label("bug")]),
        rn_issue(2, "Security fix", "bob", vec![label("security")]),
        rn_issue(3, "Breaking change", "charlie", vec![label("breaking")]),
    ];

    let notes = generator.generate("v1.0.0", &issues, &[]).unwrap();
    let section_titles = titles(&notes);

    let breaking_idx = section_titles.iter().position(|t| *t == "Breaking Changes");
    let security_idx = section_titles.iter().position(|t| *t == "Security");
    let bug_idx = section_titles.iter().position(|t| *t == "Bug Fixes");

    assert!(breaking_idx.is_some());
    assert!(security_idx.is_some());
    assert!(bug_idx.is_some());
    assert!(breaking_idx < security_idx);
    assert!(security_idx < bug_idx);
}

#[test]
fn test_release_notes_contributors() {
    let generator = ReleaseNotesGenerator::with_defaults();
    let issues = vec![
        rn_issue(1, "Issue 1", "alice", vec![]),
        rn_issue(2, "Issue 2", "bob", vec![]),
        rn_issue(3, "Issue 3", "alice", vec![]),
    ];
    let prs = vec![rn_pr(10, "charlie"), rn_pr(11, "alice")];

    let notes = generator.generate("v1.0.0", &issues, &prs).unwrap();

    assert_eq!(notes.contributors.len(), 3);
    assert!(notes.contributors.contains(&"alice".to_string()));
    assert!(notes.contributors.contains(&"bob".to_string()));
    assert!(notes.contributors.contains(&"charlie".to_string()));
    // Law: each author once, in string order
    assert_eq!(notes.contributors, vec!["alice", "bob", "charlie"]);
}

#[test]
fn test_release_notes_to_markdown() {
    let generator = ReleaseNotesGenerator::with_defaults();
    let issues = vec![rn_issue(1, "Fix login bug", "alice", vec![label("bug")])];

    let notes = generator.generate("v1.0.0", &issues, &[]).unwrap();
    let markdown = generator.to_markdown(&notes);

    assert!(markdown.contains("# v1.0.0"));
    assert!(markdown.contains("## Bug Fixes"));
    assert!(markdown.contains("Fix login bug"));
    assert!(markdown.contains("#1"));
    assert!(markdown.contains("@alice"));
    assert!(markdown.contains("## Contributors"));
}

#[test]
fn release_notes_markdown_exact_text() {
    let generator = ReleaseNotesGenerator::with_defaults();
    let issues = vec![rn_issue(7, "Fix login bug", "alice", vec![label("bug")])];
    let notes = generator.generate_on("v2", &issues, &[rn_pr(3, "bob")], "2026-02-01".to_string());
    let expected = "# v2 (2026-02-01)\n\nThis release includes 1 issues closed and 1 pull requests merged.\n\n## Bug Fixes\n\n- Fix login bug (#7) @alice\n\n## Contributors\n\n- @alice\n- @bob\n";
    assert_eq!(generator.to_markdown(&notes), expected);
}

#[test]
fn test_release_notes_empty_input() {
    let generator = ReleaseNotesGenerator::with_defaults();
    let notes = generator.generate("v1.0.0", &[], &[]).unwrap();

    assert_eq!(notes.stats.issues_closed, 0);
    assert_eq!(notes.stats.prs_merged, 0);
    assert_eq!(notes.stats.contributors_count, 0);
    assert!(notes.sections.is_empty());
}

#[test]
fn test_release_notes_label_matching() {
    let generator = ReleaseNotesGenerator::with_defaults();
    let issues = vec![
        rn_issue(1, "Fix", "alice", vec![label("type:bug")]),
        rn_issue(2, "Doc", "bob", vec![label("documentation-update")]),
    ];

    let notes = generator.generate("v1.0.0", &issues, &[]).unwrap();
    let section_titles = titles(&notes);

    assert!(section_titles.contains(&"Bug Fixes"));
    assert!(section_titles.contains(&"Documentation"));
}

#[test]
fn test_custom_section_mappings() {
    let config = ReleaseNotesConfig { section_mappings: vec![("custom-bug".to_string(), "Bug Fixes".to_string())] };
    let generator = ReleaseNotesGenerator::new(config);

    let issues = vec![rn_issue(1, "Custom bug fix", "alice", vec![label("custom-bug")])];

    let notes = generator.generate("v1.0.0", &issues, &[]).unwrap();
    let section_titles = titles(&notes);

    assert!(section_titles.contains(&"Bug Fixes"));
    assert_eq!(notes.sections.iter().find(|s| s.title == "Bug Fixes").unwrap().items.len(), 1);
}

#[test]
fn every_issue_is_listed_once_with_default_sections() {
    // Law: with keywords that map to listed sections, each issue appears in exactly one section.
    let generator = ReleaseNotesGenerator::with_defaults();
    let issues = vec![
        rn_issue(1, "Crash", "alice", vec![label("bug"), label("security")]),
        rn_issue(2, "New API", "bob", vec![label("feature")]),
        rn_issue(3, "Docs", "carol", vec![label("docs")]),
        rn_issue(4, "Misc", "dave", vec![]),
        rn_issue(5, "Old flag", "erin", vec![label("deprecated"), label("bug")]),
        rn_issue(6, "Faster", "alice", vec![label("perf")]),
    ];
    let notes = generator.generate_on("v3", &issues, &[], "2026-03-01".to_string());
    let total: usize = notes.sections.iter().map(|s| s.items.len()).sum();
    assert_eq!(total, issues.len());
    let mut numbers: Vec<u64> = notes.sections.iter().flat_map(|s| s.items.iter().map(|i| i.number)).collect();
    numbers.sort();
    assert_eq!(numbers, vec![1, 2, 3, 4, 5, 6]);
}

#[test]
fn labels_named_after_default_keywords_fall_in_their_sections() {
    // Law: a label whose lowercase name is a default keyword lands in that keyword's section.
    let generator = ReleaseNotesGenerator::with_defaults();
    let expected = [
        ("bug", "Bug Fixes"),
        ("feature", "New Features"),
        ("enhancement", "Enhancements"),
        ("documentation", "Documentation"),
        ("docs", "Documentation"),
        ("breaking", "Breaking Changes"),
        ("security", "Security"),
        ("performance", "Performance"),
        ("perf", "Performance"),
        ("deprecation", "Deprecations"),
        ("deprecated", "Deprecations"),
    ];
    for (keyword, section) in expected {
        assert_eq!(generator.categorize(&[label(keyword)]), section);
        assert_eq!(generator.categorize(&[label(&keyword.to_uppercase())]), section);
    }
}

#[test]
fn custom_sections_outside_the_order_are_left_out() {
    let config = ReleaseNotesConfig { section_mappings: vec![("infra".to_string(), "Infrastructure".to_string())] };
    let generator = ReleaseNotesGenerator::new(config);
    let issues = vec![rn_issue(1, "CI", "alice", vec![label("infra")]), rn_issue(2, "Misc", "bob", vec![])];
    let notes = generator.generate("v1", &issues, &[]).unwrap();
    assert_eq!(titles(&notes), vec!["Other"]);
    assert_eq!(notes.sections[0].items[0].number, 2);
}

#[test]
fn test_categorize_returns_correct_section() {
    let generator = ReleaseNotesGenerator::with_defaults();

    let bug_labels = vec![label("bug")];
    assert_eq!(generator.categorize(&bug_labels), "Bug Fixes");

    let enhancement_labels = vec![label("enhancement")];
    assert_eq!(generator.categorize(&enhancement_labels), "Enhancements");

    let unknown_labels = vec![label("unknown")];
    assert_eq!(generator.categorize(&unknown_labels), "Other");

    let empty_labels: Vec<Label> = vec![];
    assert_eq!(generator.categorize(&empty_labels), "Other");
}

#[test]
fn categorize_takes_the_first_label_that_matches() {
    let generator = ReleaseNotesGenerator::default();
    assert_eq!(generator.categorize(&[label("question"), label("SECURITY"), label("bug")]), "Security");
    assert_eq!(generator.categorize(&[label("Performance")]), "Performance");
}
