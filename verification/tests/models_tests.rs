use greport::models::{
    Issue, IssueState, Label, Milestone, MilestoneState, PrSize, PullRequest, PullState, Release, Review, User,
};

const NOW: i64 = 1_770_000_000;
const DAY: i64 = 86400;

fn issue(state: IssueState, created_days_ago: i64) -> Issue {
    Issue {
        id: 1,
        number: 1,
        title: "Test issue".to_string(),
        body: None,
        state,
        labels: vec![],
        assignees: vec![],
        milestone: None,
        author: User::unknown(),
        comments_count: 0,
        created_at: NOW - created_days_ago * DAY,
        updated_at: NOW - created_days_ago * DAY,
        closed_at: None,
        closed_by: None,
    }
}

#[test]
fn test_issue_age() {
    let issue = issue(IssueState::Open, 5);
    assert_eq!(issue.age_days_at(NOW), 5);
}

#[test]
fn issue_age_with_the_clock_and_when_closed() {
    let mut i = issue(IssueState::Closed, 10);
    i.closed_at = Some(i.created_at + 3 * DAY + 100);
    assert_eq!(i.age_days(), Ok(3));
    assert_eq!(i.time_to_close_hours(), Some(72));
    assert_eq!(i.time_to_close_days(), Some(3));
}

#[test]
fn test_issue_is_stale() {
    let mut i = issue(IssueState::Open, 35);
    i.updated_at = NOW - 35 * DAY;
    assert!(i.is_stale_at(30, NOW));
    let mut j = i.clone();
    j.updated_at = chrono::Utc::now().timestamp() - 35 * DAY;
    assert_eq!(j.is_stale(30), Ok(Some(true)));

    let fresh_issue = issue(IssueState::Open, 5);
    assert!(!fresh_issue.is_stale_at(30, NOW));
}

#[test]
fn test_issue_has_label() {
    let mut i = issue(IssueState::Open, 1);
    i.labels.push(Label { id: 1, name: "bug".to_string(), color: "ff0000".to_string(), description: None });

    assert!(i.has_label("bug"));
    assert!(i.has_label("BUG"));
    assert!(!i.has_label("feature"));
    assert_eq!(i.label_names(), vec!["bug"]);
    assert!(!i.is_assigned());
}

#[test]
fn milestone_overdue() {
    let m = Milestone {
        id: 1,
        number: 1,
        title: "v1".into(),
        description: None,
        state: MilestoneState::Open,
        open_issues: 1,
        closed_issues: 1,
        due_on: Some(NOW - DAY),
        created_at: NOW - 10 * DAY,
        closed_at: None,
    };
    assert!(m.is_overdue_at(NOW));
    assert!(!m.is_overdue_at(NOW - 2 * DAY));
    let closed = Milestone { state: MilestoneState::Closed, ..m };
    assert!(!closed.is_overdue_at(NOW));
}

fn pr() -> PullRequest {
    PullRequest {
        id: 1,
        number: 1,
        title: "Test PR".to_string(),
        body: None,
        state: PullState::Open,
        draft: false,
        author: User::unknown(),
        labels: vec![],
        milestone: None,
        head_ref: "feature".to_string(),
        base_ref: "main".to_string(),
        merged: false,
        merged_at: None,
        additions: 100,
        deletions: 50,
        changed_files: 5,
        created_at: NOW,
        updated_at: NOW,
        closed_at: None,
    }
}

#[test]
fn test_lines_changed() {
    assert_eq!(pr().lines_changed(), 150);
}

#[test]
fn test_size_category() {
    let mut pr = pr();

    pr.additions = 5;
    pr.deletions = 3;
    assert_eq!(pr.size_category(), PrSize::XSmall);

    pr.additions = 30;
    pr.deletions = 10;
    assert_eq!(pr.size_category(), PrSize::Small);

    pr.additions = 100;
    pr.deletions = 50;
    assert_eq!(pr.size_category(), PrSize::Medium);

    pr.additions = 300;
    pr.deletions = 100;
    assert_eq!(pr.size_category(), PrSize::Large);

    pr.additions = 1000;
    pr.deletions = 500;
    assert_eq!(pr.size_category(), PrSize::XLarge);
}

#[test]
fn size_boundaries_and_labels() {
    // Law: a larger change never gets a smaller category
    let mut p = pr();
    let order = [PrSize::XSmall, PrSize::Small, PrSize::Medium, PrSize::Large, PrSize::XLarge];
    let mut last = 0;
    for lines in [0u32, 10, 11, 50, 51, 200, 201, 500, 501, 10_000] {
        p.additions = lines;
        p.deletions = 0;
        let rank = order.iter().position(|s| *s == p.size_category()).unwrap();
        assert!(rank >= last);
        last = rank;
    }
    assert_eq!(PrSize::XLarge.label(), "XL");
    assert_eq!(PrSize::XSmall.label(), "XS");
}

#[test]
fn pull_request_merge_time_and_review_state() {
    let mut p = pr();
    p.merged = true;
    p.merged_at = Some(NOW + 5 * 3600 + 59);
    assert_eq!(p.time_to_merge_hours(), Some(5));
    assert!(p.is_ready_for_review());
    p.draft = true;
    assert!(!p.is_ready_for_review());
    let review = Review {
        id: 1,
        user: Some(User::unknown()),
        state: "APPROVED".into(),
        submitted_at: Some(NOW),
        body: None,
    };
    assert!(review.is_approved());
    assert!(!review.changes_requested());
}

#[test]
fn release_names_and_stability() {
    let r = Release {
        id: 1,
        tag_name: "v1.0.0".into(),
        name: None,
        body: None,
        draft: false,
        prerelease: false,
        author: User::unknown(),
        created_at: NOW,
        published_at: Some(NOW),
    };
    assert_eq!(r.display_name(), "v1.0.0");
    assert!(r.is_published());
    assert!(r.is_stable());
    let named = Release { name: Some("First".into()), prerelease: true, ..r };
    assert_eq!(named.display_name(), "First");
    assert!(!named.is_stable());
}

#[test]
fn unknown_user() {
    let u = User::unknown();
    assert_eq!(u.id, 0);
    assert_eq!(u.login, "unknown");
}

#[test]
fn milestone_overdue_with_the_clock() {
    let mut m = Milestone {
        id: 1,
        number: 1,
        title: "v1".to_string(),
        description: None,
        state: MilestoneState::Open,
        open_issues: 1,
        closed_issues: 0,
        due_on: Some(NOW - DAY),
        created_at: NOW - 30 * DAY,
        closed_at: None,
    };
    assert_eq!(m.is_overdue(), Ok(true));
    m.due_on = Some(chrono::Utc::now().timestamp() + 30 * DAY);
    assert_eq!(m.is_overdue(), Ok(false));
    m.due_on = Some(NOW - DAY);
    m.state = MilestoneState::Closed;
    assert_eq!(m.is_overdue(), Ok(false));
}

#[test]
fn stale_check_reports_an_unrepresentable_threshold() {
    let i = issue(IssueState::Open, 5);
    assert_eq!(i.is_stale(200_000_000), Ok(None));
    assert_eq!(i.is_stale(96_465_293).map(|r| r.is_some()), Ok(true));
}
