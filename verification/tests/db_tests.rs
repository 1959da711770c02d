use greport::db::models::SyncStatusRow;
use greport::db::queries::{list_issues_query, list_project_items_query, list_pull_requests_query, needs_refresh_at, needs_refresh_now, stats_from_counts};

const NOW: i64 = 1_770_000_000;

#[test]
fn list_issues_query_text() {
    assert_eq!(list_issues_query(None, None, None), "SELECT * FROM issues WHERE repository_id = $1 ORDER BY created_at DESC");
    assert_eq!(
        list_issues_query(Some("open"), Some(3), Some(50)),
        "SELECT * FROM issues WHERE repository_id = $1 AND state = $2 AND milestone_id = $3 ORDER BY created_at DESC LIMIT 50"
    );
    assert_eq!(
        list_issues_query(None, Some(3), Some(-1)),
        "SELECT * FROM issues WHERE repository_id = $1 AND milestone_id = $2 ORDER BY created_at DESC LIMIT -1"
    );
}

#[test]
fn list_pull_requests_query_text() {
    assert_eq!(
        list_pull_requests_query(Some("closed"), None),
        "SELECT * FROM pull_requests WHERE repository_id = $1 AND state = $2 ORDER BY created_at DESC"
    );
    assert_eq!(list_pull_requests_query(None, Some(10)), "SELECT * FROM pull_requests WHERE repository_id = $1 ORDER BY created_at DESC LIMIT 10");
}

#[test]
fn repository_stats_from_grouped_counts() {
    let issues = vec![("open".to_string(), 4), ("closed".to_string(), 9), ("weird".to_string(), 1)];
    let prs = vec![("closed".to_string(), 3)];
    let s = stats_from_counts(&issues, &prs, 2, 5);
    assert_eq!((s.open_issues, s.closed_issues, s.open_prs, s.merged_prs, s.closed_prs, s.releases), (4, 9, 0, 2, 3, 5));
}

fn status(issues: Option<i64>) -> SyncStatusRow {
    SyncStatusRow {
        repository_id: 1,
        issues_synced_at: issues,
        pulls_synced_at: None,
        releases_synced_at: None,
        milestones_synced_at: None,
        last_error: None,
        last_error_at: None,
    }
}

#[test]
fn refresh_decisions() {
    assert!(needs_refresh_at(None, "issues", 60, NOW));
    let s = status(Some(NOW - 30));
    assert!(!needs_refresh_at(Some(&s), "issues", 60, NOW));
    assert!(needs_refresh_at(Some(&s), "issues", 29, NOW));
    assert!(!needs_refresh_at(Some(&s), "issues", 30, NOW));
    assert!(needs_refresh_at(Some(&s), "pulls", 60, NOW));
    assert!(needs_refresh_at(Some(&s), "other", 60, NOW));
    let recent = status(Some(chrono::Utc::now().timestamp()));
    assert!(!needs_refresh_now(Some(&recent), "issues", 3600).unwrap());
}

#[test]
fn list_project_items_query_text() {
    assert_eq!(
        list_project_items_query(None, Some("OPEN"), Some(20), Some(40)),
        "SELECT * FROM project_items WHERE project_id = $1 AND content_state = $2 ORDER BY updated_at DESC LIMIT 20 OFFSET 40"
    );
    assert_eq!(
        list_project_items_query(Some("Issue"), Some("OPEN"), None, None),
        "SELECT * FROM project_items WHERE project_id = $1 AND content_type = $2 AND content_state = $3 ORDER BY updated_at DESC"
    );
}
