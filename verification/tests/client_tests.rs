use greport::client::graphql::{
    check_http_status, classify_graphql_errors, convert_content, convert_field, convert_field_value,
    convert_item, convert_items, convert_project_detail, convert_project_summary, derive_graphql_url,
    finish_response, project_not_found, GqlField, GqlFieldValueNode, GqlItem, GqlItemContent, GqlIteration,
    GqlLabel, GqlProject, GqlProjectDetail, GqlSelectOption, GraphQLError, TotalCount,
};
use greport::client::params::{request_page_size, IssueParams, IssueSort, IssueStateFilter, PullParams, PullStateFilter, SortDirection};
use greport::client::registry::GitHubClientRegistry;
use greport::client::retry::{is_retryable_error, should_retry, ApiFailure};
use greport::client::RepoId;
use greport::config::{Config, GitHubConfig, OrgConfig};
use greport::error::Error;
use greport::models::{FieldValue, ProjectFieldType, ProjectItemContent};

#[test]
fn test_derive_graphql_url_github_com() {
    assert_eq!(derive_graphql_url(None), "https://api.github.com/graphql");
}

#[test]
fn test_derive_graphql_url_ghe_api_v3() {
    assert_eq!(derive_graphql_url(Some("https://ghe.corp.com/api/v3")), "https://ghe.corp.com/api/graphql");
}

#[test]
fn test_derive_graphql_url_ghe_api_v3_trailing_slash() {
    assert_eq!(derive_graphql_url(Some("https://ghe.corp.com/api/v3/")), "https://ghe.corp.com/api/graphql");
}

#[test]
fn test_derive_graphql_url_ghe_api() {
    assert_eq!(derive_graphql_url(Some("https://ghe.corp.com/api")), "https://ghe.corp.com/api/graphql");
}

#[test]
fn test_derive_graphql_url_bare_hostname() {
    assert_eq!(derive_graphql_url(Some("https://ghe.corp.com")), "https://ghe.corp.com/api/graphql");
}

#[test]
fn derive_graphql_url_many_slashes() {
    assert_eq!(derive_graphql_url(Some("https://h.io/api///")), "https://h.io/api/graphql");
    assert_eq!(derive_graphql_url(Some("")), "/api/graphql");
}

fn gql_project(id: &str, number: u64, title: &str, closed: bool, total: u32) -> GqlProject {
    GqlProject {
        id: id.to_string(),
        number,
        title: title.to_string(),
        short_description: None,
        url: format!("https://github.com/orgs/my-org/projects/{}", number),
        closed,
        created_at: 1_768_471_200,
        updated_at: 1_770_733_800,
        items: Some(TotalCount { total_count: total }),
    }
}

#[test]
fn test_parse_projects_response() {
    let project = convert_project_summary(gql_project("PVT_kwDOABC", 5, "Sprint Q1", false, 47), "my-org");
    assert_eq!(project.owner, "my-org");
    assert_eq!(project.total_items, 47);
    assert_eq!(project.node_id, "PVT_kwDOABC");
    assert_eq!(project.number, 5);
    assert!(!project.closed);
    assert!(project.fields.is_empty());
}

fn field(id: &str, name: &str, data_type: &str) -> GqlField {
    GqlField { id: Some(id.into()), name: Some(name.into()), data_type: Some(data_type.into()), options: None, configuration: None }
}

#[test]
fn test_parse_project_with_fields() {
    let mut status = field("PVTSSF_status", "Status", "SINGLE_SELECT");
    status.options = Some(
        ["Todo", "In Progress", "Done"]
            .iter()
            .enumerate()
            .map(|(i, n)| GqlSelectOption { id: format!("opt{}", i + 1), name: n.to_string(), color: None, description: None })
            .collect(),
    );
    let mut sprint = field("PVTIF_sprint", "Sprint", "ITERATION");
    sprint.configuration = Some(vec![
        GqlIteration { id: "it1".into(), title: "Sprint 1".into(), start_date: "2026-01-06".into(), duration: 14 },
        GqlIteration { id: "it2".into(), title: "Sprint 2".into(), start_date: "2026-01-20".into(), duration: 14 },
    ]);
    let detail = GqlProjectDetail {
        id: "PVT_kwDOABC".into(),
        number: 5,
        title: "Sprint Q1".into(),
        short_description: None,
        url: "u".into(),
        closed: false,
        created_at: 0,
        updated_at: 0,
        items: Some(TotalCount { total_count: 47 }),
        fields: Some(vec![field("PVTF_title", "Title", "TITLE"), status, sprint, field("PVTF_pts", "Story Points", "NUMBER")]),
    };
    let project = convert_project_detail(detail, "my-org");
    let fields = &project.fields;
    assert_eq!(fields.len(), 4);
    assert_eq!(fields[0].name, "Title");
    assert!(matches!(fields[0].field_type, ProjectFieldType::BuiltIn));
    assert_eq!(fields[1].name, "Status");
    match &fields[1].field_type {
        ProjectFieldType::SingleSelect { options } => {
            assert_eq!(options.len(), 3);
            assert_eq!(options[0].name, "Todo");
            assert_eq!(options[1].name, "In Progress");
            assert_eq!(options[2].name, "Done");
        }
        other => panic!("Expected SingleSelect, got {:?}", other),
    }
    assert_eq!(fields[2].name, "Sprint");
    match &fields[2].field_type {
        ProjectFieldType::Iteration { iterations } => {
            assert_eq!(iterations.len(), 2);
            assert_eq!(iterations[0].title, "Sprint 1");
            assert_eq!(iterations[0].duration, 14);
            assert_eq!(iterations[1].title, "Sprint 2");
        }
        other => panic!("Expected Iteration, got {:?}", other),
    }
    assert_eq!(fields[3].name, "Story Points");
    assert!(matches!(fields[3].field_type, ProjectFieldType::Number));
}

fn empty_value() -> GqlFieldValueNode {
    GqlFieldValueNode {
        text: None,
        number: None,
        date: None,
        name: None,
        option_id: None,
        title: None,
        start_date: None,
        duration: None,
        iteration_id: None,
        field: None,
    }
}

fn empty_content() -> GqlItemContent {
    GqlItemContent {
        number: None,
        title: None,
        state: None,
        url: None,
        repository: None,
        assignees: None,
        labels: None,
        merged: None,
        author: None,
        body: None,
    }
}

#[test]
fn test_parse_project_items() {
    let issue = GqlItem {
        id: "PVTI_issue".into(),
        created_at: 1,
        updated_at: 2,
        content: Some(GqlItemContent {
            number: Some(42),
            title: Some("Implement auth".into()),
            state: Some("OPEN".into()),
            url: Some("https://github.com/my-org/repo/issues/42".into()),
            repository: Some("my-org/repo".into()),
            assignees: Some(vec![Some("alice".into()), Some("bob".into())]),
            labels: Some(vec![GqlLabel { name: "feature".into(), color: "0e8a16".into() }]),
            ..empty_content()
        }),
        field_values: Some(vec![
            GqlFieldValueNode { name: Some("In Progress".into()), option_id: Some("opt2".into()), field: Some(Some("Status".into())), ..empty_value() },
            GqlFieldValueNode { number: Some(5.0f64.to_bits()), field: Some(Some("Story Points".into())), ..empty_value() },
        ]),
    };
    let pr = GqlItem {
        id: "PVTI_pr".into(),
        created_at: 1,
        updated_at: 2,
        content: Some(GqlItemContent {
            number: Some(100),
            title: Some("Fix login bug".into()),
            state: Some("MERGED".into()),
            url: Some("u".into()),
            merged: Some(true),
            repository: Some("my-org/repo".into()),
            author: Some(Some("charlie".into())),
            ..empty_content()
        }),
        field_values: Some(vec![GqlFieldValueNode { name: Some("Done".into()), option_id: Some("opt3".into()), field: Some(Some("Status".into())), ..empty_value() }]),
    };
    let draft = GqlItem {
        id: "PVTI_draft".into(),
        created_at: 1,
        updated_at: 1,
        content: Some(GqlItemContent {
            title: Some("Research caching".into()),
            body: Some("Investigate Redis vs Memcached".into()),
            assignees: Some(vec![Some("alice".into())]),
            ..empty_content()
        }),
        field_values: Some(vec![]),
    };
    let redacted = GqlItem { id: "PVTI_x".into(), created_at: 1, updated_at: 1, content: Some(empty_content()), field_values: None };

    let items = convert_items(vec![issue, pr, redacted, draft]);
    assert_eq!(items.len(), 3);
    match &items[0].content {
        ProjectItemContent::Issue { number, title, state, repository, assignees, labels, .. } => {
            assert_eq!(*number, 42);
            assert_eq!(title, "Implement auth");
            assert_eq!(state, "OPEN");
            assert_eq!(repository, "my-org/repo");
            assert_eq!(assignees, &["alice", "bob"]);
            assert_eq!(labels.len(), 1);
            assert_eq!(labels[0].name, "feature");
        }
        other => panic!("Expected Issue, got {:?}", other),
    }
    assert_eq!(items[0].field_values.len(), 2);
    assert_eq!(items[0].field_values[0].field_name, "Status");
    match &items[0].field_values[0].value {
        FieldValue::SingleSelect { name, .. } => assert_eq!(name, "In Progress"),
        other => panic!("Expected SingleSelect, got {:?}", other),
    }
    match &items[0].field_values[1].value {
        FieldValue::Number { value_bits } => assert_eq!(f64::from_bits(*value_bits), 5.0),
        other => panic!("Expected Number, got {:?}", other),
    }
    match &items[1].content {
        ProjectItemContent::PullRequest { number, merged, author, .. } => {
            assert_eq!(*number, 100);
            assert!(*merged);
            assert_eq!(author, "charlie");
        }
        other => panic!("Expected PullRequest, got {:?}", other),
    }
    match &items[2].content {
        ProjectItemContent::DraftIssue { title, body, assignees } => {
            assert_eq!(title, "Research caching");
            assert_eq!(body.as_deref(), Some("Investigate Redis vs Memcached"));
            assert_eq!(assignees, &["alice"]);
        }
        other => panic!("Expected DraftIssue, got {:?}", other),
    }
}

#[test]
fn convert_item_without_content_is_dropped() {
    let item = GqlItem { id: "x".into(), created_at: 0, updated_at: 0, content: None, field_values: None };
    assert!(convert_item(item).is_none());
    assert!(convert_content(empty_content()).is_none());
    let pr_without_author = GqlItemContent { repository: Some("o/r".into()), merged: Some(false), ..empty_content() };
    match convert_content(pr_without_author) {
        Some(ProjectItemContent::PullRequest { author, number, title, .. }) => {
            assert_eq!(author, "unknown");
            assert_eq!(number, 0);
            assert_eq!(title, "");
        }
        other => panic!("unexpected {:?}", other),
    }
}

#[test]
fn test_classify_permission_error() {
    let errors = vec![GraphQLError { message: "Resource not accessible by personal access token".into(), error_type: None }];
    assert!(matches!(classify_graphql_errors(&errors), Error::MissingProjectScope { org } if org == "unknown"));
}

#[test]
fn test_classify_not_found_error() {
    let errors = vec![GraphQLError { message: "Could not resolve to an Organization with the login of 'x'.".into(), error_type: Some("NOT_FOUND".into()) }];
    assert!(matches!(classify_graphql_errors(&errors), Error::NotFound(m) if m.starts_with("Could not resolve to")));
}

#[test]
fn test_classify_generic_error() {
    let errors = vec![
        GraphQLError { message: "Something went wrong".into(), error_type: None },
        GraphQLError { message: "Another error".into(), error_type: None },
    ];
    assert!(matches!(classify_graphql_errors(&errors), Error::GraphQL(m) if m == "Something went wrong; Another error"));
}

#[test]
fn classify_projects_unavailable_and_first_special_wins() {
    let errors = vec![
        GraphQLError { message: "plain".into(), error_type: None },
        GraphQLError { message: "Field 'projectsV2' doesn't exist on type 'Organization'".into(), error_type: None },
        GraphQLError { message: "insufficient scopes".into(), error_type: None },
    ];
    assert!(matches!(classify_graphql_errors(&errors), Error::ProjectsNotAvailable));
}

#[test]
fn test_convert_iteration_field_value() {
    let node = GqlFieldValueNode {
        title: Some("Sprint 1".into()),
        start_date: Some("2026-01-06".into()),
        duration: Some(14),
        iteration_id: Some("it1".into()),
        field: Some(Some("Sprint".into())),
        ..empty_value()
    };
    let fv = convert_field_value(node).unwrap();
    assert_eq!(fv.field_name, "Sprint");
    match fv.value {
        FieldValue::Iteration { title, start_date, duration, iteration_id } => {
            assert_eq!(title, "Sprint 1");
            assert_eq!(start_date, "2026-01-06");
            assert_eq!(duration, 14);
            assert_eq!(iteration_id, "it1");
        }
        other => panic!("Expected Iteration, got {:?}", other),
    }
}

#[test]
fn test_convert_date_field_value() {
    let node = GqlFieldValueNode { date: Some("2026-03-01".into()), field: Some(Some("Due".into())), ..empty_value() };
    let fv = convert_field_value(node).unwrap();
    assert_eq!(fv.field_name, "Due");
    assert!(matches!(fv.value, FieldValue::Date { value } if value == "2026-03-01"));
}

#[test]
fn test_convert_field_value_no_field_ref() {
    let node = GqlFieldValueNode { text: Some("hello".into()), ..empty_value() };
    assert!(convert_field_value(node).is_none());
    let unnamed = GqlFieldValueNode { text: Some("hello".into()), field: Some(None), ..empty_value() };
    assert!(convert_field_value(unnamed).is_none());
    let empty = GqlFieldValueNode { field: Some(Some("F".into())), ..empty_value() };
    assert!(convert_field_value(empty).is_none());
}

#[test]
fn convert_field_defaults_and_unknown_types() {
    let f = convert_field(&GqlField { id: None, name: None, data_type: Some("WEIRD".into()), options: None, configuration: None });
    assert_eq!(f.node_id, "");
    assert_eq!(f.name, "");
    assert!(matches!(f.field_type, ProjectFieldType::BuiltIn));
    let t = convert_field(&field("a", "b", "TEXT"));
    assert!(matches!(t.field_type, ProjectFieldType::Text));
    let d = convert_field(&field("a", "b", "DATE"));
    assert!(matches!(d.field_type, ProjectFieldType::Date));
}

#[test]
fn http_status_and_response_handling() {
    assert!(check_http_status(200, "").is_ok());
    assert!(matches!(check_http_status(502, "Bad gateway"), Err(Error::GraphQL(m)) if m == "HTTP 502: Bad gateway"));
    assert_eq!(finish_response(Some(5), None).unwrap(), 5);
    assert_eq!(finish_response(Some(5), Some(vec![])).unwrap(), 5);
    assert!(matches!(finish_response::<u8>(None, None), Err(Error::GraphQL(m)) if m == "GraphQL response contained no data"));
    let errs = vec![GraphQLError { message: "boom".into(), error_type: None }];
    assert!(matches!(finish_response(Some(1), Some(errs)), Err(Error::GraphQL(m)) if m == "boom"));
    assert!(matches!(project_not_found(5, "my-org"), Error::NotFound(m) if m == "Project #5 not found in org 'my-org'"));
}

#[test]
fn issue_and_pull_state_filters_parse() {
    assert_eq!(IssueStateFilter::parse("OPEN").unwrap(), IssueStateFilter::Open);
    assert_eq!("all".parse::<IssueStateFilter>().unwrap(), IssueStateFilter::All);
    assert!(matches!(IssueStateFilter::parse("merged"), Err(Error::Custom(m)) if m == "Invalid issue state: merged"));
    assert_eq!(PullStateFilter::parse("Closed").unwrap(), PullStateFilter::Closed);
    assert!(matches!(PullStateFilter::parse("x"), Err(Error::Custom(m)) if m == "Invalid PR state: x"));
    assert_eq!(IssueStateFilter::default(), IssueStateFilter::Open);
    assert_eq!(SortDirection::default(), SortDirection::Desc);
    assert_eq!(IssueSort::default(), IssueSort::Created);
}

#[test]
fn params_builders() {
    let p = IssueParams::closed().with_labels(vec!["bug".into()]).with_assignee("alice").with_milestone("v1").since(42);
    assert_eq!(p.state, IssueStateFilter::Closed);
    assert_eq!(p.per_page, 100);
    assert_eq!(p.labels, Some(vec!["bug".to_string()]));
    assert_eq!(p.assignee.as_deref(), Some("alice"));
    assert_eq!(p.milestone.as_deref(), Some("v1"));
    assert_eq!(p.since, Some(42));
    assert_eq!(IssueParams::all().state, IssueStateFilter::All);
    assert_eq!(IssueParams::open().page, 0);
    let merged = PullParams::merged();
    assert_eq!(merged.state, PullStateFilter::Closed);
    assert_eq!(merged.per_page, 100);
    assert_eq!(PullParams::all().state, PullStateFilter::All);
    assert_eq!(PullParams::open().state, PullStateFilter::Open);
    assert_eq!(PullParams::default().per_page, 0);
}

#[test]
fn retry_decisions() {
    assert!(is_retryable_error(&ApiFailure::Http { message: "Connection reset by peer".into() }));
    assert!(is_retryable_error(&ApiFailure::Http { message: "operation TIMEOUT".into() }));
    assert!(!is_retryable_error(&ApiFailure::Http { message: "invalid certificate".into() }));
    assert!(is_retryable_error(&ApiFailure::GitHub { status: 503, message: String::new() }));
    assert!(is_retryable_error(&ApiFailure::GitHub { status: 429, message: String::new() }));
    assert!(is_retryable_error(&ApiFailure::GitHub { status: 408, message: String::new() }));
    assert!(!is_retryable_error(&ApiFailure::GitHub { status: 404, message: String::new() }));
    assert!(!is_retryable_error(&ApiFailure::Other { message: "connection".into() }));
    assert!(!is_retryable_error(&ApiFailure::Parse { message: "eof".into() }));
    assert!(should_retry(3, 3, &ApiFailure::GitHub { status: 500, message: String::new() }));
    assert!(!should_retry(4, 3, &ApiFailure::GitHub { status: 500, message: String::new() }));
}

fn config_with_orgs(default_token: Option<&str>, orgs: Vec<(&str, &str, Option<&str>)>) -> Config {
    Config {
        github: GitHubConfig { token: default_token.map(|t| t.to_string()), base_url: None },
        organizations: orgs
            .into_iter()
            .map(|(name, token, base_url)| OrgConfig {
                name: name.to_string(),
                token: token.to_string(),
                base_url: base_url.map(|u| u.to_string()),
                repos: None,
            })
            .collect(),
        ..Default::default()
    }
}

/// Clients named after their token, as the application makes them.
fn registry_for(config: &Config) -> Result<GitHubClientRegistry<String>, Error> {
    let org_clients: Vec<String> = config.organizations.iter().map(|o| o.token.clone()).collect();
    let default_client = config.github.token.clone();
    GitHubClientRegistry::from_clients(config, org_clients, default_client)
}

#[test]
fn test_registry_client_for_known_org() {
    let config = config_with_orgs(Some("ghp_default"), vec![("org-alpha", "ghp_alpha", None), ("org-beta", "ghp_beta", None)]);
    let registry = registry_for(&config).unwrap();
    assert!(registry.client_for_org("org-alpha").is_ok());
    assert!(registry.client_for_org("org-beta").is_ok());
    let alpha = registry.client_for_org("org-alpha").unwrap();
    let beta = registry.client_for_org("org-beta").unwrap();
    assert_ne!(alpha, beta);
    assert_eq!(alpha, "ghp_alpha");
}

#[test]
fn test_registry_client_fallback() {
    let config = config_with_orgs(Some("ghp_default"), vec![("org-alpha", "ghp_alpha", None)]);
    let registry = registry_for(&config).unwrap();
    let unknown = registry.client_for_org("unknown-org").unwrap();
    let default = registry.default_client().unwrap();
    assert!(std::ptr::eq(unknown, default));
}

#[test]
fn test_registry_no_token_error() {
    let config = config_with_orgs(None, vec![("org-alpha", "ghp_alpha", None)]);
    let registry = registry_for(&config).unwrap();
    assert!(registry.default_client().is_err());
    let result = registry.client_for_org("unknown-org");
    assert!(result.is_err());
    match result.unwrap_err() {
        Error::OrgNotConfigured { org, env_var } => {
            assert_eq!(org, "unknown-org");
            assert_eq!(env_var, "UNKNOWN_ORG");
        }
        other => panic!("Expected OrgNotConfigured, got: {:?}", other),
    }
}

#[test]
fn test_registry_case_insensitive() {
    let config = config_with_orgs(Some("ghp_default"), vec![("My-Org", "ghp_myorg", None)]);
    let registry = registry_for(&config).unwrap();
    let lower = registry.client_for_org("my-org").unwrap();
    let upper = registry.client_for_org("MY-ORG").unwrap();
    let mixed = registry.client_for_org("My-Org").unwrap();
    assert!(std::ptr::eq(lower, upper));
    assert!(std::ptr::eq(lower, mixed));
    assert_eq!(lower, "ghp_myorg");
}

#[test]
fn test_registry_org_names() {
    let config = config_with_orgs(Some("ghp_default"), vec![("org-alpha", "ghp_alpha", None), ("org-beta", "ghp_beta", None)]);
    let registry = registry_for(&config).unwrap();
    let mut names = registry.org_names();
    names.sort();
    assert_eq!(names, vec!["org-alpha", "org-beta"]);
}

#[test]
fn test_registry_from_config_backward_compat() {
    let config = config_with_orgs(Some("ghp_default"), vec![]);
    let registry = registry_for(&config).unwrap();
    assert!(registry.org_names().is_empty());
    assert!(registry.default_client().is_ok());
    assert!(registry.client_for_org("any-org").is_ok());
}

#[test]
fn test_registry_no_tokens_at_all() {
    let config = config_with_orgs(None, vec![]);
    let result = registry_for(&config);
    assert!(matches!(result, Err(Error::MissingToken)));
}

#[test]
fn test_registry_has_org() {
    let config = config_with_orgs(Some("ghp_default"), vec![("org-alpha", "ghp_alpha", None)]);
    let registry = registry_for(&config).unwrap();
    assert!(registry.has_org("org-alpha"));
    assert!(registry.has_org("ORG-ALPHA"));
    assert!(!registry.has_org("org-beta"));
}

#[test]
fn test_registry_client_for_repo() {
    let config = config_with_orgs(Some("ghp_default"), vec![("org-alpha", "ghp_alpha", None)]);
    let registry = registry_for(&config).unwrap();
    let repo = RepoId::new("org-alpha", "my-repo");
    let client = registry.client_for_repo(&repo).unwrap();
    let org_client = registry.client_for_org("org-alpha").unwrap();
    assert!(std::ptr::eq(client, org_client));
}

#[test]
fn registry_later_org_of_same_name_wins_and_entries_kept() {
    let mut config = config_with_orgs(None, vec![("Acme", "first", Some("https://ghe/api/v3")), ("acme", "second", None)]);
    config.organizations[0].repos = Some(vec!["api".into(), "web".into()]);
    let registry = registry_for(&config).unwrap();
    assert_eq!(registry.client_for_org("ACME").unwrap(), "second");
    assert_eq!(registry.org_names(), vec!["acme"]);
    let entries = registry.org_entries();
    assert_eq!(entries.len(), 2);
    assert_eq!(entries[0].name, "Acme");
    assert_eq!(entries[0].repo_count, 2);
    assert_eq!(entries[0].repo_names, vec!["api", "web"]);
    assert_eq!(entries[0].base_url.as_deref(), Some("https://ghe/api/v3"));
    assert!(entries[1].has_token);
    let only_default = GitHubClientRegistry::with_default(7u32);
    assert_eq!(*only_default.client_for_org("x").unwrap(), 7);
}

#[test]
fn page_size_is_capped_at_one_hundred() {
    assert_eq!(request_page_size(30), 30);
    assert_eq!(request_page_size(100), 100);
    assert_eq!(request_page_size(250), 100);
    assert_eq!(request_page_size(0), 0);
}
