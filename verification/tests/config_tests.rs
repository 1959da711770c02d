use greport::client::RepoId;
use greport::config::{
    default_cache_ttl, default_format, default_resolution_time, default_response_time, mask_token,
    Config, OrgConfig,
};
use greport::error::Error;

fn org(name: &str, token: &str, repos: Option<Vec<&str>>) -> OrgConfig {
    OrgConfig {
        name: name.to_string(),
        token: token.to_string(),
        base_url: None,
        repos: repos.map(|r| r.into_iter().map(|s| s.to_string()).collect()),
    }
}

#[test]
fn test_config_org_token_lookup() {
    let config = Config {
        organizations: vec![org("my-org", "ghp_myorg", None), org("other-org", "ghp_other", None)],
        ..Default::default()
    };

    assert_eq!(config.github_token_for_org("my-org"), Some("ghp_myorg".to_string()));
    assert_eq!(config.github_token_for_org("other-org"), Some("ghp_other".to_string()));
    assert_eq!(config.github_token_for_org("unknown-org"), None);
}

#[test]
fn test_config_org_token_case_insensitive() {
    let config = Config { organizations: vec![org("My-Org", "ghp_myorg", None)], ..Default::default() };

    assert_eq!(config.github_token_for_org("my-org"), Some("ghp_myorg".to_string()));
    assert_eq!(config.github_token_for_org("MY-ORG"), Some("ghp_myorg".to_string()));
    assert_eq!(config.github_token_for_org("My-Org"), Some("ghp_myorg".to_string()));
}

#[test]
fn test_resolved_repos_for_org() {
    let config = Config {
        organizations: vec![
            org("org-alpha", "ghp_alpha", Some(vec!["api", "web"])),
            org("org-beta", "ghp_beta", Some(vec!["sdk"])),
        ],
        ..Default::default()
    };

    let alpha_repos = config.resolved_repos_for_org("org-alpha");
    assert_eq!(alpha_repos.len(), 2);
    assert_eq!(alpha_repos[0].full_name(), "org-alpha/api");
    assert_eq!(alpha_repos[1].full_name(), "org-alpha/web");

    let beta_repos = config.resolved_repos_for_org("org-beta");
    assert_eq!(beta_repos.len(), 1);
    assert_eq!(beta_repos[0].full_name(), "org-beta/sdk");

    // Case-insensitive lookup
    let upper = config.resolved_repos_for_org("ORG-ALPHA");
    assert_eq!(upper.len(), 2);

    // Unknown org returns empty
    let unknown = config.resolved_repos_for_org("unknown");
    assert!(unknown.is_empty());
}

#[test]
fn test_resolved_repos_all_orgs() {
    let config = Config {
        organizations: vec![
            org("org-alpha", "ghp_alpha", Some(vec!["api"])),
            org("org-beta", "ghp_beta", Some(vec!["sdk", "cli"])),
        ],
        ..Default::default()
    };

    let all = config.resolved_repos();
    assert_eq!(all.len(), 3);
    assert_eq!(all[0].full_name(), "org-alpha/api");
    assert_eq!(all[1].full_name(), "org-beta/sdk");
    assert_eq!(all[2].full_name(), "org-beta/cli");
}

#[test]
fn test_mask_token_long() {
    let masked = mask_token("ghp_abcdefghij1234");
    assert_eq!(masked, "ghp_****1234");
}

#[test]
fn mask_token_counts_characters_not_bytes() {
    // Eight characters, more than eight bytes: only the first four are shown.
    assert_eq!(mask_token("äöüßäöüß"), "äöüß****");
    assert_eq!(mask_token("äöüßäöüßé"), "äöüß****öüßé");
}

#[test]
fn test_mask_token_short() {
    let masked = mask_token("ghp_abcd");
    assert_eq!(masked, "ghp_****");
}

#[test]
fn test_mask_token_very_short() {
    let masked = mask_token("abc");
    assert_eq!(masked, "abc****");
}

#[test]
fn test_resolved_repos_empty_when_no_repos() {
    let config = Config { organizations: vec![org("org-alpha", "ghp_alpha", None)], ..Default::default() };

    assert!(config.resolved_repos().is_empty());
    assert!(config.resolved_repos_for_org("org-alpha").is_empty());
}

#[test]
fn config_defaults_match_documented_values() {
    assert_eq!(default_format(), "table");
    assert_eq!(default_cache_ttl(), 3600);
    assert_eq!(default_response_time(), 24);
    assert_eq!(default_resolution_time(), 168);
}

#[test]
fn github_token_prefers_config_then_environment() {
    let mut config = Config::default();
    assert!(matches!(config.github_token(None), Err(Error::MissingToken)));
    assert_eq!(config.github_token(Some("ghp_env")).unwrap(), "ghp_env");
    config.github.token = Some("ghp_file".to_string());
    assert_eq!(config.github_token(Some("ghp_env")).unwrap(), "ghp_file");
}

#[test]
fn org_repos_are_among_all_repos() {
    // Law: the repositories of one organization are among those of all.
    let config = Config {
        organizations: vec![
            org("org-alpha", "t", Some(vec!["api", "web"])),
            org("org-beta", "t", Some(vec!["sdk"])),
            org("ORG-ALPHA", "t", Some(vec!["docs"])),
        ],
        ..Default::default()
    };
    let all: Vec<String> = config.resolved_repos().iter().map(|r| r.full_name()).collect();
    let alpha = config.resolved_repos_for_org("org-alpha");
    assert_eq!(alpha.len(), 3);
    for r in alpha {
        assert!(all.contains(&r.full_name()));
    }
}

#[test]
fn merge_org_env_vars_sets_token_and_adds_org() {
    let mut config = Config { organizations: vec![org("my-org", "old", None)], ..Default::default() };
    let vars = vec![
        ("GREPORT_ORG_MY_ORG_TOKEN".to_string(), "new".to_string()),
        ("GREPORT_ORG_OTHER_TOKEN".to_string(), "other".to_string()),
        ("UNRELATED".to_string(), "x".to_string()),
    ];
    config.merge_org_env_vars(&vars);
    assert_eq!(config.github_token_for_org("my-org"), Some("new".to_string()));
    assert_eq!(config.organizations.len(), 2);
    assert_eq!(config.github_token_for_org("other"), Some("other".to_string()));
}

#[test]
fn merge_org_env_vars_twice_changes_nothing() {
    // Law: reading the same environment a second time changes nothing.
    let mut config = Config { organizations: vec![org("my-org", "old", Some(vec!["a"]))], ..Default::default() };
    let vars = vec![
        ("GREPORT_ORG_MY_ORG_TOKEN".to_string(), "first".to_string()),
        ("GREPORT_ORG_NEW_ONE_TOKEN".to_string(), "n1".to_string()),
        ("GREPORT_ORG_NEW_ONE_BASE_URL".to_string(), "https://ghe.example".to_string()),
        ("GREPORT_ORG_MY_ORG_TOKEN".to_string(), "second".to_string()),
    ];
    config.merge_org_env_vars(&vars);
    let once: Vec<(String, String, Option<String>, Option<Vec<String>>)> = config
        .organizations
        .iter()
        .map(|o| (o.name.clone(), o.token.clone(), o.base_url.clone(), o.repos.clone()))
        .collect();
    assert_eq!(once.len(), 2);
    assert_eq!(once[0].1, "second");
    assert_eq!(once[1], ("new-one".to_string(), "n1".to_string(), Some("https://ghe.example".to_string()), None));
    config.merge_org_env_vars(&vars);
    let twice: Vec<(String, String, Option<String>, Option<Vec<String>>)> = config
        .organizations
        .iter()
        .map(|o| (o.name.clone(), o.token.clone(), o.base_url.clone(), o.repos.clone()))
        .collect();
    assert_eq!(once, twice);
}

#[test]
fn org_repos_are_all_repos_filtered_by_owner() {
    // Law: the repositories of one organization are all repositories filtered by owner, in order.
    let config = Config {
        organizations: vec![
            org("My-Org", "t1", Some(vec!["a", "b"])),
            org("other", "t2", Some(vec!["c"])),
            org("my-org", "t3", Some(vec!["d"])),
        ],
        ..Default::default()
    };
    let per_org = config.resolved_repos_for_org("MY-ORG");
    let filtered: Vec<_> =
        config.resolved_repos().into_iter().filter(|r| r.owner.to_lowercase() == "my-org").collect();
    assert_eq!(per_org, filtered);
    assert_eq!(per_org.iter().map(|r| r.name.as_str()).collect::<Vec<_>>(), vec!["a", "b", "d"]);
}

#[test]
fn repo_id_full_name_parses_back() {
    // Law: parsing a full name gives back the owner and name.
    let id = RepoId::new("owner", "repo");
    let parsed = RepoId::parse(&id.full_name()).unwrap();
    assert_eq!(parsed, id);
    assert!(matches!(RepoId::parse("no-slash"), Err(Error::InvalidRepoFormat(s)) if s == "no-slash"));
    assert!(matches!(RepoId::parse("a/b/c"), Err(Error::InvalidRepoFormat(_))));
}
