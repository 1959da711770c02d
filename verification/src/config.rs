//! Configuration management.
//!
//! Values that the environment can override are resolved here from the
//! environment variable's value, which the caller reads and hands in (`None`
//! when the variable is not set).
use vstd::prelude::*;

use crate::client::RepoId;
use crate::error::Error;
use crate::text::{
    chars_ends_with, chars_of, chars_range, chars_slice, chars_starts_with, has_prefix, has_suffix,
    parse_unsigned_bounded, parse_unsigned_upto, push_str, replace_char, replace_char_seq, str_eq,
    to_lowercase, unicode_lower,
};

verus! {

/// Main configuration structure
#[derive(Debug, Clone)]
pub struct Config {
    /// GitHub configuration
    pub github: GitHubConfig,
    /// Organization-specific configurations
    pub organizations: Vec<OrgConfig>,
    /// Default settings
    pub defaults: DefaultsConfig,
    /// SLA configuration
    pub sla: SlaConfig,
    /// Database configuration
    pub database: DatabaseConfig,
    /// API server configuration
    pub server: ServerConfig,
    /// Logging configuration
    pub logging: LoggingConfig,
}

/// GitHub-specific configuration
#[derive(Debug, Clone)]
pub struct GitHubConfig {
    /// GitHub personal access token (optional, can use env var)
    pub token: Option<String>,
    /// GitHub API base URL (for GitHub Enterprise)
    pub base_url: Option<String>,
}

/// Single organization configuration
#[derive(Debug, Clone)]
pub struct OrgConfig {
    /// GitHub organization name (e.g., "my-org")
    pub name: String,
    /// GitHub personal access token scoped to this organization
    pub token: String,
    /// Optional GitHub API base URL (for GitHub Enterprise)
    pub base_url: Option<String>,
    /// Optional list of repository names (without org prefix) to report on
    pub repos: Option<Vec<String>>,
}

/// Default settings
#[derive(Debug, Clone)]
pub struct DefaultsConfig {
    /// Default repository (owner/repo)
    pub repo: Option<String>,
    /// Default output format
    pub format: String,
    /// Cache TTL in seconds
    pub cache_ttl: u64,
}

/// SLA configuration
#[derive(Debug, Clone)]
pub struct SlaConfig {
    /// Default response time in hours
    pub response_time_hours: i64,
    /// Default resolution time in hours
    pub resolution_time_hours: i64,
    /// Priority-specific overrides, keyed by lowercase label name
    pub priority: Vec<(String, SlaPriority)>,
}

/// Priority-specific SLA settings
#[derive(Debug, Clone, Copy, PartialEq, Eq, Structural)]
pub struct SlaPriority {
    /// Response time in hours
    pub response_time_hours: i64,
    /// Resolution time in hours
    pub resolution_time_hours: i64,
}

/// Database configuration (used by API server)
#[derive(Debug, Clone)]
pub struct DatabaseConfig {
    /// Database URL (postgres://...); the DATABASE_URL variable takes priority
    pub url: Option<String>,
    /// Maximum connections in pool
    pub max_connections: Option<u32>,
    /// Connection acquire timeout in seconds
    pub acquire_timeout_secs: Option<u64>,
    /// Run migrations on connect
    pub run_migrations: Option<bool>,
}

/// API server configuration
#[derive(Debug, Clone)]
pub struct ServerConfig {
    /// Bind host address; the API_HOST variable takes priority
    pub host: Option<String>,
    /// Bind port; the API_PORT variable takes priority
    pub port: Option<u16>,
    /// Rate limit per minute per client
    pub rate_limit_per_minute: Option<u32>,
    /// Cache TTL in seconds for API responses
    pub cache_ttl_seconds: Option<u64>,
    /// Maximum page size for paginated responses
    pub max_page_size: Option<usize>,
    /// Require API key authentication
    pub require_auth: Option<bool>,
}

/// Logging configuration
#[derive(Debug, Clone)]
pub struct LoggingConfig {
    /// Log level filter string; the RUST_LOG variable takes priority
    pub level: Option<String>,
}

/// The default output format
pub fn default_format() -> (s: String)
    ensures
        s@ == "table"@,
{
    String::from_str("table")
}

/// The default cache TTL in seconds
pub fn default_cache_ttl() -> (r: u64)
    ensures
        r == 3600,
{
    3600
}

/// The default response time in hours
pub fn default_response_time() -> (r: i64)
    ensures
        r == 24,
{
    24
}

/// The default resolution time in hours (7 days)
pub fn default_resolution_time() -> (r: i64)
    ensures
        r == 168,
{
    168
}

impl Default for GitHubConfig {
    fn default() -> (c: Self)
        ensures
            c.token is None,
            c.base_url is None,
    {
        GitHubConfig { token: None, base_url: None }
    }
}

impl Default for DefaultsConfig {
    fn default() -> (c: Self)
        ensures
            c.repo is None,
            c.format@.len() == 0,
            c.cache_ttl == 0,
    {
        DefaultsConfig { repo: None, format: String::new(), cache_ttl: 0 }
    }
}

impl SlaConfig {
    /// No label name has two priority entries.
    pub open spec fn wf(&self) -> bool {
        forall|i: int, j: int|
            0 <= i < j < self.priority@.len() ==> #[trigger] self.priority@[i].0@ != #[trigger] self.priority@[j].0@
    }
}

impl Default for SlaConfig {
    fn default() -> (c: Self)
        ensures
            c.wf(),
            c.response_time_hours == 24,
            c.resolution_time_hours == 168,
            c.priority@.len() == 2,
            c.priority@[0].0@ == "critical"@,
            c.priority@[0].1 == (SlaPriority { response_time_hours: 4, resolution_time_hours: 24 }),
            c.priority@[1].0@ == "high"@,
            c.priority@[1].1 == (SlaPriority { response_time_hours: 8, resolution_time_hours: 72 }),
    {
        let mut priority: Vec<(String, SlaPriority)> = Vec::new();
        priority.push(
            (
                String::from_str("critical"),
                SlaPriority { response_time_hours: 4, resolution_time_hours: 24 },
            ),
        );
        priority.push(
            (
                String::from_str("high"),
                SlaPriority { response_time_hours: 8, resolution_time_hours: 72 },
            ),
        );
        proof {
            reveal_strlit("critical");
            reveal_strlit("high");
            assert(priority@[0].0@.len() != priority@[1].0@.len());
        }
        SlaConfig {
            response_time_hours: default_response_time(),
            resolution_time_hours: default_resolution_time(),
            priority,
        }
    }
}

impl Default for DatabaseConfig {
    fn default() -> (c: Self)
        ensures
            c.url is None,
            c.max_connections is None,
            c.acquire_timeout_secs is None,
            c.run_migrations is None,
    {
        DatabaseConfig { url: None, max_connections: None, acquire_timeout_secs: None, run_migrations: None }
    }
}

impl Default for ServerConfig {
    fn default() -> (c: Self)
        ensures
            c.host is None,
            c.port is None,
            c.rate_limit_per_minute is None,
            c.cache_ttl_seconds is None,
            c.max_page_size is None,
            c.require_auth is None,
    {
        ServerConfig {
            host: None,
            port: None,
            rate_limit_per_minute: None,
            cache_ttl_seconds: None,
            max_page_size: None,
            require_auth: None,
        }
    }
}

impl Default for LoggingConfig {
    fn default() -> (c: Self)
        ensures
            c.level is None,
    {
        LoggingConfig { level: None }
    }
}

impl Default for Config {
    fn default() -> (c: Self)
        ensures
            c.github.token is None,
            c.github.base_url is None,
            c.organizations@.len() == 0,
            c.defaults.repo is None,
            c.defaults.format@.len() == 0,
            c.defaults.cache_ttl == 0,
            c.sla.response_time_hours == 24,
            c.sla.resolution_time_hours == 168,
            c.sla.priority@.len() == 2,
            c.database.url is None,
            c.server.host is None,
            c.server.port is None,
            c.logging.level is None,
    {
        Config {
            github: GitHubConfig::default(),
            organizations: Vec::new(),
            defaults: DefaultsConfig::default(),
            sla: SlaConfig::default(),
            database: DatabaseConfig::default(),
            server: ServerConfig::default(),
            logging: LoggingConfig::default(),
        }
    }
}

/// The first `n` characters (all of them when there are fewer).
pub open spec fn first_chars(c: Seq<char>, n: int) -> Seq<char> {
    if c.len() <= n {
        c
    } else {
        c.take(n)
    }
}

/// The last `n` characters (all of them when there are fewer).
pub open spec fn last_chars(c: Seq<char>, n: int) -> Seq<char> {
    if c.len() <= n {
        c
    } else {
        c.skip(c.len() - n)
    }
}

/// The masked form of a token: its first four characters and `****`, followed
/// by its last four characters when the token has more than 8 characters.
pub open spec fn masked(token: &str) -> Seq<char> {
    if token@.len() <= 8 {
        first_chars(token@, 4) + "****"@
    } else {
        first_chars(token@, 4) + "****"@ + last_chars(token@, 4)
    }
}

/// Mask a token for display: shows first 4 chars + `****` + last 4 chars.
/// For tokens with 8 or fewer characters, shows first 4 + `****`.
pub fn mask_token(token: &str) -> (r: String)
    ensures
        r@ == masked(token),
{
    let v = chars_of(token);
    let n = v.len();
    let head = if n <= 4 {
        chars_range(v.as_slice(), 0, n)
    } else {
        chars_range(v.as_slice(), 0, 4)
    };
    proof {
        if n <= 4 {
            assert(v@.subrange(0, n as int) =~= v@);
        } else {
            assert(v@.subrange(0, 4) =~= v@.take(4));
        }
    }
    assert(head@ == first_chars(token@, 4));
    let mut r = head;
    push_str(&mut r, "****");
    assert(r@ == first_chars(token@, 4) + "****"@);
    if n > 8 {
        let tail = chars_range(v.as_slice(), n - 4, n);
        assert(v@.subrange(n - 4, n as int) =~= v@.skip(n - 4));
        assert(tail@ == last_chars(token@, 4));
        push_str(&mut r, tail.as_str());
    }
    r
}

/// The view of an optional string.
pub open spec fn opt_view(o: Option<String>) -> Option<Seq<char>> {
    match o {
        Some(s) => Some(s@),
        None => None,
    }
}

/// The repository names listed for an organization (none when absent).
pub open spec fn repo_names(o: OrgConfig) -> Seq<Seq<char>> {
    match o.repos {
        Some(v) => Seq::new(v@.len(), |j: int| v@[j]@),
        None => Seq::empty(),
    }
}

/// The `(owner, name)` pairs of one organization's listed repositories.
pub open spec fn org_repo_pairs(o: OrgConfig) -> Seq<(Seq<char>, Seq<char>)> {
    Seq::new(repo_names(o).len(), |j: int| (o.name@, repo_names(o)[j]))
}

/// The `(owner, name)` pairs of all listed repositories, organization after organization.
pub open spec fn all_repo_pairs(orgs: Seq<OrgConfig>) -> Seq<(Seq<char>, Seq<char>)>
    decreases orgs.len(),
{
    if orgs.len() == 0 {
        Seq::empty()
    } else {
        all_repo_pairs(orgs.drop_last()) + org_repo_pairs(orgs.last())
    }
}

/// The `(owner, name)` pairs of the listed repositories of the organizations
/// whose lowercase name is `lower`.
pub open spec fn repo_pairs_for(orgs: Seq<OrgConfig>, lower: Seq<char>) -> Seq<(Seq<char>, Seq<char>)>
    decreases orgs.len(),
{
    if orgs.len() == 0 {
        Seq::empty()
    } else {
        repo_pairs_for(orgs.drop_last(), lower) + if unicode_lower(orgs.last().name@) == lower {
            org_repo_pairs(orgs.last())
        } else {
            Seq::empty()
        }
    }
}

/// The `(owner, name)` pairs of a list of repository identifiers.
pub open spec fn repo_id_pairs(v: Seq<RepoId>) -> Seq<(Seq<char>, Seq<char>)> {
    Seq::new(v.len(), |i: int| (v[i].owner@, v[i].name@))
}

/// Index of the first organization whose lowercase name is `lower` (-1 when none).
pub open spec fn org_index_lower(orgs: Seq<OrgConfig>, lower: Seq<char>) -> int
    decreases orgs.len(),
{
    if orgs.len() == 0 {
        -1
    } else if org_index_lower(orgs.drop_last(), lower) >= 0 {
        org_index_lower(orgs.drop_last(), lower)
    } else if unicode_lower(orgs.last().name@) == lower {
        orgs.len() - 1
    } else {
        -1
    }
}

/// The value an environment variable overrides a setting with: the variable
/// when set, else the configured value.
pub open spec fn env_or(env: Option<&str>, configured: Option<String>) -> Option<Seq<char>> {
    match env {
        Some(e) => Some(e@),
        None => opt_view(configured),
    }
}

/// A number read from an environment variable (when set and well formed, and
/// at most `max`), else the configured value, else the default.
pub open spec fn resolve_number(env: Option<&str>, max: int, configured: Option<int>, default: int) -> int {
    let from_env = match env {
        Some(e) => parse_unsigned_upto(e@, max),
        None => None,
    };
    match from_env {
        Some(v) => v as int,
        None => match configured {
            Some(c) => c,
            None => default,
        },
    }
}

fn copy_opt_string(o: &Option<String>) -> (r: Option<String>)
    ensures
        opt_view(r) == opt_view(*o),
{
    match o {
        Some(s) => Some(s.clone()),
        None => None,
    }
}

fn env_number(env: Option<&str>, max: u64) -> (r: Option<u64>)
    ensures
        r matches Some(v) ==> env matches Some(e) && parse_unsigned_upto(e@, max as int) == Some(
            v as nat,
        ),
        r is None ==> (env is None || parse_unsigned_upto(env->0@, max as int) is None),
{
    match env {
        Some(e) => parse_unsigned_bounded(e, max),
        None => None,
    }
}

impl Config {
    /// Get GitHub token from config, else from the GITHUB_TOKEN variable
    /// (`env_token` is its value, `None` when unset).
    pub fn github_token(&self, env_token: Option<&str>) -> (r: Result<String, Error>)
        ensures
            self.github.token matches Some(t) ==> r matches Ok(s) && s@ == t@,
            self.github.token is None ==> (match env_token {
                Some(e) => r matches Ok(s) && s@ == e@,
                None => r matches Err(Error::MissingToken),
            }),
    {
        if let Some(token) = &self.github.token {
            return Ok(token.clone());
        }
        match env_token {
            Some(e) => Ok(String::from_str(e)),
            None => Err(Error::MissingToken),
        }
    }

    /// Get GitHub token for a specific organization (case-insensitive lookup)
    pub fn github_token_for_org(&self, org: &str) -> (r: Option<String>)
        ensures
            ({
                let k = org_index_lower(self.organizations@, unicode_lower(org@));
                if k >= 0 {
                    r matches Some(t) && t@ == self.organizations@[k].token@
                } else {
                    r is None
                }
            }),
    {
        let org_lower = to_lowercase(org);
        let mut i: usize = 0;
        while i < self.organizations.len()
            invariant
                i <= self.organizations.len(),
                org_lower@ == unicode_lower(org@),
                org_index_lower(self.organizations@.take(i as int), org_lower@) == -1,
            decreases self.organizations.len() - i,
        {
            assert(self.organizations@.take(i + 1).drop_last() =~= self.organizations@.take(i as int));
            let name_lower = to_lowercase(self.organizations[i].name.as_str());
            if name_lower == org_lower {
                proof {
                    lemma_org_index_prefix(self.organizations@, i + 1, org_lower@);
                }
                return Some(self.organizations[i].token.clone());
            }
            i = i + 1;
        }
        assert(self.organizations@.take(i as int) =~= self.organizations@);
        None
    }

    /// Resolve database URL (DATABASE_URL > config file)
    pub fn database_url(&self, env_database_url: Option<&str>) -> (r: Option<String>)
        ensures
            opt_view(r) == env_or(env_database_url, self.database.url),
    {
        match env_database_url {
            Some(e) => Some(String::from_str(e)),
            None => copy_opt_string(&self.database.url),
        }
    }

    /// Resolve API host (API_HOST > config file > "0.0.0.0")
    pub fn api_host(&self, env_api_host: Option<&str>) -> (r: String)
        ensures
            r@ == (match env_or(env_api_host, self.server.host) {
                Some(h) => h,
                None => "0.0.0.0"@,
            }),
    {
        match env_api_host {
            Some(e) => String::from_str(e),
            None => match &self.server.host {
                Some(h) => h.clone(),
                None => String::from_str("0.0.0.0"),
            },
        }
    }

    /// Resolve API port (API_PORT > config file > 9423)
    pub fn api_port(&self, env_api_port: Option<&str>) -> (r: u16)
        ensures
            r == resolve_number(
                env_api_port,
                u16::MAX as int,
                match self.server.port {
                    Some(p) => Some(p as int),
                    None => None,
                },
                9423,
            ),
    {
        match env_number(env_api_port, 65535) {
            Some(v) => v as u16,
            None => match self.server.port {
                Some(p) => p,
                None => 9423,
            },
        }
    }

    /// Resolve RUST_LOG (RUST_LOG > config file > provided default)
    pub fn rust_log(&self, default: &str, env_rust_log: Option<&str>) -> (r: String)
        ensures
            r@ == (match env_or(env_rust_log, self.logging.level) {
                Some(l) => l,
                None => default@,
            }),
    {
        match env_rust_log {
            Some(e) => String::from_str(e),
            None => match &self.logging.level {
                Some(l) => l.clone(),
                None => String::from_str(default),
            },
        }
    }

    /// Resolve database max connections (DB_MAX_CONNECTIONS > config file > 10)
    pub fn db_max_connections(&self, env_value: Option<&str>) -> (r: u32)
        ensures
            r == resolve_number(
                env_value,
                u32::MAX as int,
                match self.database.max_connections {
                    Some(p) => Some(p as int),
                    None => None,
                },
                10,
            ),
    {
        match env_number(env_value, 4294967295) {
            Some(v) => v as u32,
            None => match self.database.max_connections {
                Some(p) => p,
                None => 10,
            },
        }
    }

    /// Resolve database acquire timeout (DB_ACQUIRE_TIMEOUT > config file > 5)
    pub fn db_acquire_timeout_secs(&self, env_value: Option<&str>) -> (r: u64)
        ensures
            r == resolve_number(
                env_value,
                u64::MAX as int,
                match self.database.acquire_timeout_secs {
                    Some(p) => Some(p as int),
                    None => None,
                },
                5,
            ),
    {
        match env_number(env_value, u64::MAX) {
            Some(v) => v,
            None => match self.database.acquire_timeout_secs {
                Some(p) => p,
                None => 5,
            },
        }
    }

    /// Resolve whether to run migrations (DB_RUN_MIGRATIONS > config file > true)
    pub fn db_run_migrations(&self, env_value: Option<&str>) -> (r: bool)
        ensures
            r == (match env_value {
                Some(v) => v@ != "false"@ && v@ != "0"@,
                None => match self.database.run_migrations {
                    Some(b) => b,
                    None => true,
                },
            }),
    {
        if let Some(v) = env_value {
            return !str_eq(v, "false") && !str_eq(v, "0");
        }
        match self.database.run_migrations {
            Some(b) => b,
            None => true,
        }
    }

    /// Resolve rate limit per minute (RATE_LIMIT_PER_MINUTE > config file > 60)
    pub fn rate_limit_per_minute(&self, env_value: Option<&str>) -> (r: u32)
        ensures
            r == resolve_number(
                env_value,
                u32::MAX as int,
                match self.server.rate_limit_per_minute {
                    Some(p) => Some(p as int),
                    None => None,
                },
                60,
            ),
    {
        match env_number(env_value, 4294967295) {
            Some(v) => v as u32,
            None => match self.server.rate_limit_per_minute {
                Some(p) => p,
                None => 60,
            },
        }
    }

    /// Resolve cache TTL seconds (CACHE_TTL_SECONDS > config file > 300)
    pub fn cache_ttl_seconds(&self, env_value: Option<&str>) -> (r: u64)
        ensures
            r == resolve_number(
                env_value,
                u64::MAX as int,
                match self.server.cache_ttl_seconds {
                    Some(p) => Some(p as int),
                    None => None,
                },
                300,
            ),
    {
        match env_number(env_value, u64::MAX) {
            Some(v) => v,
            None => match self.server.cache_ttl_seconds {
                Some(p) => p,
                None => 300,
            },
        }
    }

    /// Resolve max page size (MAX_PAGE_SIZE > config file > 100)
    pub fn max_page_size(&self, env_value: Option<&str>) -> (r: usize)
        ensures
            r == resolve_number(
                env_value,
                usize::MAX as int,
                match self.server.max_page_size {
                    Some(p) => Some(p as int),
                    None => None,
                },
                100,
            ),
    {
        match env_number(env_value, usize::MAX as u64) {
            Some(v) => v as usize,
            None => match self.server.max_page_size {
                Some(p) => p,
                None => 100,
            },
        }
    }

    /// Resolve require auth (REQUIRE_AUTH > config file > false)
    pub fn require_auth(&self, env_value: Option<&str>) -> (r: bool)
        ensures
            r == (match env_value {
                Some(v) => v@ == "true"@ || v@ == "1"@,
                None => match self.server.require_auth {
                    Some(b) => b,
                    None => false,
                },
            }),
    {
        if let Some(v) = env_value {
            return str_eq(v, "true") || str_eq(v, "1");
        }
        match self.server.require_auth {
            Some(b) => b,
            None => false,
        }
    }

    /// Collect repos from all configured organizations, each listed short
    /// name expanded to `org-name/repo`.
    pub fn resolved_repos(&self) -> (r: Vec<RepoId>)
        requires
            all_repo_pairs(self.organizations@).len() <= usize::MAX,
        ensures
            repo_id_pairs(r@) == all_repo_pairs(self.organizations@),
    {
        let mut r: Vec<RepoId> = Vec::new();
        let mut i: usize = 0;
        assert(all_repo_pairs(self.organizations@.take(0)) =~= Seq::empty());
        while i < self.organizations.len()
            invariant
                i <= self.organizations.len(),
                repo_id_pairs(r@) == all_repo_pairs(self.organizations@.take(i as int)),
            decreases self.organizations.len() - i,
        {
            assert(self.organizations@.take(i + 1).drop_last() =~= self.organizations@.take(i as int));
            let org = &self.organizations[i];
            append_org_repos(&mut r, org);
            i = i + 1;
        }
        assert(self.organizations@.take(i as int) =~= self.organizations@);
        r
    }

    /// Collect repos for a single organization, matched case-insensitively.
    pub fn resolved_repos_for_org(&self, org: &str) -> (r: Vec<RepoId>)
        ensures
            repo_id_pairs(r@) == repo_pairs_for(self.organizations@, unicode_lower(org@)),
    {
        let org_lower = to_lowercase(org);
        let mut r: Vec<RepoId> = Vec::new();
        let mut i: usize = 0;
        assert(repo_pairs_for(self.organizations@.take(0), org_lower@) =~= Seq::empty());
        while i < self.organizations.len()
            invariant
                i <= self.organizations.len(),
                org_lower@ == unicode_lower(org@),
                repo_id_pairs(r@) == repo_pairs_for(self.organizations@.take(i as int), org_lower@),
            decreases self.organizations.len() - i,
        {
            assert(self.organizations@.take(i + 1).drop_last() =~= self.organizations@.take(i as int));
            let o = &self.organizations[i];
            let name_lower = to_lowercase(o.name.as_str());
            if name_lower == org_lower {
                append_org_repos(&mut r, o);
            } else {
                assert(repo_id_pairs(r@) =~= repo_pairs_for(self.organizations@.take(i + 1), org_lower@));
            }
            i = i + 1;
        }
        assert(self.organizations@.take(i as int) =~= self.organizations@);
        r
    }
}

proof fn lemma_org_index_prefix(orgs: Seq<OrgConfig>, i: int, lower: Seq<char>)
    requires
        1 <= i <= orgs.len(),
        org_index_lower(orgs.take(i - 1), lower) == -1,
        unicode_lower(orgs[i - 1].name@) == lower,
    ensures
        org_index_lower(orgs, lower) == i - 1,
    decreases orgs.len() - i,
{
    assert(orgs.take(i).drop_last() =~= orgs.take(i - 1));
    if i < orgs.len() {
        lemma_org_index_prefix_extend(orgs, i, lower);
    } else {
        assert(orgs.take(i) =~= orgs);
    }
}

proof fn lemma_org_index_prefix_extend(orgs: Seq<OrgConfig>, i: int, lower: Seq<char>)
    requires
        1 <= i <= orgs.len(),
        org_index_lower(orgs.take(i), lower) >= 0,
    ensures
        org_index_lower(orgs, lower) == org_index_lower(orgs.take(i), lower),
    decreases orgs.len() - i,
{
    if i < orgs.len() {
        assert(orgs.take(i + 1).drop_last() =~= orgs.take(i));
        lemma_org_index_prefix_extend(orgs, i + 1, lower);
    } else {
        assert(orgs.take(i) =~= orgs);
    }
}

fn append_org_repos(r: &mut Vec<RepoId>, org: &OrgConfig)
    ensures
        repo_id_pairs(final(r)@) == repo_id_pairs(old(r)@) + org_repo_pairs(*org),
{
    let ghost start = old(r)@;
    if let Some(repos) = &org.repos {
        let mut j: usize = 0;
        while j < repos.len()
            invariant
                j <= repos.len(),
                org.repos == Some(*repos),
                repo_id_pairs(r@) == repo_id_pairs(start) + org_repo_pairs(*org).take(j as int),
            decreases repos.len() - j,
        {
            let id = RepoId::new(org.name.as_str(), repos[j].as_str());
            let ghost before = r@;
            r.push(id);
            assert(repo_names(*org)[j as int] == repos@[j as int]@);
            assert(org_repo_pairs(*org)[j as int] == (org.name@, repos@[j as int]@));
            assert(org_repo_pairs(*org).take(j + 1) =~= org_repo_pairs(*org).take(j as int).push(
                (org.name@, repos@[j as int]@),
            ));
            assert(repo_id_pairs(r@) =~= repo_id_pairs(before).push((org.name@, repos@[j as int]@)));
            assert(repo_id_pairs(r@) =~= repo_id_pairs(start) + org_repo_pairs(*org).take(j + 1));
            j = j + 1;
        }
        assert(org_repo_pairs(*org).take(j as int) =~= org_repo_pairs(*org));
    } else {
        assert(repo_id_pairs(r@) =~= repo_id_pairs(start) + org_repo_pairs(*org));
    }
}

} // verus!

verus! {

/// What the configuration of an organization says: name, token, base URL, repositories.
pub type OrgView = (Seq<char>, Seq<char>, Option<Seq<char>>, Option<Seq<Seq<char>>>);

pub open spec fn org_view(o: OrgConfig) -> OrgView {
    (
        o.name@,
        o.token@,
        opt_view(o.base_url),
        match o.repos {
            Some(v) => Some(Seq::new(v@.len(), |j: int| v@[j]@)),
            None => None,
        },
    )
}

pub open spec fn orgs_view(s: Seq<OrgConfig>) -> Seq<OrgView> {
    Seq::new(s.len(), |i: int| org_view(s[i]))
}

/// The `(name, value)` pairs of a list of environment variables.
pub open spec fn vars_view(v: Seq<(String, String)>) -> Seq<(Seq<char>, Seq<char>)> {
    Seq::new(v.len(), |i: int| (v[i].0@, v[i].1@))
}

/// For a variable named `GREPORT_ORG_<ORG>_TOKEN`, the `<ORG>` part.
pub open spec fn env_org_upper(key: Seq<char>) -> Option<Seq<char>> {
    let p = "GREPORT_ORG_"@;
    let t = "_TOKEN"@;
    if has_prefix(key, p) && has_suffix(key.skip(p.len() as int), t) {
        Some(key.subrange(p.len() as int, key.len() - t.len()))
    } else {
        None
    }
}

/// The value of the first variable named `key`.
pub open spec fn env_lookup(env: Seq<(Seq<char>, Seq<char>)>, key: Seq<char>) -> Option<Seq<char>>
    decreases env.len(),
{
    if env.len() == 0 {
        None
    } else if env_lookup(env.drop_last(), key) is Some {
        env_lookup(env.drop_last(), key)
    } else if env.last().0 == key {
        Some(env.last().1)
    } else {
        None
    }
}

/// Index of the first organization named exactly `name` (-1 when none).
pub open spec fn org_position(orgs: Seq<OrgView>, name: Seq<char>) -> int
    decreases orgs.len(),
{
    if orgs.len() == 0 {
        -1
    } else if org_position(orgs.drop_last(), name) >= 0 {
        org_position(orgs.drop_last(), name)
    } else if orgs.last().0 == name {
        orgs.len() - 1
    } else {
        -1
    }
}

/// The organization name an `<ORG>` part stands for: lowercase, `_` read as `-`.
pub open spec fn env_org_name(upper: Seq<char>) -> Seq<char> {
    replace_char_seq(unicode_lower(upper), '_', '-')
}

/// The organizations after reading one variable `key=value` of the environment `env`:
/// a token variable sets the token of the organization of that name, or adds
/// the organization (with the base URL from `GREPORT_ORG_<ORG>_BASE_URL`);
/// other variables change nothing.
pub open spec fn apply_org_env_var(
    orgs: Seq<OrgView>,
    key: Seq<char>,
    value: Seq<char>,
    env: Seq<(Seq<char>, Seq<char>)>,
) -> Seq<OrgView> {
    match env_org_upper(key) {
        None => orgs,
        Some(upper) => {
            let name = env_org_name(upper);
            let k = org_position(orgs, name);
            if k >= 0 {
                orgs.update(k, (orgs[k].0, value, orgs[k].2, orgs[k].3))
            } else {
                orgs.push(
                    (name, value, env_lookup(env, "GREPORT_ORG_"@ + upper + "_BASE_URL"@), None),
                )
            }
        },
    }
}

/// The organizations after reading the variables `vars` in order.
pub open spec fn merged_org_env(
    orgs: Seq<OrgView>,
    vars: Seq<(Seq<char>, Seq<char>)>,
    env: Seq<(Seq<char>, Seq<char>)>,
) -> Seq<OrgView>
    decreases vars.len(),
{
    if vars.len() == 0 {
        orgs
    } else {
        apply_org_env_var(merged_org_env(orgs, vars.drop_last(), env), vars.last().0, vars.last().1, env)
    }
}

fn org_upper_of(key: &str) -> (r: Option<String>)
    ensures
        opt_view(r) == env_org_upper(key@),
{
    let kv = chars_of(key);
    let pv = chars_of("GREPORT_ORG_");
    let tv = chars_of("_TOKEN");
    if !chars_starts_with(kv.as_slice(), pv.as_slice()) {
        return None;
    }
    let rest = chars_slice(kv.as_slice(), pv.len(), kv.len());
    assert(rest@ =~= key@.skip(pv@.len() as int));
    if !chars_ends_with(rest.as_slice(), tv.as_slice()) {
        return None;
    }
    let upper = chars_range(kv.as_slice(), pv.len(), kv.len() - tv.len());
    Some(upper)
}

fn lookup_var(vars: &[(String, String)], key: &String) -> (r: Option<String>)
    ensures
        opt_view(r) == env_lookup(vars_view(vars@), key@),
{
    let ghost env = vars_view(vars@);
    let mut i: usize = 0;
    while i < vars.len()
        invariant
            i <= vars.len(),
            env == vars_view(vars@),
            env_lookup(env.take(i as int), key@) is None,
        decreases vars.len() - i,
    {
        assert(env.take(i + 1).drop_last() =~= env.take(i as int));
        if vars[i].0 == *key {
            proof {
                assert(env.take(i + 1).last() == (vars@[i as int].0@, vars@[i as int].1@));
                lemma_env_lookup_prefix(env, i + 1, key@);
            }
            return Some(vars[i].1.clone());
        }
        i = i + 1;
    }
    assert(env.take(i as int) =~= env);
    None
}

proof fn lemma_env_lookup_prefix(env: Seq<(Seq<char>, Seq<char>)>, i: int, key: Seq<char>)
    requires
        1 <= i <= env.len(),
        env_lookup(env.take(i), key) is Some,
    ensures
        env_lookup(env, key) == env_lookup(env.take(i), key),
    decreases env.len() - i,
{
    if i < env.len() {
        assert(env.take(i + 1).drop_last() =~= env.take(i));
        lemma_env_lookup_prefix(env, i + 1, key);
    } else {
        assert(env.take(i) =~= env);
    }
}

proof fn lemma_org_position_prefix(orgs: Seq<OrgView>, i: int, name: Seq<char>)
    requires
        0 <= i <= orgs.len(),
        org_position(orgs.take(i), name) >= 0,
    ensures
        org_position(orgs, name) == org_position(orgs.take(i), name),
    decreases orgs.len() - i,
{
    if i < orgs.len() {
        assert(orgs.take(i + 1).drop_last() =~= orgs.take(i));
        lemma_org_position_prefix(orgs, i + 1, name);
    } else {
        assert(orgs.take(i) =~= orgs);
    }
}

proof fn lemma_org_position_bounds(orgs: Seq<OrgView>, name: Seq<char>)
    ensures
        -1 <= org_position(orgs, name) < orgs.len(),
        org_position(orgs, name) >= 0 ==> orgs[org_position(orgs, name)].0 == name,
    decreases orgs.len(),
{
    if orgs.len() > 0 {
        lemma_org_position_bounds(orgs.drop_last(), name);
    }
}

fn copy_repos(o: &Option<Vec<String>>) -> (r: Option<Vec<String>>)
    ensures
        match (r, *o) {
            (Some(a), Some(b)) => Seq::new(a@.len(), |j: int| a@[j]@) == Seq::new(
                b@.len(),
                |j: int| b@[j]@,
            ),
            (None, None) => true,
            _ => false,
        },
{
    match o {
        Some(v) => {
            let mut out: Vec<String> = Vec::new();
            let mut j: usize = 0;
            while j < v.len()
                invariant
                    j <= v.len(),
                    out@.len() == j,
                    forall|k: int| 0 <= k < j ==> (#[trigger] out@[k])@ == v@[k]@,
                decreases v.len() - j,
            {
                out.push(v[j].clone());
                j = j + 1;
            }
            assert(Seq::new(out@.len(), |j: int| out@[j]@) =~= Seq::new(v@.len(), |j: int| v@[j]@));
            Some(out)
        },
        None => None,
    }
}

impl Config {
    /// Merges `GREPORT_ORG_<ORG>_TOKEN` variables into the organizations. `vars`
    /// are the variables of the environment (name, value), in the order in which
    /// they are read.
    pub fn merge_org_env_vars(&mut self, vars: &[(String, String)])
        ensures
            orgs_view(final(self).organizations@) == merged_org_env(
                orgs_view(old(self).organizations@),
                vars_view(vars@),
                vars_view(vars@),
            ),
            final(self).github == old(self).github,
            final(self).defaults == old(self).defaults,
            final(self).sla == old(self).sla,
            final(self).database == old(self).database,
            final(self).server == old(self).server,
            final(self).logging == old(self).logging,
    {
        let ghost env = vars_view(vars@);
        let ghost start = orgs_view(self.organizations@);
        let mut i: usize = 0;
        assert(vars_view(vars@).take(0) =~= Seq::<(Seq<char>, Seq<char>)>::empty());
        while i < vars.len()
            invariant
                i <= vars.len(),
                env == vars_view(vars@),
                orgs_view(self.organizations@) == merged_org_env(start, env.take(i as int), env),
                self.github == old(self).github,
                self.defaults == old(self).defaults,
                self.sla == old(self).sla,
                self.database == old(self).database,
                self.server == old(self).server,
                self.logging == old(self).logging,
            decreases vars.len() - i,
        {
            assert(env.take(i + 1).drop_last() =~= env.take(i as int));
            assert(env.take(i + 1).last() == (vars@[i as int].0@, vars@[i as int].1@));
            let key = &vars[i].0;
            let value = &vars[i].1;
            let ghost before = orgs_view(self.organizations@);
            match org_upper_of(key.as_str()) {
                None => {
                    assert(orgs_view(self.organizations@) == apply_org_env_var(before, key@, value@, env));
                },
                Some(upper) => {
                    let lower = to_lowercase(upper.as_str());
                    let org_name = replace_char(lower.as_str(), '_', '-');
                    assert(org_name@ == env_org_name(upper@));
                    let mut j: usize = 0;
                    let mut found = false;
                    while j < self.organizations.len()
                        invariant_except_break
                            !found,
                        invariant
                            j <= self.organizations.len(),
                            before == orgs_view(self.organizations@),
                            org_position(before.take(j as int), org_name@) == -1,
                        ensures
                            found ==> j < self.organizations.len() && self.organizations@[j as int].name@
                                == org_name@,
                            !found ==> j == self.organizations.len(),
                        decreases self.organizations.len() - j,
                    {
                        assert(before.take(j + 1).drop_last() =~= before.take(j as int));
                        if self.organizations[j].name == org_name {
                            found = true;
                            break;
                        }
                        j = j + 1;
                    }
                    if found {
                        proof {
                            assert(before.take(j + 1).drop_last() =~= before.take(j as int));
                            assert(before[j as int].0 == org_name@);
                            assert(before.take(j + 1).last() == before[j as int]);
                            assert(org_position(before.take(j + 1), org_name@) == j);
                            lemma_org_position_prefix(before, j + 1, org_name@);
                        }
                        let old_org = &self.organizations[j];
                        let updated = OrgConfig {
                            name: old_org.name.clone(),
                            token: value.clone(),
                            base_url: copy_opt_string(&old_org.base_url),
                            repos: copy_repos(&old_org.repos),
                        };
                        self.organizations.set(j, updated);
                        assert(orgs_view(self.organizations@) =~= before.update(
                            j as int,
                            (before[j as int].0, value@, before[j as int].2, before[j as int].3),
                        ));
                        assert(org_position(before, env_org_name(upper@)) == j);
                        assert(orgs_view(self.organizations@) == apply_org_env_var(before, key@, value@, env));
                    } else {
                        assert(before.take(j as int) =~= before);
                        let mut base_key = String::from_str("GREPORT_ORG_");
                        push_str(&mut base_key, upper.as_str());
                        push_str(&mut base_key, "_BASE_URL");
                        let base_url = lookup_var(vars, &base_key);
                        self.organizations.push(
                            OrgConfig { name: org_name, token: value.clone(), base_url, repos: None },
                        );
                        assert(orgs_view(self.organizations@) =~= before.push(
                            (
                                env_org_name(upper@),
                                value@,
                                env_lookup(env, "GREPORT_ORG_"@ + upper@ + "_BASE_URL"@),
                                None,
                            ),
                        ));
                        assert(org_position(before, env_org_name(upper@)) == -1);
                        assert(orgs_view(self.organizations@) == apply_org_env_var(before, key@, value@, env));
                    }
                },
            }
            assert(orgs_view(self.organizations@) == apply_org_env_var(before, key@, value@, env));
            assert(merged_org_env(start, env.take(i + 1), env) == apply_org_env_var(
                merged_org_env(start, env.take(i as int), env),
                key@,
                value@,
                env,
            ));
            i = i + 1;
        }
        assert(env.take(vars.len() as int) =~= env);
    }
}

/// The owner of a repository pair has the lowercase name `lower`.
pub open spec fn owned_by(lower: Seq<char>) -> spec_fn((Seq<char>, Seq<char>)) -> bool {
    |p: (Seq<char>, Seq<char>)| unicode_lower(p.0) == lower
}

proof fn lemma_filter_uniform(s: Seq<(Seq<char>, Seq<char>)>, pred: spec_fn((Seq<char>, Seq<char>)) -> bool, b: bool)
    requires
        forall|i: int| 0 <= i < s.len() ==> pred(#[trigger] s[i]) == b,
    ensures
        s.filter(pred) == (if b {
            s
        } else {
            Seq::empty()
        }),
    decreases s.len(),
{
    reveal(Seq::filter);
    if s.len() > 0 {
        assert forall|i: int| 0 <= i < s.drop_last().len() implies pred(#[trigger] s.drop_last()[i]) == b by {
            assert(s.drop_last()[i] == s[i]);
        }
        lemma_filter_uniform(s.drop_last(), pred, b);
        assert(s.last() == s[s.len() - 1]);
        if b {
            assert(s.drop_last().push(s.last()) =~= s);
        }
    }
}

/// The repositories resolved for one organization are exactly those resolved
/// for all organizations whose owner has that lowercase name, in the same
/// order.
pub proof fn law_org_repos_are_filtered(orgs: Seq<OrgConfig>, lower: Seq<char>)
    ensures
        repo_pairs_for(orgs, lower) == all_repo_pairs(orgs).filter(owned_by(lower)),
    decreases orgs.len(),
{
    if orgs.len() > 0 {
        let rest = orgs.drop_last();
        let own = org_repo_pairs(orgs.last());
        law_org_repos_are_filtered(rest, lower);
        Seq::filter_distributes_over_add(all_repo_pairs(rest), own, owned_by(lower));
        let b = unicode_lower(orgs.last().name@) == lower;
        assert forall|i: int| 0 <= i < own.len() implies owned_by(lower)(#[trigger] own[i]) == b by {
            assert(own[i].0 == orgs.last().name@);
        }
        lemma_filter_uniform(own, owned_by(lower), b);
    } else {
        reveal(Seq::filter);
    }
}

/// The repositories resolved for one organization are among those resolved
/// for all organizations.
pub proof fn law_org_repos_among_all(orgs: Seq<OrgConfig>, lower: Seq<char>, p: (Seq<char>, Seq<char>))
    requires
        repo_pairs_for(orgs, lower).contains(p),
    ensures
        all_repo_pairs(orgs).contains(p),
    decreases orgs.len(),
{
    let rest = orgs.drop_last();
    let a = repo_pairs_for(rest, lower);
    let own = if unicode_lower(orgs.last().name@) == lower {
        org_repo_pairs(orgs.last())
    } else {
        Seq::empty()
    };
    let k = choose|k: int| 0 <= k < (a + own).len() && (a + own)[k] == p;
    let all_rest = all_repo_pairs(rest);
    if k < a.len() {
        assert(a[k] == p);
        law_org_repos_among_all(rest, lower, p);
        let m = choose|m: int| 0 <= m < all_rest.len() && all_rest[m] == p;
        assert((all_rest + org_repo_pairs(orgs.last()))[m] == p);
    } else {
        assert(own[k - a.len()] == p);
        assert((all_rest + org_repo_pairs(orgs.last()))[all_rest.len() + k - a.len()] == p);
    }
}

/// The organization a variable sets the token of, if it is a token variable.
pub open spec fn token_var_org(key: Seq<char>) -> Option<Seq<char>> {
    match env_org_upper(key) {
        Some(upper) => Some(env_org_name(upper)),
        None => None,
    }
}

/// The value of the last token variable in `vars` for the organization `name`.
pub open spec fn last_token_for(vars: Seq<(Seq<char>, Seq<char>)>, name: Seq<char>) -> Option<Seq<char>>
    decreases vars.len(),
{
    if vars.len() == 0 {
        None
    } else if token_var_org(vars.last().0) == Some(name) {
        Some(vars.last().1)
    } else {
        last_token_for(vars.drop_last(), name)
    }
}

/// Two lists of organizations that hold the same names in the same places.
pub open spec fn same_names(a: Seq<OrgView>, b: Seq<OrgView>) -> bool {
    &&& a.len() == b.len()
    &&& forall|i: int| 0 <= i < a.len() ==> (#[trigger] a[i]).0 == b[i].0
}

proof fn lemma_org_position_same_names(a: Seq<OrgView>, b: Seq<OrgView>, name: Seq<char>)
    requires
        same_names(a, b),
    ensures
        org_position(a, name) == org_position(b, name),
    decreases a.len(),
{
    if a.len() > 0 {
        assert(same_names(a.drop_last(), b.drop_last()));
        lemma_org_position_same_names(a.drop_last(), b.drop_last(), name);
    }
}

proof fn lemma_org_position_found(orgs: Seq<OrgView>, k: int)
    requires
        0 <= k < orgs.len(),
    ensures
        0 <= org_position(orgs, orgs[k].0) <= k,
    decreases orgs.len(),
{
    if k < orgs.len() - 1 {
        lemma_org_position_found(orgs.drop_last(), k);
    } else {
        lemma_org_position_bounds(orgs.drop_last(), orgs[k].0);
    }
}

proof fn lemma_org_position_push(orgs: Seq<OrgView>, x: OrgView, name: Seq<char>)
    requires
        org_position(orgs, name) >= 0,
    ensures
        org_position(orgs.push(x), name) == org_position(orgs, name),
{
    assert(orgs.push(x).drop_last() =~= orgs);
}

/// Reading token variables whose organizations are all present changes only
/// tokens: each organization found first under its name takes the last value
/// given for that name.
proof fn lemma_merge_present(
    orgs: Seq<OrgView>,
    vars: Seq<(Seq<char>, Seq<char>)>,
    env: Seq<(Seq<char>, Seq<char>)>,
)
    requires
        forall|i: int|
            0 <= i < vars.len() && (#[trigger] token_var_org(vars[i].0)) is Some ==> org_position(
                orgs,
                token_var_org(vars[i].0)->0,
            ) >= 0,
    ensures
        same_names(merged_org_env(orgs, vars, env), orgs),
        forall|k: int|
            0 <= k < orgs.len() ==> {
                let m = #[trigger] merged_org_env(orgs, vars, env)[k];
                &&& m.2 == orgs[k].2
                &&& m.3 == orgs[k].3
                &&& m.1 == (if org_position(orgs, orgs[k].0) == k && last_token_for(
                    vars,
                    orgs[k].0,
                ) is Some {
                    last_token_for(vars, orgs[k].0)->0
                } else {
                    orgs[k].1
                })
            },
    decreases vars.len(),
{
    if vars.len() > 0 {
        let rest = vars.drop_last();
        assert forall|i: int|
            0 <= i < rest.len() && (#[trigger] token_var_org(rest[i].0)) is Some implies org_position(
            orgs,
            token_var_org(rest[i].0)->0,
        ) >= 0 by {
            assert(rest[i] == vars[i]);
        }
        lemma_merge_present(orgs, rest, env);
        let prev = merged_org_env(orgs, rest, env);
        let key = vars.last().0;
        let value = vars.last().1;
        assert(vars.last() == vars[vars.len() - 1]);
        match env_org_upper(key) {
            None => {
                assert(token_var_org(key) is None);
            },
            Some(upper) => {
                let nm = env_org_name(upper);
                assert(token_var_org(vars[vars.len() - 1].0) == Some(nm));
                lemma_org_position_same_names(prev, orgs, nm);
                let k0 = org_position(orgs, nm);
                lemma_org_position_bounds(orgs, nm);
                let cur = merged_org_env(orgs, vars, env);
                assert(cur == prev.update(k0, (prev[k0].0, value, prev[k0].2, prev[k0].3)));
                assert forall|k: int| 0 <= k < orgs.len() implies (#[trigger] cur[k]).0 == orgs[k].0 by {
                    assert(prev[k].0 == orgs[k].0);
                }
                assert forall|k: int|
                    0 <= k < orgs.len() implies {
                    let m = #[trigger] merged_org_env(orgs, vars, env)[k];
                    &&& m.2 == orgs[k].2
                    &&& m.3 == orgs[k].3
                    &&& m.1 == (if org_position(orgs, orgs[k].0) == k && last_token_for(
                        vars,
                        orgs[k].0,
                    ) is Some {
                        last_token_for(vars, orgs[k].0)->0
                    } else {
                        orgs[k].1
                    })
                } by {
                    assert(prev[k] == merged_org_env(orgs, rest, env)[k]);
                    if orgs[k].0 != nm {
                        assert(last_token_for(vars, orgs[k].0) == last_token_for(rest, orgs[k].0));
                    }
                }
            },
        }
    }
}


/// After reading `vars`, every organization a token variable names is present,
/// and each organization found first under its name holds the last value given
/// for that name.
proof fn lemma_merge_settles(
    orgs: Seq<OrgView>,
    vars: Seq<(Seq<char>, Seq<char>)>,
    env: Seq<(Seq<char>, Seq<char>)>,
)
    ensures
        forall|i: int|
            0 <= i < vars.len() && (#[trigger] token_var_org(vars[i].0)) is Some ==> org_position(
                merged_org_env(orgs, vars, env),
                token_var_org(vars[i].0)->0,
            ) >= 0,
        forall|k: int|
            0 <= k < merged_org_env(orgs, vars, env).len() && org_position(
                merged_org_env(orgs, vars, env),
                merged_org_env(orgs, vars, env)[k].0,
            ) == k && (#[trigger] last_token_for(vars, merged_org_env(orgs, vars, env)[k].0)) is Some
                ==> merged_org_env(orgs, vars, env)[k].1 == last_token_for(
                vars,
                merged_org_env(orgs, vars, env)[k].0,
            )->0,
    decreases vars.len(),
{
    if vars.len() > 0 {
        let rest = vars.drop_last();
        lemma_merge_settles(orgs, rest, env);
        let prev = merged_org_env(orgs, rest, env);
        let cur = merged_org_env(orgs, vars, env);
        let key = vars.last().0;
        let value = vars.last().1;
        assert(vars.last() == vars[vars.len() - 1]);
        match env_org_upper(key) {
            None => {
                assert(token_var_org(key) is None);
                assert(cur == prev);
                assert forall|i: int|
                    0 <= i < vars.len() && (#[trigger] token_var_org(vars[i].0)) is Some implies org_position(
                    cur,
                    token_var_org(vars[i].0)->0,
                ) >= 0 by {
                    if i < rest.len() {
                        assert(rest[i] == vars[i]);
                    }
                }
                assert forall|k: int|
                    0 <= k < cur.len() && org_position(cur, cur[k].0) == k && (#[trigger] last_token_for(
                        vars,
                        cur[k].0,
                    )) is Some implies cur[k].1 == last_token_for(vars, cur[k].0)->0 by {
                    assert(last_token_for(vars, cur[k].0) == last_token_for(rest, cur[k].0));
                }
            },
            Some(upper) => {
                let nm = env_org_name(upper);
                assert(token_var_org(key) == Some(nm));
                let k0 = org_position(prev, nm);
                lemma_org_position_bounds(prev, nm);
                if k0 >= 0 {
                    assert(cur == prev.update(k0, (prev[k0].0, value, prev[k0].2, prev[k0].3)));
                    assert(same_names(cur, prev));
                    assert forall|n: Seq<char>| #[trigger] org_position(cur, n) == org_position(prev, n) by {
                        lemma_org_position_same_names(cur, prev, n);
                    }
                    assert forall|i: int|
                        0 <= i < vars.len() && (#[trigger] token_var_org(vars[i].0)) is Some implies org_position(
                        cur,
                        token_var_org(vars[i].0)->0,
                    ) >= 0 by {
                        if i < rest.len() {
                            assert(rest[i] == vars[i]);
                        }
                    }
                    assert forall|k: int|
                        0 <= k < cur.len() && org_position(cur, cur[k].0) == k && (#[trigger] last_token_for(
                            vars,
                            cur[k].0,
                        )) is Some implies cur[k].1 == last_token_for(vars, cur[k].0)->0 by {
                        if k != k0 {
                            assert(cur[k] == prev[k]);
                            if cur[k].0 != nm {
                                assert(last_token_for(vars, cur[k].0) == last_token_for(rest, cur[k].0));
                            }
                        }
                    }
                } else {
                    let added = (nm, value, env_lookup(env, "GREPORT_ORG_"@ + upper + "_BASE_URL"@), None);
                    assert(cur == prev.push(added));
                    assert(cur.drop_last() =~= prev);
                    assert forall|i: int|
                        0 <= i < vars.len() && (#[trigger] token_var_org(vars[i].0)) is Some implies org_position(
                        cur,
                        token_var_org(vars[i].0)->0,
                    ) >= 0 by {
                        if i < rest.len() {
                            assert(rest[i] == vars[i]);
                            let n = token_var_org(vars[i].0)->0;
                            if n != nm {
                                lemma_org_position_push(prev, added, n);
                            }
                        }
                    }
                    assert forall|k: int|
                        0 <= k < cur.len() && org_position(cur, cur[k].0) == k && (#[trigger] last_token_for(
                            vars,
                            cur[k].0,
                        )) is Some implies cur[k].1 == last_token_for(vars, cur[k].0)->0 by {
                        if k < prev.len() {
                            assert(cur[k] == prev[k]);
                            lemma_org_position_found(prev, k);
                            lemma_org_position_push(prev, added, prev[k].0);
                            if prev[k].0 == nm {
                                lemma_org_position_bounds(prev, nm);
                            }
                            assert(prev[k].0 != nm);
                            assert(last_token_for(vars, cur[k].0) == last_token_for(rest, cur[k].0));
                        }
                    }
                }
            },
        }
    }
}

/// Reading the same environment a second time changes nothing: merging the
/// token variables into organizations that already hold them gives the same
/// organizations back.
pub proof fn law_merge_org_env_idempotent(
    orgs: Seq<OrgView>,
    vars: Seq<(Seq<char>, Seq<char>)>,
    env: Seq<(Seq<char>, Seq<char>)>,
)
    ensures
        merged_org_env(merged_org_env(orgs, vars, env), vars, env) == merged_org_env(orgs, vars, env),
{
    let once = merged_org_env(orgs, vars, env);
    lemma_merge_settles(orgs, vars, env);
    lemma_merge_present(once, vars, env);
    let twice = merged_org_env(once, vars, env);
    assert forall|k: int| 0 <= k < once.len() implies #[trigger] twice[k] == once[k] by {
        assert(twice[k].0 == once[k].0);
    }
    assert(twice =~= once);
}


} // verus!
