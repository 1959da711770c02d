//! GitHub client registry for multi-organization support
use vstd::prelude::*;

use crate::client::RepoId;
use crate::config::{Config, OrgConfig};
use crate::error::Error;
use crate::text::{
    chars_of, replace_char, replace_char_seq, str_eq, to_lowercase, to_uppercase, unicode_lower,
    unicode_upper,
};

verus! {

/// Summary metadata about a configured organization.
#[derive(Debug, Clone)]
pub struct OrgEntry {
    /// Organization name
    pub name: String,
    /// GitHub API base URL (None = public github.com)
    pub base_url: Option<String>,
    /// Number of configured repos
    pub repo_count: usize,
    /// Configured repository names
    pub repo_names: Vec<String>,
    /// Whether a token is configured
    pub has_token: bool,
}

/// Registry of GitHub clients (of type `C`), one per organization.
///
/// The registry resolves the correct client for a given organization or
/// repository. It supports:
/// - Case-insensitive org name matching
/// - Default client fallback for unconfigured orgs
pub struct GitHubClientRegistry<C> {
    /// Clients keyed by lowercase organization name; no key occurs twice
    clients: Vec<(String, C)>,
    default_client: Option<C>,
    org_entries: Vec<OrgEntry>,
}

/// The client stored under `key`: that of the first entry with this key.
pub open spec fn lookup<C>(entries: Seq<(String, C)>, key: Seq<char>) -> Option<C>
    decreases entries.len(),
{
    if entries.len() == 0 {
        None
    } else if entries[0].0@ == key {
        Some(entries[0].1)
    } else {
        lookup(entries.drop_first(), key)
    }
}

/// The client of the last organization whose lowercase name is `key`, the
/// clients given one per organization (a later organization of the same name
/// replaces an earlier one).
pub open spec fn last_client_for<C>(orgs: Seq<OrgConfig>, clients: Seq<C>, key: Seq<char>) -> Option<C>
    decreases orgs.len(),
{
    if orgs.len() == 0 || clients.len() != orgs.len() {
        None
    } else if unicode_lower(orgs.last().name@) == key {
        Some(clients.last())
    } else {
        last_client_for(orgs.drop_last(), clients.drop_last(), key)
    }
}

/// The keys of the entries, in order.
pub open spec fn entry_keys<C>(entries: Seq<(String, C)>) -> Seq<Seq<char>> {
    entries.map_values(|e: (String, C)| e.0@)
}

/// The characters of each string slice.
pub open spec fn str_views(v: Seq<&str>) -> Seq<Seq<char>> {
    v.map_values(|s: &str| s@)
}

/// The environment variable suffix named for an organization: uppercase, with
/// `_` for `-`.
pub open spec fn org_env_var(org: Seq<char>) -> Seq<char> {
    replace_char_seq(unicode_upper(org), '-', '_')
}

/// The entry summarizes the organization's configuration.
pub open spec fn org_entry_of(e: OrgEntry, o: OrgConfig) -> bool {
    &&& e.name@ == o.name@
    &&& e.base_url == o.base_url
    &&& match o.repos {
        Some(r) => e.repo_count == r@.len() && e.repo_names@ == r@,
        None => e.repo_count == 0 && e.repo_names@.len() == 0,
    }
    &&& e.has_token == (o.token@.len() > 0)
}

impl<C> GitHubClientRegistry<C> {
    /// The client configured for the lowercase organization name `key`.
    pub closed spec fn client_for(&self, key: Seq<char>) -> Option<C> {
        lookup(self.clients@, key)
    }

    /// The default client.
    pub closed spec fn default_spec(&self) -> Option<C> {
        self.default_client
    }

    /// The lowercase names of the configured organizations, in order.
    pub closed spec fn org_keys(&self) -> Seq<Seq<char>> {
        entry_keys(self.clients@)
    }

    /// The metadata entries.
    pub closed spec fn entries(&self) -> Seq<OrgEntry> {
        self.org_entries@
    }

    /// The client an organization resolves to: its own, else the default.
    pub open spec fn resolve(&self, org: Seq<char>) -> Option<C> {
        match self.client_for(unicode_lower(org)) {
            Some(c) => Some(c),
            None => self.default_spec(),
        }
    }

    /// No organization key occurs twice, and each is the key of its client.
    pub closed spec fn wf(&self) -> bool {
        &&& forall|i: int, j: int|
            0 <= i < j < self.clients@.len() ==> #[trigger] self.clients@[i].0@ != #[trigger] self.clients@[j].0@
        &&& forall|i: int|
            0 <= i < self.clients@.len() ==> lookup(self.clients@, #[trigger] self.clients@[i].0@) == Some(
                self.clients@[i].1,
            )
    }

    /// Create a registry with only a default client (no per-org entries).
    pub fn with_default(client: C) -> (r: Self)
        ensures
            r.wf(),
            r.default_spec() == Some(client),
            r.org_keys().len() == 0,
            forall|k: Seq<char>| r.client_for(k) is None,
            r.entries().len() == 0,
    {
        GitHubClientRegistry { clients: Vec::new(), default_client: Some(client), org_entries: Vec::new() }
    }
}

/// Looking up an entry's own key finds it when no key occurs twice.
proof fn lemma_lookup_distinct<C>(entries: Seq<(String, C)>, i: int)
    requires
        0 <= i < entries.len(),
        forall|a: int, b: int| 0 <= a < b < entries.len() ==> #[trigger] entries[a].0@ != #[trigger] entries[b].0@,
    ensures
        lookup(entries, entries[i].0@) == Some(entries[i].1),
    decreases i,
{
    if i > 0 {
        assert(entries[0].0@ != entries[i].0@);
        lemma_lookup_distinct(entries.drop_first(), i - 1);
    }
}

/// No entry with the key: the lookup finds nothing.
proof fn lemma_lookup_absent<C>(entries: Seq<(String, C)>, key: Seq<char>)
    requires
        forall|a: int| 0 <= a < entries.len() ==> #[trigger] entries[a].0@ != key,
    ensures
        lookup(entries, key) is None,
    decreases entries.len(),
{
    if entries.len() > 0 {
        assert(entries[0].0@ != key);
        lemma_lookup_absent(entries.drop_first(), key);
    }
}

/// The first entry with the key is found.
proof fn lemma_lookup_first<C>(entries: Seq<(String, C)>, key: Seq<char>, p: int)
    requires
        0 <= p < entries.len(),
        entries[p].0@ == key,
        forall|a: int| 0 <= a < p ==> #[trigger] entries[a].0@ != key,
    ensures
        lookup(entries, key) == Some(entries[p].1),
    decreases p,
{
    if p > 0 {
        assert(entries[0].0@ != key);
        lemma_lookup_first(entries.drop_first(), key, p - 1);
    }
}

/// Replacing the client of the first entry with a key changes that key's
/// lookup only.
proof fn lemma_lookup_update<C>(entries: Seq<(String, C)>, p: int, e: (String, C), key: Seq<char>)
    requires
        0 <= p < entries.len(),
        e.0@ == entries[p].0@,
        forall|a: int| 0 <= a < p ==> #[trigger] entries[a].0@ != e.0@,
    ensures
        lookup(entries.update(p, e), key) == if key == e.0@ {
            Some(e.1)
        } else {
            lookup(entries, key)
        },
    decreases p,
{
    if p == 0 {
        assert(entries.update(p, e).drop_first() =~= entries.drop_first());
    } else {
        assert(entries.update(p, e).drop_first() =~= entries.drop_first().update(p - 1, e));
        assert(entries[0].0@ != e.0@);
        lemma_lookup_update(entries.drop_first(), p - 1, e, key);
    }
}

/// Appending an entry whose key is new changes that key's lookup only.
proof fn lemma_lookup_push<C>(entries: Seq<(String, C)>, e: (String, C), key: Seq<char>)
    requires
        forall|a: int| 0 <= a < entries.len() ==> #[trigger] entries[a].0@ != e.0@,
    ensures
        lookup(entries.push(e), key) == if key == e.0@ {
            Some(e.1)
        } else {
            lookup(entries, key)
        },
    decreases entries.len(),
{
    let pushed = entries.push(e);
    assert(pushed[entries.len() as int] == e);
    if entries.len() == 0 {
        assert(pushed.drop_first() =~= Seq::<(String, C)>::empty());
        assert(pushed[0] == e);
        assert(lookup(pushed.drop_first(), key) is None);
    } else {
        assert(pushed.drop_first() =~= entries.drop_first().push(e));
        assert(pushed[0] == entries[0]);
        assert(entries[0].0@ != e.0@);
        lemma_lookup_push(entries.drop_first(), e, key);
    }
}

fn make_entry(o: &OrgConfig) -> (e: OrgEntry)
    ensures
        org_entry_of(e, *o),
{
    let (repo_count, repo_names) = match &o.repos {
        Some(r) => (r.len(), r.clone()),
        None => (0, Vec::new()),
    };
    OrgEntry {
        name: o.name.clone(),
        base_url: o.base_url.clone(),
        repo_count,
        repo_names,
        has_token: chars_of(o.token.as_str()).len() > 0,
    }
}

impl<C> GitHubClientRegistry<C> {
    /// Build a registry from the application config and the clients made for
    /// it: one per `[[organizations]]` entry, in order, and the default client
    /// from the `[github]` token when there is one. Fails with `MissingToken`
    /// when there is neither a default client nor any organization.
    pub fn from_clients(config: &Config, org_clients: Vec<C>, default_client: Option<C>) -> (r: Result<
        Self,
        Error,
    >)
        requires
            org_clients@.len() == config.organizations@.len(),
        ensures
            (default_client is None && config.organizations@.len() == 0) <==> r matches Err(
                Error::MissingToken,
            ),
            r is Ok || r matches Err(Error::MissingToken),
            r matches Ok(reg) ==> {
                &&& reg.wf()
                &&& reg.default_spec() == default_client
                &&& forall|k: Seq<char>| #[trigger] reg.client_for(k) == last_client_for(
                    config.organizations@,
                    org_clients@,
                    k,
                )
                &&& forall|k: Seq<char>| #[trigger] reg.org_keys().contains(k) <==> exists|j: int|
                    0 <= j < config.organizations@.len() && k == unicode_lower(
                        #[trigger] config.organizations@[j].name@,
                    )
                &&& reg.entries().len() == config.organizations@.len()
                &&& forall|j: int|
                    0 <= j < reg.entries().len() ==> org_entry_of(
                        #[trigger] reg.entries()[j],
                        config.organizations@[j],
                    )
            },
    {
        let ghost orgs = config.organizations@;
        let ghost given = org_clients@;
        let mut clients: Vec<(String, C)> = Vec::new();
        let mut org_entries: Vec<OrgEntry> = Vec::new();
        let mut remaining = org_clients;
        // Take the clients from the back, so walk the organizations backwards
        // into a list, then insert in order.
        let mut rev: Vec<C> = Vec::new();
        while remaining.len() > 0
            invariant
                remaining@.len() + rev@.len() == given.len(),
                forall|a: int| 0 <= a < remaining@.len() ==> #[trigger] remaining@[a] == given[a],
                forall|a: int|
                    0 <= a < rev@.len() ==> #[trigger] rev@[a] == given[given.len() - 1 - a],
            decreases remaining@.len(),
        {
            let c = remaining.pop().unwrap();
            rev.push(c);
        }
        let mut i: usize = 0;
        while i < config.organizations.len()
            invariant
                orgs == config.organizations@,
                given.len() == orgs.len(),
                i <= orgs.len(),
                rev@.len() == orgs.len() - i,
                forall|a: int| 0 <= a < rev@.len() ==> #[trigger] rev@[a] == given[given.len() - 1 - a],
                forall|a: int, b: int| 0 <= a < b < clients@.len() ==> #[trigger] clients@[a].0@ != #[trigger] clients@[b].0@,
                forall|k: Seq<char>| #[trigger] lookup(clients@, k) == last_client_for(
                    orgs.take(i as int),
                    given.take(i as int),
                    k,
                ),
                forall|k: Seq<char>| #[trigger] entry_keys(clients@).contains(k) <==> exists|j: int|
                    0 <= j < i && k == unicode_lower(#[trigger] orgs[j].name@),
                org_entries@.len() == i,
                forall|j: int| 0 <= j < i ==> org_entry_of(#[trigger] org_entries@[j], orgs[j]),
            decreases orgs.len() - i,
        {
            let org = &config.organizations[i];
            let c = rev.pop().unwrap();
            assert(c == given[i as int]);
            let key = to_lowercase(org.name.as_str());
            // The first entry under this key, if any
            let mut p: usize = 0;
            while p < clients.len()
                invariant
                    p <= clients@.len(),
                    forall|a: int| 0 <= a < p ==> #[trigger] clients@[a].0@ != key@,
                ensures
                    p <= clients@.len(),
                    forall|a: int| 0 <= a < p ==> #[trigger] clients@[a].0@ != key@,
                    p < clients@.len() ==> clients@[p as int].0@ == key@,
                decreases clients@.len() - p,
            {
                if str_eq(clients[p].0.as_str(), key.as_str()) {
                    break;
                }
                p = p + 1;
            }
            let ghost before = clients@;
            let ghost k_new = key@;
            proof {
                assert(orgs.take(i + 1).drop_last() =~= orgs.take(i as int));
                assert(given.take(i + 1).drop_last() =~= given.take(i as int));
                assert(orgs.take(i + 1).last() == orgs[i as int]);
                assert(given.take(i + 1).last() == given[i as int]);
            }
            if p < clients.len() {
                let ghost e = (key, c);
                clients.set(p, (key, c));
                proof {
                    assert forall|k: Seq<char>| #[trigger] lookup(clients@, k) == last_client_for(
                        orgs.take(i + 1),
                        given.take(i + 1),
                        k,
                    ) by {
                        lemma_lookup_update(before, p as int, clients@[p as int], k);
                    }
                    assert(entry_keys(clients@) =~= entry_keys(before));
                    assert(entry_keys(before)[p as int] == k_new);
                    assert forall|k: Seq<char>| #[trigger] entry_keys(clients@).contains(k) <==> exists|j: int|
                        0 <= j < i + 1 && k == unicode_lower(#[trigger] orgs[j].name@) by {
                        let old_has = entry_keys(before).contains(k);
                        assert(old_has <==> exists|j: int| 0 <= j < i && k == unicode_lower(#[trigger] orgs[j].name@));
                        if exists|j: int| 0 <= j < i + 1 && k == unicode_lower(#[trigger] orgs[j].name@) {
                            let j = choose|j: int| 0 <= j < i + 1 && k == unicode_lower(#[trigger] orgs[j].name@);
                            if j == i {
                                assert(k == k_new);
                            } else {
                                assert(old_has);
                            }
                        }
                        if old_has {
                            let j = choose|j: int| 0 <= j < i && k == unicode_lower(#[trigger] orgs[j].name@);
                            assert(0 <= j < i + 1 && k == unicode_lower(orgs[j].name@));
                        }
                    }
                }
            } else {
                clients.push((key, c));
                proof {
                    assert forall|k: Seq<char>| #[trigger] lookup(clients@, k) == last_client_for(
                        orgs.take(i + 1),
                        given.take(i + 1),
                        k,
                    ) by {
                        lemma_lookup_push(before, clients@[before.len() as int], k);
                    }
                    assert(entry_keys(clients@) =~= entry_keys(before).push(k_new));
                    assert forall|k: Seq<char>| #[trigger] entry_keys(clients@).contains(k) <==> exists|j: int|
                        0 <= j < i + 1 && k == unicode_lower(#[trigger] orgs[j].name@) by {
                        let old_has = entry_keys(before).contains(k);
                        assert(old_has <==> exists|j: int| 0 <= j < i && k == unicode_lower(#[trigger] orgs[j].name@));
                        let now_keys = entry_keys(clients@);
                        if now_keys.contains(k) {
                            let a = choose|a: int| 0 <= a < now_keys.len() && now_keys[a] == k;
                            if a < before.len() {
                                assert(entry_keys(before)[a] == k);
                                assert(old_has);
                                let j = choose|j: int| 0 <= j < i && k == unicode_lower(#[trigger] orgs[j].name@);
                                assert(0 <= j < i + 1 && k == unicode_lower(orgs[j].name@));
                            } else {
                                assert(k == k_new);
                                assert(k == unicode_lower(orgs[i as int].name@));
                            }
                        }
                        if exists|j: int| 0 <= j < i + 1 && k == unicode_lower(#[trigger] orgs[j].name@) {
                            let j = choose|j: int| 0 <= j < i + 1 && k == unicode_lower(#[trigger] orgs[j].name@);
                            if j == i {
                                assert(k == k_new);
                                assert(now_keys[before.len() as int] == k);
                            } else {
                                assert(old_has);
                                let a = choose|a: int| 0 <= a < entry_keys(before).len() && entry_keys(before)[a] == k;
                                assert(now_keys[a] == k);
                            }
                        }
                    }
                }
            }
            let e = make_entry(org);
            org_entries.push(e);
            i = i + 1;
        }
        proof {
            assert(orgs.take(orgs.len() as int) =~= orgs);
            assert(given.take(given.len() as int) =~= given);
        }
        if default_client.is_none() && clients.len() == 0 {
            proof {
                if orgs.len() > 0 {
                    assert(entry_keys(clients@).contains(unicode_lower(orgs[0].name@)));
                }
            }
            return Err(Error::MissingToken);
        }
        proof {
            if orgs.len() == 0 {
                assert(clients@.len() == 0) by {
                    if clients@.len() > 0 {
                        assert(entry_keys(clients@).contains(entry_keys(clients@)[0]));
                    }
                }
            }
        }
        let reg = GitHubClientRegistry { clients, default_client, org_entries };
        assert(reg.wf()) by {
            assert forall|a: int| 0 <= a < reg.clients@.len() implies lookup(
                reg.clients@,
                #[trigger] reg.clients@[a].0@,
            ) == Some(reg.clients@[a].1) by {
                lemma_lookup_distinct(reg.clients@, a);
            }
        }
        Ok(reg)
    }

    /// Get the client for a specific organization: its own client (matched
    /// case-insensitively), else the default client, else an error naming the
    /// environment variable suffix for the organization
    pub fn client_for_org(&self, org: &str) -> (r: Result<&C, Error>)
        ensures
            self.resolve(org@) matches Some(c) ==> r matches Ok(x) && *x == c,
            self.resolve(org@) is None ==> (r matches Err(Error::OrgNotConfigured { org: o, env_var: v })
                && o@ == org@ && v@ == org_env_var(org@)),
    {
        let org_lower = to_lowercase(org);
        let mut i: usize = 0;
        assert(self.clients@.skip(0) =~= self.clients@);
        while i < self.clients.len()
            invariant
                i <= self.clients@.len(),
                org_lower@ == unicode_lower(org@),
                lookup(self.clients@, org_lower@) == lookup(self.clients@.skip(i as int), org_lower@),
            decreases self.clients@.len() - i,
        {
            assert(self.clients@.skip(i as int).drop_first() =~= self.clients@.skip(i + 1));
            assert(self.clients@.skip(i as int)[0] == self.clients@[i as int]);
            if str_eq(self.clients[i].0.as_str(), org_lower.as_str()) {
                return Ok(&self.clients[i].1);
            }
            i = i + 1;
        }
        match &self.default_client {
            Some(d) => Ok(d),
            None => {
                let upper = to_uppercase(org);
                let env_var = replace_char(upper.as_str(), '-', '_');
                Err(Error::OrgNotConfigured { org: String::from_str(org), env_var })
            },
        }
    }

    /// Get the client for a repository, resolving by its owner (organization).
    pub fn client_for_repo(&self, repo: &RepoId) -> (r: Result<&C, Error>)
        ensures
            self.resolve(repo.owner@) matches Some(c) ==> r matches Ok(x) && *x == c,
            self.resolve(repo.owner@) is None ==> (r matches Err(Error::OrgNotConfigured { org: o, env_var: v })
                && o@ == repo.owner@ && v@ == org_env_var(repo.owner@)),
    {
        self.client_for_org(repo.owner.as_str())
    }

    /// Get the default client (from `[github]` config).
    pub fn default_client(&self) -> (r: Result<&C, Error>)
        ensures
            self.default_spec() matches Some(c) ==> r matches Ok(x) && *x == c,
            self.default_spec() is None ==> r matches Err(Error::MissingToken),
    {
        match &self.default_client {
            Some(d) => Ok(d),
            None => Err(Error::MissingToken),
        }
    }

    /// List all configured organization names (lowercase).
    pub fn org_names(&self) -> (r: Vec<&str>)
        ensures
            str_views(r@) == self.org_keys(),
    {
        let mut names: Vec<&str> = Vec::new();
        let mut i: usize = 0;
        while i < self.clients.len()
            invariant
                i <= self.clients@.len(),
                names@.len() == i,
                str_views(names@) == entry_keys(self.clients@).take(i as int),
            decreases self.clients@.len() - i,
        {
            let ghost old_names = names@;
            let name = self.clients[i].0.as_str();
            assert(name@ == self.clients@[i as int].0@);
            names.push(name);
            assert(names@ == old_names.push(name));
            assert forall|k: int| 0 <= k < i + 1 implies #[trigger] str_views(names@)[k] == entry_keys(
                self.clients@,
            ).take(i + 1)[k] by {
                if k < i {
                    assert(str_views(old_names)[k] == entry_keys(self.clients@).take(i as int)[k]);
                    assert(names@[k] == old_names[k]);
                }
            }
            assert(str_views(names@) =~= entry_keys(self.clients@).take(i + 1));
            i = i + 1;
        }
        assert(entry_keys(self.clients@).take(i as int) =~= entry_keys(self.clients@));
        names
    }

    /// Check if a specific organization is configured (case-insensitively).
    pub fn has_org(&self, org: &str) -> (r: bool)
        ensures
            r == self.client_for(unicode_lower(org@)) is Some,
    {
        let org_lower = to_lowercase(org);
        let mut i: usize = 0;
        assert(self.clients@.skip(0) =~= self.clients@);
        while i < self.clients.len()
            invariant
                i <= self.clients@.len(),
                org_lower@ == unicode_lower(org@),
                lookup(self.clients@, org_lower@) == lookup(self.clients@.skip(i as int), org_lower@),
            decreases self.clients@.len() - i,
        {
            assert(self.clients@.skip(i as int).drop_first() =~= self.clients@.skip(i + 1));
            assert(self.clients@.skip(i as int)[0] == self.clients@[i as int]);
            if str_eq(self.clients[i].0.as_str(), org_lower.as_str()) {
                return true;
            }
            i = i + 1;
        }
        false
    }

    /// Get metadata entries for all configured organizations.
    pub fn org_entries(&self) -> (r: &[OrgEntry])
        ensures
            r@ == self.entries(),
    {
        self.org_entries.as_slice()
    }
}

/// An organization is found whatever its case: two names with the same
/// lowercase form resolve to the same client, which is the client configured
/// under that lowercase name when there is one, else the default client.
pub proof fn law_org_lookup_ignores_case<C>(reg: GitHubClientRegistry<C>, a: Seq<char>, b: Seq<char>)
    requires
        unicode_lower(a) == unicode_lower(b),
    ensures
        reg.resolve(a) == reg.resolve(b),
        reg.client_for(unicode_lower(a)) matches Some(c) ==> reg.resolve(a) == Some(c),
        reg.client_for(unicode_lower(a)) is None ==> reg.resolve(a) == reg.default_spec(),
{
}

/// Every configured organization, written in any case, has a client of its
/// own: that of the last organization configured under its lowercase name.
pub proof fn law_configured_org_found<C>(orgs: Seq<OrgConfig>, clients: Seq<C>, j: int, org: Seq<char>)
    requires
        clients.len() == orgs.len(),
        0 <= j < orgs.len(),
        unicode_lower(org) == unicode_lower(orgs[j].name@),
    ensures
        last_client_for(orgs, clients, unicode_lower(org)) is Some,
    decreases orgs.len(),
{
    if unicode_lower(orgs.last().name@) != unicode_lower(org) {
        assert(j < orgs.len() - 1);
        assert(orgs.drop_last()[j] == orgs[j]);
        law_configured_org_found(orgs.drop_last(), clients.drop_last(), j, org);
    }
}

} // verus!
