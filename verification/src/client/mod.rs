//! GitHub API client abstraction: repository identifiers and the request
//! parameters, response conversion and client selection logic.
use vstd::prelude::*;

use crate::error::Error;
use crate::text::{chars_of, chars_range, count_char, first_index_of, lemma_first_index_of, push_str};

pub mod graphql;
pub mod params;
pub mod registry;
pub mod retry;

pub use params::{IssueParams, IssueSort, IssueStateFilter, PullParams, PullStateFilter, SortDirection};
pub use registry::{GitHubClientRegistry, OrgEntry};

verus! {

/// Repository identifier
#[derive(Debug, Clone, PartialEq, Eq, Hash)]
pub struct RepoId {
    /// Repository owner
    pub owner: String,
    /// Repository name
    pub name: String,
}

/// `owner/name`.
pub open spec fn full_name_of(owner: Seq<char>, name: Seq<char>) -> Seq<char> {
    owner + seq!['/'] + name
}

impl RepoId {
    /// Create a new RepoId
    pub fn new(owner: &str, name: &str) -> (r: RepoId)
        ensures
            r.owner@ == owner@,
            r.name@ == name@,
    {
        RepoId { owner: String::from_str(owner), name: String::from_str(name) }
    }

    /// Parse a full repository name (owner/repo): exactly one `/` must separate
    /// the owner from the name.
    pub fn parse(full_name: &str) -> (r: Result<RepoId, Error>)
        ensures
            count_char(full_name@, '/') == 1 <==> r is Ok,
            r matches Ok(id) ==> {
                let k = first_index_of(full_name@, '/');
                &&& id.owner@ == full_name@.subrange(0, k)
                &&& id.name@ == full_name@.subrange(k + 1, full_name@.len() as int)
            },
            r matches Err(e) ==> e matches Error::InvalidRepoFormat(s) && s@ == full_name@,
    {
        let v = chars_of(full_name);
        let mut slashes: usize = 0;
        let mut first: usize = 0;
        let mut i: usize = 0;
        while i < v.len()
            invariant
                v@ == full_name@,
                i <= v.len(),
                slashes == count_char(v@.take(i as int), '/'),
                slashes <= i,
                slashes > 0 ==> first == first_index_of(v@.take(i as int), '/'),
                slashes == 0 ==> first_index_of(v@.take(i as int), '/') == -1,
            decreases v.len() - i,
        {
            proof {
                assert(v@.take(i + 1).drop_last() =~= v@.take(i as int));
                lemma_first_index_of(v@.take(i as int), '/');
            }
            if v[i] == '/' {
                if slashes == 0 {
                    first = i;
                }
                slashes = slashes + 1;
            }
            i = i + 1;
        }
        assert(v@.take(v.len() as int) =~= v@);
        if slashes != 1 {
            return Err(Error::InvalidRepoFormat(String::from_str(full_name)));
        }
        proof {
            lemma_first_index_of(v@, '/');
        }
        let owner = chars_range(v.as_slice(), 0, first);
        let name = chars_range(v.as_slice(), first + 1, v.len());
        Ok(RepoId { owner, name })
    }

    /// Get the full repository name
    pub fn full_name(&self) -> (r: String)
        ensures
            r@ == full_name_of(self.owner@, self.name@),
    {
        let mut r = self.owner.clone();
        push_str(&mut r, "/");
        push_str(&mut r, self.name.as_str());
        proof {
            reveal_strlit("/");
        }
        r
    }
}

/// Rate limit information
#[derive(Debug, Clone)]
pub struct RateLimitInfo {
    /// Remaining requests
    pub remaining: u32,
    /// Total limit
    pub limit: u32,
    /// Reset time (Unix timestamp)
    pub reset: u64,
}

/// Occurrences in a concatenation add up.
proof fn lemma_count_char_concat(a: Seq<char>, b: Seq<char>, c: char)
    ensures
        count_char(a + b, c) == count_char(a, c) + count_char(b, c),
    decreases b.len(),
{
    if b.len() > 0 {
        assert((a + b).drop_last() =~= a + b.drop_last());
        lemma_count_char_concat(a, b.drop_last(), c);
    } else {
        assert(a + b =~= a);
    }
}

/// A repository's full name parses back to its owner and name, when neither
/// holds a `/`: it holds exactly one `/`, right after the owner.
pub proof fn law_full_name_parses_back(owner: Seq<char>, name: Seq<char>)
    requires
        count_char(owner, '/') == 0,
        count_char(name, '/') == 0,
    ensures
        count_char(full_name_of(owner, name), '/') == 1,
        first_index_of(full_name_of(owner, name), '/') == owner.len(),
        full_name_of(owner, name).subrange(0, owner.len() as int) == owner,
        full_name_of(owner, name).subrange(owner.len() as int + 1, full_name_of(owner, name).len() as int)
            == name,
{
    let full = full_name_of(owner, name);
    lemma_count_char_concat(owner, seq!['/'], '/');
    lemma_count_char_concat(owner + seq!['/'], name, '/');
    assert(count_char(seq!['/'], '/') == 1) by {
        let one = seq!['/'];
        assert(one.drop_last() =~= Seq::<char>::empty());
        assert(one.last() == '/');
        assert(count_char(one.drop_last(), '/') == 0);
    }
    lemma_first_index_of(owner, '/');
    lemma_first_index_of(full, '/');
    let k = first_index_of(full, '/');
    assert(full[owner.len() as int] == '/');
    if k < owner.len() {
        assert(full[k] == owner[k]);
    }
    assert(full.subrange(0, owner.len() as int) =~= owner);
    assert(full.subrange(owner.len() as int + 1, full.len() as int) =~= name);
}

} // verus!
