//! Release notes generation
use vstd::prelude::*;

use crate::models::issue::{Issue, Label};
use crate::models::pull_request::PullRequest;
use crate::text::{
    chars_lt, chars_of, decimal, has_substring, lemma_seq_lt_strict_total,
    has_prefix, lemma_seq_lt_transitive, occurs_at, push_str, seq_lt, str_contains, str_eq, to_lowercase,
    u64_to_decimal, unicode_lower,
};
use crate::time::{clock_instant, date_text_of, now_timestamp, utc_date_text, ClockUnavailable};

verus! {

/// Generated release notes
#[derive(Debug, Clone)]
pub struct ReleaseNotes {
    /// Version/release name
    pub version: String,
    /// Release date
    pub date: String,
    /// Summary text
    pub summary: String,
    /// Categorized sections
    pub sections: Vec<ReleaseSection>,
    /// List of contributors
    pub contributors: Vec<String>,
    /// Release statistics
    pub stats: ReleaseStats,
}

/// Section within release notes
#[derive(Debug, Clone)]
pub struct ReleaseSection {
    /// Section title
    pub title: String,
    /// Items in this section
    pub items: Vec<ReleaseItem>,
}

/// Single item in release notes
#[derive(Debug, Clone)]
pub struct ReleaseItem {
    /// Issue/PR number
    pub number: u64,
    /// Title
    pub title: String,
    /// Author
    pub author: String,
    /// Labels
    pub labels: Vec<String>,
}

/// Release statistics
#[derive(Debug, Clone, Copy)]
pub struct ReleaseStats {
    /// Number of issues closed
    pub issues_closed: usize,
    /// Number of PRs merged
    pub prs_merged: usize,
    /// Number of contributors
    pub contributors_count: usize,
}

/// Configuration for release notes generation
#[derive(Debug, Clone)]
pub struct ReleaseNotesConfig {
    /// Mapping from label keyword to section title, tried in order; no keyword
    /// occurs twice
    pub section_mappings: Vec<(String, String)>,
}

/// The characters of each string.
pub open spec fn views(v: Seq<String>) -> Seq<Seq<char>> {
    v.map_values(|s: String| s@)
}

/// The keyword/section pairs as characters.
pub open spec fn mapping_views(v: Seq<(String, String)>) -> Seq<(Seq<char>, Seq<char>)> {
    v.map_values(|p: (String, String)| (p.0@, p.1@))
}

/// The names of labels.
pub open spec fn label_names(labels: Seq<Label>) -> Seq<Seq<char>> {
    labels.map_values(|l: Label| l.name@)
}

/// The section of the first keyword that occurs in `lower`.
pub open spec fn first_match(lower: Seq<char>, maps: Seq<(Seq<char>, Seq<char>)>) -> Option<
    Seq<char>,
>
    decreases maps.len(),
{
    if maps.len() == 0 {
        None
    } else if has_substring(lower, maps[0].0) {
        Some(maps[0].1)
    } else {
        first_match(lower, maps.drop_first())
    }
}

/// The section of a set of labels: the first label (in order) whose lowercase
/// name contains a keyword gives the section of that keyword; without one,
/// "Other".
pub open spec fn categorize_spec(names: Seq<Seq<char>>, maps: Seq<(Seq<char>, Seq<char>)>) -> Seq<
    char,
>
    decreases names.len(),
{
    if names.len() == 0 {
        "Other"@
    } else {
        match first_match(unicode_lower(names[0]), maps) {
            Some(section) => section,
            None => categorize_spec(names.drop_first(), maps),
        }
    }
}

impl ReleaseNotesConfig {
    /// No keyword occurs twice.
    pub open spec fn wf(&self) -> bool {
        forall|i: int, j: int|
            0 <= i < j < self.section_mappings@.len() ==> #[trigger] self.section_mappings@[i].0@
                != #[trigger] self.section_mappings@[j].0@
    }
}

/// The default keywords and their sections.
pub open spec fn default_mappings() -> Seq<(Seq<char>, Seq<char>)> {
    seq![
        ("bug"@, "Bug Fixes"@),
        ("feature"@, "New Features"@),
        ("enhancement"@, "Enhancements"@),
        ("documentation"@, "Documentation"@),
        ("docs"@, "Documentation"@),
        ("breaking"@, "Breaking Changes"@),
        ("security"@, "Security"@),
        ("performance"@, "Performance"@),
        ("perf"@, "Performance"@),
        ("deprecation"@, "Deprecations"@),
        ("deprecated"@, "Deprecations"@),
    ]
}

fn mapping(key: &str, section: &str) -> (r: (String, String))
    ensures
        r.0@ == key@,
        r.1@ == section@,
{
    (String::from_str(key), String::from_str(section))
}

impl Default for ReleaseNotesConfig {
    fn default() -> (r: Self)
        ensures
            mapping_views(r.section_mappings@) == default_mappings(),
            r.wf(),
    {
        let mut m: Vec<(String, String)> = Vec::new();
        m.push(mapping("bug", "Bug Fixes"));
        m.push(mapping("feature", "New Features"));
        m.push(mapping("enhancement", "Enhancements"));
        m.push(mapping("documentation", "Documentation"));
        m.push(mapping("docs", "Documentation"));
        m.push(mapping("breaking", "Breaking Changes"));
        m.push(mapping("security", "Security"));
        m.push(mapping("performance", "Performance"));
        m.push(mapping("perf", "Performance"));
        m.push(mapping("deprecation", "Deprecations"));
        m.push(mapping("deprecated", "Deprecations"));
        proof {
            reveal_strlit("bug");
            reveal_strlit("feature");
            reveal_strlit("enhancement");
            reveal_strlit("documentation");
            reveal_strlit("docs");
            reveal_strlit("breaking");
            reveal_strlit("security");
            reveal_strlit("performance");
            reveal_strlit("perf");
            reveal_strlit("deprecation");
            reveal_strlit("deprecated");
        }
        assert(mapping_views(m@) =~= default_mappings());
        let r = ReleaseNotesConfig { section_mappings: m };
        assert(r.wf()) by {
            assert forall|i: int, j: int|
                0 <= i < j < r.section_mappings@.len() implies #[trigger] r.section_mappings@[i].0@
                != #[trigger] r.section_mappings@[j].0@ by {
                assert(mapping_views(r.section_mappings@)[i].0 == r.section_mappings@[i].0@);
                assert(mapping_views(r.section_mappings@)[j].0 == r.section_mappings@[j].0@);
                let a = default_mappings()[i].0;
                let b = default_mappings()[j].0;
                if a.len() == b.len() {
                    assert(a[a.len() - 1] != b[b.len() - 1] || a[0] != b[0] || a[1] != b[1]);
                }
            }
        }
        r
    }
}

/// Generator for release notes
pub struct ReleaseNotesGenerator {
    config: ReleaseNotesConfig,
}

impl ReleaseNotesGenerator {
    /// The keyword/section pairs in use.
    pub closed spec fn mappings(&self) -> Seq<(Seq<char>, Seq<char>)> {
        mapping_views(self.config.section_mappings@)
    }

    /// Create a new generator with the given config
    pub fn new(config: ReleaseNotesConfig) -> (g: Self)
        requires
            config.wf(),
        ensures
            g.mappings() == mapping_views(config.section_mappings@),
    {
        Self { config }
    }

    /// Create a generator with default config
    pub fn with_defaults() -> (g: Self)
        ensures
            g.mappings() == default_mappings(),
    {
        Self::new(ReleaseNotesConfig::default())
    }

    /// The section of a set of labels: the first label whose lowercase name
    /// contains a keyword (keywords tried in order) gives that keyword's
    /// section; "Other" when none does
    pub fn categorize(&self, labels: &[Label]) -> (r: String)
        ensures
            r@ == categorize_spec(label_names(labels@), self.mappings()),
    {
        let maps = &self.config.section_mappings;
        let ghost names = label_names(labels@);
        let ghost mv = mapping_views(maps@);
        let mut i: usize = 0;
        assert(names.skip(0) =~= names);
        while i < labels.len()
            invariant
                i <= labels.len(),
                names == label_names(labels@),
                mv == mapping_views(maps@),
                mv == self.mappings(),
                categorize_spec(names, mv) == categorize_spec(names.skip(i as int), mv),
            decreases labels.len() - i,
        {
            let lower = to_lowercase(labels[i].name.as_str());
            let mut j: usize = 0;
            assert(mv.skip(0) =~= mv);
            while j < maps.len()
                invariant
                    i < labels.len(),
                    j <= maps.len(),
                    names == label_names(labels@),
                    mv == mapping_views(maps@),
                    mv == self.mappings(),
                    lower@ == unicode_lower(names[i as int]),
                    first_match(lower@, mv) == first_match(lower@, mv.skip(j as int)),
                    categorize_spec(names, mv) == categorize_spec(names.skip(i as int), mv),
                decreases maps.len() - j,
            {
                assert(mv.skip(j as int).drop_first() =~= mv.skip(j + 1));
                assert(mv.skip(j as int)[0] == mv[j as int]);
                assert(mv[j as int] == (maps@[j as int].0@, maps@[j as int].1@));
                if str_contains(lower.as_str(), maps[j].0.as_str()) {
                    assert(names.skip(i as int)[0] == names[i as int]);
                    return maps[j].1.clone();
                }
                j = j + 1;
            }
            assert(names.skip(i as int)[0] == names[i as int]);
            assert(names.skip(i as int).drop_first() =~= names.skip(i + 1));
            i = i + 1;
        }
        String::from_str("Other")
    }
}

impl Default for ReleaseNotesGenerator {
    fn default() -> (g: Self)
        ensures
            g.mappings() == default_mappings(),
    {
        Self::with_defaults()
    }
}

/// The section an issue falls in.
pub open spec fn category_of(i: Issue, maps: Seq<(Seq<char>, Seq<char>)>) -> Seq<char> {
    categorize_spec(label_names(i.labels@), maps)
}

/// The issues that fall in the section `title`, in order.
pub open spec fn in_section(issues: Seq<Issue>, maps: Seq<(Seq<char>, Seq<char>)>, title: Seq<char>) -> Seq<
    Issue,
>
    decreases issues.len(),
{
    if issues.len() == 0 {
        Seq::empty()
    } else {
        let rest = in_section(issues.drop_last(), maps, title);
        if category_of(issues.last(), maps) == title {
            rest.push(issues.last())
        } else {
            rest
        }
    }
}

/// The sections of release notes, in the order they are listed.
pub open spec fn section_order() -> Seq<Seq<char>> {
    seq![
        "Breaking Changes"@,
        "Security"@,
        "New Features"@,
        "Enhancements"@,
        "Bug Fixes"@,
        "Performance"@,
        "Documentation"@,
        "Deprecations"@,
        "Other"@,
    ]
}

/// The titles of `order` that some issue falls in, in order.
pub open spec fn present_titles(
    order: Seq<Seq<char>>,
    issues: Seq<Issue>,
    maps: Seq<(Seq<char>, Seq<char>)>,
) -> Seq<Seq<char>>
    decreases order.len(),
{
    if order.len() == 0 {
        Seq::empty()
    } else {
        let rest = present_titles(order.drop_last(), issues, maps);
        if in_section(issues, maps, order.last()).len() > 0 {
            rest.push(order.last())
        } else {
            rest
        }
    }
}

/// The item lists the issue: its number, title, author and label names.
pub open spec fn item_of(it: ReleaseItem, i: Issue) -> bool {
    &&& it.number == i.number
    &&& it.title@ == i.title@
    &&& it.author@ == i.author.login@
    &&& views(it.labels@) == label_names(i.labels@)
}

/// The items list the issues, one for one, in order.
pub open spec fn items_of(items: Seq<ReleaseItem>, src: Seq<Issue>) -> bool {
    items.len() == src.len() && forall|k: int| 0 <= k < items.len() ==> #[trigger] item_of(items[k], src[k])
}

/// The sections are those of `titles`, each listing the issues that fall in it.
pub open spec fn sections_match(
    sections: Seq<ReleaseSection>,
    titles: Seq<Seq<char>>,
    issues: Seq<Issue>,
    maps: Seq<(Seq<char>, Seq<char>)>,
) -> bool {
    &&& sections.len() == titles.len()
    &&& forall|k: int|
        0 <= k < sections.len() ==> {
            &&& (#[trigger] sections[k]).title@ == titles[k]
            &&& items_of(sections[k].items@, in_section(issues, maps, titles[k]))
        }
}

/// Each string comes before the next.
pub open spec fn strictly_sorted(s: Seq<Seq<char>>) -> bool {
    forall|i: int, j: int| 0 <= i < j < s.len() ==> seq_lt(#[trigger] s[i], #[trigger] s[j])
}

/// The authors of the issues, then of the pull requests.
pub open spec fn authors(issues: Seq<Issue>, prs: Seq<PullRequest>) -> Seq<Seq<char>> {
    issues.map_values(|i: Issue| i.author.login@) + prs.map_values(|p: PullRequest| p.author.login@)
}

/// The summary line.
pub open spec fn summary_text(n_issues: nat, n_prs: nat) -> Seq<char> {
    "This release includes "@ + decimal(n_issues) + " issues closed and "@ + decimal(n_prs)
        + " pull requests merged."@
}

/// Release notes of `version` dated `date`: the summary; a section for each
/// title of the fixed order that some issue falls in, listing those issues;
/// every author once, in string order; and the counts.
pub open spec fn is_release_notes(
    r: ReleaseNotes,
    version: Seq<char>,
    issues: Seq<Issue>,
    prs: Seq<PullRequest>,
    maps: Seq<(Seq<char>, Seq<char>)>,
    date: Seq<char>,
) -> bool {
    &&& r.version@ == version
    &&& r.date@ == date
    &&& r.summary@ == summary_text(issues.len(), prs.len())
    &&& sections_match(r.sections@, present_titles(section_order(), issues, maps), issues, maps)
    &&& strictly_sorted(views(r.contributors@))
    &&& forall|t: Seq<char>| views(r.contributors@).contains(t) <==> authors(issues, prs).contains(t)
    &&& r.stats.issues_closed == issues.len()
    &&& r.stats.prs_merged == prs.len()
    &&& r.stats.contributors_count == r.contributors@.len()
}

fn section_title(k: usize) -> (r: &'static str)
    requires
        k < 9,
    ensures
        r@ == section_order()[k as int],
{
    match k {
        0 => "Breaking Changes",
        1 => "Security",
        2 => "New Features",
        3 => "Enhancements",
        4 => "Bug Fixes",
        5 => "Performance",
        6 => "Documentation",
        7 => "Deprecations",
        _ => "Other",
    }
}

fn make_item(i: &Issue) -> (it: ReleaseItem)
    ensures
        item_of(it, *i),
{
    let mut labels: Vec<String> = Vec::new();
    let mut k: usize = 0;
    while k < i.labels.len()
        invariant
            k <= i.labels.len(),
            views(labels@) == label_names(i.labels@.take(k as int)),
        decreases i.labels.len() - k,
    {
        labels.push(i.labels[k].name.clone());
        assert(label_names(i.labels@.take(k + 1)) =~= label_names(i.labels@.take(k as int)).push(
            i.labels@[k as int].name@,
        ));
        k = k + 1;
    }
    assert(i.labels@.take(k as int) =~= i.labels@);
    ReleaseItem {
        number: i.number,
        title: i.title.clone(),
        author: i.author.login.clone(),
        labels,
    }
}

fn collect_items(
    issues: &[Issue],
    cats: &Vec<String>,
    title: &str,
    Ghost(maps): Ghost<Seq<(Seq<char>, Seq<char>)>>,
) -> (items: Vec<ReleaseItem>)
    requires
        cats@.len() == issues@.len(),
        forall|k: int| 0 <= k < cats@.len() ==> #[trigger] cats@[k]@ == category_of(issues@[k], maps),
    ensures
        items_of(items@, in_section(issues@, maps, title@)),
{
    let mut items: Vec<ReleaseItem> = Vec::new();
    let mut i: usize = 0;
    while i < issues.len()
        invariant
            i <= issues.len(),
            cats@.len() == issues@.len(),
            forall|k: int| 0 <= k < cats@.len() ==> #[trigger] cats@[k]@ == category_of(issues@[k], maps),
            items_of(items@, in_section(issues@.take(i as int), maps, title@)),
        decreases issues.len() - i,
    {
        assert(issues@.take(i + 1).drop_last() =~= issues@.take(i as int));
        assert(cats@[i as int]@ == category_of(issues@[i as int], maps));
        if str_eq(cats[i].as_str(), title) {
            let it = make_item(&issues[i]);
            items.push(it);
        }
        i = i + 1;
    }
    assert(issues@.take(i as int) =~= issues@);
    items
}

/// What a sequence holds after a push.
proof fn lemma_push_contains(a: Seq<Seq<char>>, x: Seq<char>)
    ensures
        forall|t: Seq<char>| #[trigger] a.push(x).contains(t) <==> (a.contains(t) || t == x),
{
    assert forall|t: Seq<char>| #[trigger] a.push(x).contains(t) <==> (a.contains(t) || t == x) by {
        let b = a.push(x);
        if b.contains(t) {
            let k = choose|k: int| 0 <= k < b.len() && b[k] == t;
            if k < a.len() {
                assert(a[k] == t);
            }
        }
        if a.contains(t) {
            let k = choose|k: int| 0 <= k < a.len() && a[k] == t;
            assert(b[k] == t);
        }
        if t == x {
            assert(b[a.len() as int] == t);
        }
    }
}

/// Adds `x` to a strictly sorted list of strings, unless it is there already.
fn add_contributor(v: &mut Vec<String>, x: &String)
    requires
        strictly_sorted(views(old(v)@)),
    ensures
        strictly_sorted(views(final(v)@)),
        forall|t: Seq<char>| views(final(v)@).contains(t) <==> (views(old(v)@).contains(t) || t == x@),
{
    let ghost old_views = views(v@);
    let xs = chars_of(x.as_str());
    let mut p: usize = 0;
    while p < v.len()
        invariant
            p <= v.len(),
            v@ == old(v)@,
            xs@ == x@,
            forall|k: int| 0 <= k < p ==> seq_lt(#[trigger] views(v@)[k], x@),
        ensures
            p <= v.len(),
            v@ == old(v)@,
            forall|k: int| 0 <= k < p ==> seq_lt(#[trigger] views(v@)[k], x@),
            p < v.len() ==> !seq_lt(views(v@)[p as int], x@),
        decreases v.len() - p,
    {
        let vp = chars_of(v[p].as_str());
        if !chars_lt(vp.as_slice(), xs.as_slice()) {
            break;
        }
        p = p + 1;
    }
    if p < v.len() && str_eq(v[p].as_str(), x.as_str()) {
        assert(views(v@)[p as int] == x@);
        return;
    }
    let ghost before = views(v@);
    v.insert(p, x.clone());
    let ghost after = views(v@);
    assert(after =~= before.insert(p as int, x@));
    proof {
        if p < before.len() {
            lemma_seq_lt_strict_total(before[p as int], x@);
        }
        assert forall|i: int, j: int| 0 <= i < j < after.len() implies seq_lt(
            #[trigger] after[i],
            #[trigger] after[j],
        ) by {
            if j < p {
            } else if j == p {
            } else if i < p {
                lemma_seq_lt_transitive(before[i], x@, before[p as int]);
                if j - 1 > p {
                    lemma_seq_lt_transitive(before[i], before[p as int], before[j - 1]);
                }
            } else if i == p {
                if j - 1 > p {
                    lemma_seq_lt_transitive(x@, before[p as int], before[j - 1]);
                }
            } else {
            }
        }
        assert forall|t: Seq<char>| after.contains(t) implies (before.contains(t) || t == x@) by {
            let k = choose|k: int| 0 <= k < after.len() && after[k] == t;
            if k < p {
                assert(before[k] == t);
            } else if k > p {
                assert(before[k - 1] == t);
            }
        }
        assert forall|t: Seq<char>| (before.contains(t) || t == x@) implies after.contains(t) by {
            if t == x@ {
                assert(after[p as int] == t);
            } else {
                let k = choose|k: int| 0 <= k < before.len() && before[k] == t;
                if k < p {
                    assert(after[k] == t);
                } else {
                    assert(after[k + 1] == t);
                }
            }
        }
    }
}

impl ReleaseNotesGenerator {
    /// Generate release notes from issues and PRs, dated `date`
    pub fn generate_on(&self, version: &str, issues: &[Issue], prs: &[PullRequest], date: String) -> (r:
        ReleaseNotes)
        ensures
            is_release_notes(r, version@, issues@, prs@, self.mappings(), date@),
    {
        let ghost maps = self.mappings();
        // The section of each issue
        let mut cats: Vec<String> = Vec::new();
        let mut i: usize = 0;
        while i < issues.len()
            invariant
                i <= issues.len(),
                maps == self.mappings(),
                cats@.len() == i,
                forall|k: int| 0 <= k < i ==> #[trigger] cats@[k]@ == category_of(issues@[k], maps),
            decreases issues.len() - i,
        {
            let c = self.categorize(issues[i].labels.as_slice());
            cats.push(c);
            i = i + 1;
        }
        // Sections in the fixed order, those with items only
        let mut sections: Vec<ReleaseSection> = Vec::new();
        let mut t: usize = 0;
        while t < 9
            invariant
                t <= 9,
                cats@.len() == issues@.len(),
                forall|k: int| 0 <= k < cats@.len() ==> #[trigger] cats@[k]@ == category_of(issues@[k], maps),
                sections_match(sections@, present_titles(section_order().take(t as int), issues@, maps), issues@, maps),
            decreases 9 - t,
        {
            let title = section_title(t);
            assert(section_order().take(t + 1).drop_last() =~= section_order().take(t as int));
            let items = collect_items(issues, &cats, title, Ghost(maps));
            if items.len() > 0 {
                let sec = ReleaseSection { title: String::from_str(title), items };
                sections.push(sec);
            }
            t = t + 1;
        }
        assert(section_order().take(9) =~= section_order());
        // Every author once, in string order
        let mut contributors: Vec<String> = Vec::new();
        let ghost issue_authors = issues@.map_values(|i: Issue| i.author.login@);
        let ghost pr_authors = prs@.map_values(|p: PullRequest| p.author.login@);
        let mut i: usize = 0;
        while i < issues.len()
            invariant
                i <= issues.len(),
                issue_authors == issues@.map_values(|i: Issue| i.author.login@),
                strictly_sorted(views(contributors@)),
                forall|t: Seq<char>| views(contributors@).contains(t) <==> issue_authors.take(i as int).contains(t),
            decreases issues.len() - i,
        {
            add_contributor(&mut contributors, &issues[i].author.login);
            proof {
                assert(issue_authors.take(i + 1) =~= issue_authors.take(i as int).push(
                    issues@[i as int].author.login@,
                ));
                lemma_push_contains(issue_authors.take(i as int), issues@[i as int].author.login@);
            }
            i = i + 1;
        }
        assert(issue_authors.take(issues@.len() as int) =~= issue_authors);
        let mut j: usize = 0;
        while j < prs.len()
            invariant
                j <= prs.len(),
                issue_authors == issues@.map_values(|i: Issue| i.author.login@),
                pr_authors == prs@.map_values(|p: PullRequest| p.author.login@),
                strictly_sorted(views(contributors@)),
                forall|t: Seq<char>| views(contributors@).contains(t) <==> (issue_authors + pr_authors.take(j as int)).contains(t),
            decreases prs.len() - j,
        {
            add_contributor(&mut contributors, &prs[j].author.login);
            proof {
                let a = issue_authors + pr_authors.take(j as int);
                assert(issue_authors + pr_authors.take(j + 1) =~= a.push(prs@[j as int].author.login@));
                lemma_push_contains(a, prs@[j as int].author.login@);
            }
            j = j + 1;
        }
        assert(pr_authors.take(prs@.len() as int) =~= pr_authors);
        // Summary
        let mut summary = String::from_str("This release includes ");
        let n_issues = u64_to_decimal(issues.len() as u64);
        push_str(&mut summary, n_issues.as_str());
        push_str(&mut summary, " issues closed and ");
        let n_prs = u64_to_decimal(prs.len() as u64);
        push_str(&mut summary, n_prs.as_str());
        push_str(&mut summary, " pull requests merged.");
        let stats = ReleaseStats {
            issues_closed: issues.len(),
            prs_merged: prs.len(),
            contributors_count: contributors.len(),
        };
        ReleaseNotes {
            version: String::from_str(version),
            date,
            summary,
            sections,
            contributors,
            stats,
        }
    }

    /// Generate release notes from issues and PRs, dated with today's UTC date;
    /// an error when the clock cannot be read.
    pub fn generate(&self, version: &str, issues: &[Issue], prs: &[PullRequest]) -> (r: Result<
        ReleaseNotes,
        ClockUnavailable,
    >)
        ensures
            r matches Ok(n) ==> exists|now: int|
                clock_instant(now) && is_release_notes(
                    n,
                    version@,
                    issues@,
                    prs@,
                    self.mappings(),
                    utc_date_text(now),
                ),
    {
        let now = match now_timestamp() {
            Some(t) => t,
            None => {
                return Err(ClockUnavailable);
            },
        };
        match date_text_of(now) {
            Some(date) => Ok(self.generate_on(version, issues, prs, date)),
            None => Err(ClockUnavailable),
        }
    }
}

/// The markdown line of an item: `- title (#number) @author`.
pub open spec fn item_md(it: ReleaseItem) -> Seq<char> {
    "- "@ + it.title@ + " (#"@ + decimal(it.number as nat) + ") @"@ + it.author@ + "\n"@
}

/// The markdown lines of items, in order.
pub open spec fn items_md(items: Seq<ReleaseItem>) -> Seq<char>
    decreases items.len(),
{
    if items.len() == 0 {
        Seq::empty()
    } else {
        items_md(items.drop_last()) + item_md(items.last())
    }
}

/// The markdown of a section: its heading, its items and a blank line.
pub open spec fn section_md(sec: ReleaseSection) -> Seq<char> {
    "## "@ + sec.title@ + "\n\n"@ + items_md(sec.items@) + "\n"@
}

/// The markdown of sections, in order.
pub open spec fn sections_md(secs: Seq<ReleaseSection>) -> Seq<char>
    decreases secs.len(),
{
    if secs.len() == 0 {
        Seq::empty()
    } else {
        sections_md(secs.drop_last()) + section_md(secs.last())
    }
}

/// The markdown lines of contributors: `- @login`.
pub open spec fn contributors_md(cs: Seq<String>) -> Seq<char>
    decreases cs.len(),
{
    if cs.len() == 0 {
        Seq::empty()
    } else {
        contributors_md(cs.drop_last()) + "- @"@ + cs.last()@ + "\n"@
    }
}

/// The markdown of release notes: title with date, summary, sections, and
/// the contributors.
pub open spec fn markdown(n: ReleaseNotes) -> Seq<char> {
    "# "@ + n.version@ + " ("@ + n.date@ + ")\n\n"@ + n.summary@ + "\n\n"@ + sections_md(n.sections@)
        + "## Contributors\n\n"@ + contributors_md(n.contributors@)
}

fn push_item_md(md: &mut String, it: &ReleaseItem)
    ensures
        final(md)@ == old(md)@ + item_md(*it),
{
    push_str(md, "- ");
    push_str(md, it.title.as_str());
    push_str(md, " (#");
    let num = u64_to_decimal(it.number);
    push_str(md, num.as_str());
    push_str(md, ") @");
    push_str(md, it.author.as_str());
    push_str(md, "\n");
    assert(final(md)@ =~= old(md)@ + item_md(*it));
}

fn push_section_md(md: &mut String, sec: &ReleaseSection)
    ensures
        final(md)@ == old(md)@ + section_md(*sec),
{
    let ghost start = md@;
    push_str(md, "## ");
    push_str(md, sec.title.as_str());
    push_str(md, "\n\n");
    let ghost head = md@;
    let mut k: usize = 0;
    while k < sec.items.len()
        invariant
            k <= sec.items.len(),
            md@ == head + items_md(sec.items@.take(k as int)),
        decreases sec.items.len() - k,
    {
        assert(sec.items@.take(k + 1).drop_last() =~= sec.items@.take(k as int));
        push_item_md(md, &sec.items[k]);
        assert(md@ =~= head + items_md(sec.items@.take(k + 1)));
        k = k + 1;
    }
    assert(sec.items@.take(k as int) =~= sec.items@);
    push_str(md, "\n");
    assert(md@ =~= start + section_md(*sec));
}

impl ReleaseNotesGenerator {
    /// Convert release notes to markdown format
    pub fn to_markdown(&self, notes: &ReleaseNotes) -> (md: String)
        ensures
            md@ == markdown(*notes),
    {
        let mut md = String::new();
        push_str(&mut md, "# ");
        push_str(&mut md, notes.version.as_str());
        push_str(&mut md, " (");
        push_str(&mut md, notes.date.as_str());
        push_str(&mut md, ")\n\n");
        push_str(&mut md, notes.summary.as_str());
        push_str(&mut md, "\n\n");
        let ghost head = md@;
        let mut k: usize = 0;
        while k < notes.sections.len()
            invariant
                k <= notes.sections.len(),
                md@ == head + sections_md(notes.sections@.take(k as int)),
            decreases notes.sections.len() - k,
        {
            assert(notes.sections@.take(k + 1).drop_last() =~= notes.sections@.take(k as int));
            push_section_md(&mut md, &notes.sections[k]);
            assert(md@ =~= head + sections_md(notes.sections@.take(k + 1)));
            k = k + 1;
        }
        assert(notes.sections@.take(k as int) =~= notes.sections@);
        push_str(&mut md, "## Contributors\n\n");
        let ghost mid = md@;
        let mut c: usize = 0;
        while c < notes.contributors.len()
            invariant
                c <= notes.contributors.len(),
                md@ == mid + contributors_md(notes.contributors@.take(c as int)),
            decreases notes.contributors.len() - c,
        {
            assert(notes.contributors@.take(c + 1).drop_last() =~= notes.contributors@.take(c as int));
            push_str(&mut md, "- @");
            push_str(&mut md, notes.contributors[c].as_str());
            push_str(&mut md, "\n");
            assert(md@ =~= mid + contributors_md(notes.contributors@.take(c + 1)));
            c = c + 1;
        }
        assert(notes.contributors@.take(c as int) =~= notes.contributors@);
        assert(md@ =~= markdown(*notes));
        md
    }
}

/// A strictly sorted list of strings is fixed by what it holds: two such
/// lists holding the same strings are equal (so the contributors of release
/// notes are fully determined, each author listed once).
pub proof fn law_sorted_contributors_unique(a: Seq<Seq<char>>, b: Seq<Seq<char>>)
    requires
        strictly_sorted(a),
        strictly_sorted(b),
        forall|t: Seq<char>| a.contains(t) <==> b.contains(t),
    ensures
        a == b,
    decreases a.len(),
{
    if a.len() == 0 {
        if b.len() > 0 {
            assert(b.contains(b[0]));
        }
        assert(a =~= b);
    } else {
        assert(a.contains(a[0]));
        assert(b.len() > 0);
        assert(b.contains(b[0]));
        let i = choose|i: int| 0 <= i < a.len() && a[i] == b[0];
        let j = choose|j: int| 0 <= j < b.len() && b[j] == a[0];
        if i > 0 {
            assert(seq_lt(a[0], a[i]));
            if j > 0 {
                assert(seq_lt(b[0], b[j]));
                lemma_seq_lt_strict_total(a[0], b[0]);
            } else {
                lemma_seq_lt_strict_total(a[0], a[0]);
            }
        }
        assert(i == 0);
        assert(a[0] == b[0]);
        let a1 = a.drop_first();
        let b1 = b.drop_first();
        assert forall|t: Seq<char>| a1.contains(t) <==> b1.contains(t) by {
            if a1.contains(t) {
                let k = choose|k: int| 0 <= k < a1.len() && a1[k] == t;
                assert(a[k + 1] == t);
                assert(seq_lt(a[0], a[k + 1]));
                lemma_seq_lt_strict_total(a[0], a[0]);
                assert(b.contains(t));
                let m = choose|m: int| 0 <= m < b.len() && b[m] == t;
                assert(m != 0);
                assert(b1[m - 1] == t);
            }
            if b1.contains(t) {
                let k = choose|k: int| 0 <= k < b1.len() && b1[k] == t;
                assert(b[k + 1] == t);
                assert(seq_lt(b[0], b[k + 1]));
                lemma_seq_lt_strict_total(b[0], b[0]);
                assert(a.contains(t));
                let m = choose|m: int| 0 <= m < a.len() && a[m] == t;
                assert(m != 0);
                assert(a1[m - 1] == t);
            }
        }
        assert forall|x: int, y: int| 0 <= x < y < a1.len() implies seq_lt(#[trigger] a1[x], #[trigger] a1[y]) by {
            assert(a1[x] == a[x + 1] && a1[y] == a[y + 1]);
        }
        assert forall|x: int, y: int| 0 <= x < y < b1.len() implies seq_lt(#[trigger] b1[x], #[trigger] b1[y]) by {
            assert(b1[x] == b[x + 1] && b1[y] == b[y + 1]);
        }
        law_sorted_contributors_unique(a1, b1);
        assert(a =~= seq![a[0]] + a1);
        assert(b =~= seq![b[0]] + b1);
    }
}

/// The number of items listed over all sections.
pub open spec fn items_total(sections: Seq<ReleaseSection>) -> int
    decreases sections.len(),
{
    if sections.len() == 0 {
        0
    } else {
        items_total(sections.drop_last()) + sections.last().items@.len()
    }
}

/// The number of issues falling in each of `titles`, added up.
pub open spec fn section_sizes(
    titles: Seq<Seq<char>>,
    issues: Seq<Issue>,
    maps: Seq<(Seq<char>, Seq<char>)>,
) -> int
    decreases titles.len(),
{
    if titles.len() == 0 {
        0
    } else {
        section_sizes(titles.drop_last(), issues, maps) + in_section(issues, maps, titles.last()).len()
    }
}

/// How often `c` occurs in `titles`.
pub open spec fn occurrences(titles: Seq<Seq<char>>, c: Seq<char>) -> int
    decreases titles.len(),
{
    if titles.len() == 0 {
        0
    } else {
        occurrences(titles.drop_last(), c) + (if titles.last() == c {
            1int
        } else {
            0int
        })
    }
}

proof fn lemma_items_total_match(
    sections: Seq<ReleaseSection>,
    titles: Seq<Seq<char>>,
    issues: Seq<Issue>,
    maps: Seq<(Seq<char>, Seq<char>)>,
)
    requires
        sections_match(sections, titles, issues, maps),
    ensures
        items_total(sections) == section_sizes(titles, issues, maps),
    decreases sections.len(),
{
    if sections.len() > 0 {
        let n = sections.len() - 1;
        assert forall|k: int| 0 <= k < sections.drop_last().len() implies {
            &&& (#[trigger] sections.drop_last()[k]).title@ == titles.drop_last()[k]
            &&& items_of(sections.drop_last()[k].items@, in_section(issues, maps, titles.drop_last()[k]))
        } by {
            assert(sections.drop_last()[k] == sections[k]);
        }
        lemma_items_total_match(sections.drop_last(), titles.drop_last(), issues, maps);
        assert(sections[n] == sections.last());
    }
}

proof fn lemma_present_sizes(order: Seq<Seq<char>>, issues: Seq<Issue>, maps: Seq<(Seq<char>, Seq<char>)>)
    ensures
        section_sizes(present_titles(order, issues, maps), issues, maps) == section_sizes(order, issues, maps),
    decreases order.len(),
{
    if order.len() > 0 {
        lemma_present_sizes(order.drop_last(), issues, maps);
        let p = present_titles(order.drop_last(), issues, maps);
        if in_section(issues, maps, order.last()).len() > 0 {
            assert(p.push(order.last()).drop_last() =~= p);
        }
    }
}

proof fn lemma_sizes_step(order: Seq<Seq<char>>, issues: Seq<Issue>, maps: Seq<(Seq<char>, Seq<char>)>)
    requires
        issues.len() > 0,
    ensures
        section_sizes(order, issues, maps) == section_sizes(order, issues.drop_last(), maps) + occurrences(
            order,
            category_of(issues.last(), maps),
        ),
    decreases order.len(),
{
    if order.len() > 0 {
        lemma_sizes_step(order.drop_last(), issues, maps);
    }
}

proof fn lemma_occurrences_absent(titles: Seq<Seq<char>>, c: Seq<char>)
    requires
        !titles.contains(c),
    ensures
        occurrences(titles, c) == 0,
    decreases titles.len(),
{
    if titles.len() > 0 {
        assert forall|k: int| 0 <= k < titles.drop_last().len() implies titles.drop_last()[k] != c by {
            assert(titles.drop_last()[k] == titles[k]);
        }
        lemma_occurrences_absent(titles.drop_last(), c);
        assert(titles[titles.len() - 1] == titles.last());
    }
}

proof fn lemma_occurrences_once(titles: Seq<Seq<char>>, c: Seq<char>)
    requires
        titles.contains(c),
        forall|i: int, j: int| 0 <= i < j < titles.len() ==> titles[i] != titles[j],
    ensures
        occurrences(titles, c) == 1,
    decreases titles.len(),
{
    let rest = titles.drop_last();
    let n = titles.len() - 1;
    assert(titles[n] == titles.last());
    if titles.last() == c {
        assert forall|k: int| 0 <= k < rest.len() implies rest[k] != c by {
            assert(rest[k] == titles[k]);
        }
        lemma_occurrences_absent(rest, c);
    } else {
        let k = choose|k: int| 0 <= k < titles.len() && titles[k] == c;
        assert(rest[k] == c);
        assert forall|i: int, j: int| 0 <= i < j < rest.len() implies rest[i] != rest[j] by {
            assert(rest[i] == titles[i] && rest[j] == titles[j]);
        }
        lemma_occurrences_once(rest, c);
    }
}

proof fn lemma_first_match_target(lower: Seq<char>, maps: Seq<(Seq<char>, Seq<char>)>)
    ensures
        first_match(lower, maps) is Some ==> exists|j: int| 0 <= j < maps.len() && maps[j].1 == first_match(lower, maps)->0,
    decreases maps.len(),
{
    if maps.len() > 0 && !has_substring(lower, maps[0].0) {
        lemma_first_match_target(lower, maps.drop_first());
        if first_match(lower, maps) is Some {
            let j = choose|j: int| 0 <= j < maps.drop_first().len() && maps.drop_first()[j].1 == first_match(lower, maps)->0;
            assert(maps[j + 1] == maps.drop_first()[j]);
        }
    }
}

proof fn lemma_category_listed(names: Seq<Seq<char>>, maps: Seq<(Seq<char>, Seq<char>)>)
    requires
        forall|j: int| 0 <= j < maps.len() ==> section_order().contains(#[trigger] maps[j].1),
    ensures
        section_order().contains(categorize_spec(names, maps)),
    decreases names.len(),
{
    reveal_strlit("Other");
    assert(section_order()[8] == "Other"@);
    if names.len() > 0 {
        lemma_first_match_target(unicode_lower(names[0]), maps);
        match first_match(unicode_lower(names[0]), maps) {
            Some(sec) => {
                let j = choose|j: int| 0 <= j < maps.len() && maps[j].1 == sec;
                assert(section_order().contains(maps[j].1));
            },
            None => {
                lemma_category_listed(names.drop_first(), maps);
            },
        }
    }
}

proof fn lemma_section_order_distinct()
    ensures
        forall|i: int, j: int| 0 <= i < j < section_order().len() ==> section_order()[i] != section_order()[j],
{
    reveal_strlit("Breaking Changes");
    reveal_strlit("Security");
    reveal_strlit("New Features");
    reveal_strlit("Enhancements");
    reveal_strlit("Bug Fixes");
    reveal_strlit("Performance");
    reveal_strlit("Documentation");
    reveal_strlit("Deprecations");
    reveal_strlit("Other");
    let o = section_order();
    assert forall|i: int, j: int| 0 <= i < j < o.len() implies o[i] != o[j] by {
        if o[i].len() == o[j].len() {
            assert(o[i][0] != o[j][0]);
        }
    }
}

proof fn lemma_sizes_count(order: Seq<Seq<char>>, issues: Seq<Issue>, maps: Seq<(Seq<char>, Seq<char>)>)
    requires
        forall|k: int| 0 <= k < issues.len() ==> occurrences(order, #[trigger] category_of(issues[k], maps)) == 1,
    ensures
        section_sizes(order, issues, maps) == issues.len(),
    decreases issues.len(),
{
    if issues.len() > 0 {
        let rest = issues.drop_last();
        assert forall|k: int| 0 <= k < rest.len() implies occurrences(order, #[trigger] category_of(rest[k], maps)) == 1 by {
            assert(rest[k] == issues[k]);
        }
        assert(issues[issues.len() - 1] == issues.last());
        assert(occurrences(order, category_of(issues[issues.len() - 1], maps)) == 1);
        lemma_sizes_count(order, rest, maps);
        lemma_sizes_step(order, issues, maps);
    } else {
        lemma_sizes_none(order, issues, maps);
    }
}

proof fn lemma_sizes_none(order: Seq<Seq<char>>, issues: Seq<Issue>, maps: Seq<(Seq<char>, Seq<char>)>)
    requires
        issues.len() == 0,
    ensures
        section_sizes(order, issues, maps) == 0,
    decreases order.len(),
{
    if order.len() > 0 {
        lemma_sizes_none(order.drop_last(), issues, maps);
    }
}

/// When every keyword maps to one of the listed sections, each issue is listed
/// exactly once: the sections of the release notes hold as many items as there
/// are issues.
pub proof fn law_each_issue_listed_once(
    r: ReleaseNotes,
    version: Seq<char>,
    issues: Seq<Issue>,
    prs: Seq<PullRequest>,
    maps: Seq<(Seq<char>, Seq<char>)>,
    date: Seq<char>,
)
    requires
        is_release_notes(r, version, issues, prs, maps, date),
        forall|j: int| 0 <= j < maps.len() ==> section_order().contains(#[trigger] maps[j].1),
    ensures
        items_total(r.sections@) == issues.len(),
{
    lemma_items_total_match(r.sections@, present_titles(section_order(), issues, maps), issues, maps);
    lemma_present_sizes(section_order(), issues, maps);
    lemma_section_order_distinct();
    assert forall|k: int| 0 <= k < issues.len() implies occurrences(
        section_order(),
        #[trigger] category_of(issues[k], maps),
    ) == 1 by {
        lemma_category_listed(label_names(issues[k].labels@), maps);
        lemma_occurrences_once(section_order(), category_of(issues[k], maps));
    }
    lemma_sizes_count(section_order(), issues, maps);
}


/// `needle` does not occur in `hay` when every place it could start shows a
/// different character in one of its first four positions.
proof fn lemma_not_substring(hay: Seq<char>, needle: Seq<char>)
    requires
        needle.len() >= 3,
        forall|i: int|
            0 <= i && i + needle.len() <= hay.len() ==> #[trigger] hay[i] != needle[0] || hay[i + 1]
                != needle[1] || hay[i + 2] != needle[2] || (needle.len() > 3 && hay[i + 3] != needle[3]),
    ensures
        !has_substring(hay, needle),
{
    assert forall|i: int| !occurs_at(hay, needle, i) by {
        if occurs_at(hay, needle, i) {
            let sub = hay.subrange(i, i + needle.len());
            assert(sub[0] == hay[i] && sub[1] == hay[i + 1] && sub[2] == hay[i + 2]);
            if needle.len() > 3 {
                assert(sub[3] == hay[i + 3]);
            }
        }
    }
}

proof fn lemma_substring_self(s: Seq<char>)
    ensures
        has_substring(s, s),
{
    assert(s.subrange(0, s.len() as int) =~= s);
    assert(occurs_at(s, s, 0));
}

/// A label whose lowercase name is one of the default keywords falls in that
/// keyword's section: no keyword tried before it occurs in it.
pub proof fn law_default_keywords(j: int, name: Seq<char>)
    requires
        0 <= j < default_mappings().len(),
        unicode_lower(name) == default_mappings()[j].0,
    ensures
        first_match(default_mappings()[j].0, default_mappings()) == Some(default_mappings()[j].1),
        categorize_spec(seq![name], default_mappings()) == default_mappings()[j].1,
{
    reveal_strlit("bug");
    reveal_strlit("feature");
    reveal_strlit("enhancement");
    reveal_strlit("documentation");
    reveal_strlit("docs");
    reveal_strlit("breaking");
    reveal_strlit("security");
    reveal_strlit("performance");
    reveal_strlit("perf");
    reveal_strlit("deprecation");
    reveal_strlit("deprecated");
    let m = default_mappings();
    let k = m[j].0;
    assert forall|i: int| 0 <= i < j implies !has_substring(k, #[trigger] m[i].0) by {
        lemma_not_substring(k, m[i].0);
    }
    lemma_substring_self(k);
    lemma_first_match_at(k, m, j);
    assert(seq![name][0] == name);
    assert(seq![name].drop_first().len() == 0);
}

/// The first keyword that occurs in `lower` is the `j`-th when none before it
/// does and it does.
proof fn lemma_first_match_at(lower: Seq<char>, maps: Seq<(Seq<char>, Seq<char>)>, j: int)
    requires
        0 <= j < maps.len(),
        forall|i: int| 0 <= i < j ==> !has_substring(lower, #[trigger] maps[i].0),
        has_substring(lower, maps[j].0),
    ensures
        first_match(lower, maps) == Some(maps[j].1),
    decreases j,
{
    if j > 0 {
        assert(!has_substring(lower, maps[0].0));
        assert forall|i: int| 0 <= i < j - 1 implies !has_substring(lower, #[trigger] maps.drop_first()[i].0) by {
            assert(maps.drop_first()[i] == maps[i + 1]);
        }
        lemma_first_match_at(lower, maps.drop_first(), j - 1);
    }
}

/// The order in which the default keywords are tried does not matter for a
/// label named after a keyword: when one keyword occurs in another, both
/// belong to the same section.
pub proof fn law_default_keywords_order_free(i: int, j: int)
    requires
        0 <= i < default_mappings().len(),
        0 <= j < default_mappings().len(),
        has_substring(default_mappings()[j].0, default_mappings()[i].0),
    ensures
        default_mappings()[i].1 == default_mappings()[j].1,
{
    reveal_strlit("bug");
    reveal_strlit("feature");
    reveal_strlit("enhancement");
    reveal_strlit("documentation");
    reveal_strlit("docs");
    reveal_strlit("breaking");
    reveal_strlit("security");
    reveal_strlit("performance");
    reveal_strlit("perf");
    reveal_strlit("deprecation");
    reveal_strlit("deprecated");
    let m = default_mappings();
    if i == 10 && j == 9 {
        let hay = m[9].0;
        let needle = m[10].0;
        assert forall|p: int| !occurs_at(hay, needle, p) by {
            if occurs_at(hay, needle, p) {
                let sub = hay.subrange(p, p + needle.len());
                assert(sub[0] == hay[p] && sub[8] == hay[p + 8]);
            }
        }
    } else if i != j && !(i == 8 && j == 7) {
        lemma_not_substring(m[j].0, m[i].0);
    }
}

/// `x` occurs in `a + x + b`.
proof fn lemma_substring_middle(a: Seq<char>, x: Seq<char>, b: Seq<char>)
    ensures
        has_substring(a + x + b, x),
{
    assert((a + x + b).subrange(a.len() as int, (a.len() + x.len()) as int) =~= x);
    assert(occurs_at(a + x + b, x, a.len() as int));
}

/// What occurs in something that occurs in `a` occurs in `a`.
proof fn lemma_substring_trans(a: Seq<char>, b: Seq<char>, c: Seq<char>)
    requires
        has_substring(a, b),
        has_substring(b, c),
    ensures
        has_substring(a, c),
{
    let i = choose|i: int| occurs_at(a, b, i);
    let j = choose|j: int| occurs_at(b, c, j);
    assert forall|k: int| 0 <= k < c.len() implies #[trigger] a[i + j + k] == c[k] by {
        assert(a.subrange(i, i + b.len())[j + k] == a[i + j + k]);
        assert(b.subrange(j, j + c.len())[k] == b[j + k]);
    }
    assert(a.subrange(i + j, i + j + c.len()) =~= c);
    assert(occurs_at(a, c, i + j));
}

proof fn lemma_section_in_sections(secs: Seq<ReleaseSection>, k: int)
    requires
        0 <= k < secs.len(),
    ensures
        has_substring(sections_md(secs), section_md(secs[k])),
    decreases secs.len(),
{
    let rest = secs.drop_last();
    if k == secs.len() - 1 {
        lemma_substring_middle(sections_md(rest), section_md(secs[k]), Seq::empty());
        assert(sections_md(rest) + section_md(secs[k]) + Seq::empty() =~= sections_md(secs));
    } else {
        assert(rest[k] == secs[k]);
        lemma_section_in_sections(rest, k);
        lemma_substring_middle(Seq::empty(), sections_md(rest), section_md(secs.last()));
        assert(Seq::empty() + sections_md(rest) + section_md(secs.last()) =~= sections_md(secs));
        lemma_substring_trans(sections_md(secs), sections_md(rest), section_md(secs[k]));
    }
}

proof fn lemma_item_in_items(items: Seq<ReleaseItem>, j: int)
    requires
        0 <= j < items.len(),
    ensures
        has_substring(items_md(items), item_md(items[j])),
    decreases items.len(),
{
    let rest = items.drop_last();
    if j == items.len() - 1 {
        lemma_substring_middle(items_md(rest), item_md(items[j]), Seq::empty());
        assert(items_md(rest) + item_md(items[j]) + Seq::empty() =~= items_md(items));
    } else {
        assert(rest[j] == items[j]);
        lemma_item_in_items(rest, j);
        lemma_substring_middle(Seq::empty(), items_md(rest), item_md(items.last()));
        assert(Seq::empty() + items_md(rest) + item_md(items.last()) =~= items_md(items));
        lemma_substring_trans(items_md(items), items_md(rest), item_md(items[j]));
    }
}

proof fn lemma_contributor_in_md(cs: Seq<String>, j: int)
    requires
        0 <= j < cs.len(),
    ensures
        has_substring(contributors_md(cs), "- @"@ + cs[j]@ + "\n"@),
    decreases cs.len(),
{
    let rest = cs.drop_last();
    let line = "- @"@ + cs.last()@ + "\n"@;
    assert(contributors_md(cs) =~= contributors_md(rest) + line);
    if j == cs.len() - 1 {
        lemma_substring_middle(contributors_md(rest), line, Seq::empty());
        assert(contributors_md(rest) + line + Seq::empty() =~= contributors_md(cs));
    } else {
        assert(rest[j] == cs[j]);
        lemma_contributor_in_md(rest, j);
        lemma_substring_middle(Seq::empty(), contributors_md(rest), line);
        assert(Seq::empty() + contributors_md(rest) + line =~= contributors_md(cs));
        lemma_substring_trans(contributors_md(cs), contributors_md(rest), "- @"@ + cs[j]@ + "\n"@);
    }
}

/// The markdown of release notes opens with the version, the date and the
/// summary, and holds every section (its `## ` heading followed by its item
/// lines), every item line `- title (#number) @author`, and a `- @login`
/// line for every contributor.
pub proof fn law_markdown_lists_everything(n: ReleaseNotes, k: int, j: int, c: int)
    ensures
        has_prefix(markdown(n), "# "@ + n.version@ + " ("@ + n.date@ + ")\n\n"@ + n.summary@ + "\n\n"@),
        0 <= k < n.sections@.len() ==> has_substring(
            markdown(n),
            "## "@ + n.sections@[k].title@ + "\n\n"@ + items_md(n.sections@[k].items@),
        ),
        0 <= k < n.sections@.len() && 0 <= j < n.sections@[k].items@.len() ==> has_substring(
            markdown(n),
            "- "@ + n.sections@[k].items@[j].title@ + " (#"@ + decimal(n.sections@[k].items@[j].number as nat)
                + ") @"@ + n.sections@[k].items@[j].author@ + "\n"@,
        ),
        0 <= c < n.contributors@.len() ==> has_substring(markdown(n), "- @"@ + n.contributors@[c]@ + "\n"@),
{
    let head = "# "@ + n.version@ + " ("@ + n.date@ + ")\n\n"@ + n.summary@ + "\n\n"@;
    let secs = sections_md(n.sections@);
    let tail = "## Contributors\n\n"@ + contributors_md(n.contributors@);
    assert(markdown(n) =~= head + secs + tail);
    assert(markdown(n).subrange(0, head.len() as int) =~= head);
    lemma_substring_middle(head, secs, tail);
    if 0 <= k < n.sections@.len() {
        let sec = n.sections@[k];
        let part = "## "@ + sec.title@ + "\n\n"@ + items_md(sec.items@);
        lemma_section_in_sections(n.sections@, k);
        lemma_substring_trans(markdown(n), secs, section_md(sec));
        lemma_substring_middle(Seq::empty(), part, "\n"@);
        assert(Seq::empty() + part + "\n"@ =~= section_md(sec));
        lemma_substring_trans(markdown(n), section_md(sec), part);
        if 0 <= j < sec.items@.len() {
            lemma_item_in_items(sec.items@, j);
            lemma_substring_middle("## "@ + sec.title@ + "\n\n"@, items_md(sec.items@), Seq::empty());
            assert(("## "@ + sec.title@ + "\n\n"@) + items_md(sec.items@) + Seq::empty() =~= part);
            lemma_substring_trans(part, items_md(sec.items@), item_md(sec.items@[j]));
            lemma_substring_trans(markdown(n), part, item_md(sec.items@[j]));
        }
    }
    if 0 <= c < n.contributors@.len() {
        lemma_contributor_in_md(n.contributors@, c);
        lemma_substring_middle(head + secs + "## Contributors\n\n"@, contributors_md(n.contributors@), Seq::empty());
        assert((head + secs + "## Contributors\n\n"@) + contributors_md(n.contributors@) + Seq::empty()
            =~= markdown(n));
        lemma_substring_trans(markdown(n), contributors_md(n.contributors@), "- @"@ + n.contributors@[c]@ + "\n"@);
    }
}

proof fn lemma_sections_md_add(a: Seq<ReleaseSection>, b: Seq<ReleaseSection>)
    ensures
        sections_md(a + b) == sections_md(a) + sections_md(b),
    decreases b.len(),
{
    if b.len() == 0 {
        assert(a + b =~= a);
        assert(sections_md(a) + sections_md(b) =~= sections_md(a));
    } else {
        lemma_sections_md_add(a, b.drop_last());
        assert((a + b).drop_last() =~= a + b.drop_last());
        assert((a + b).last() == b.last());
        assert(sections_md(a) + sections_md(b.drop_last()) + section_md(b.last()) =~= sections_md(a) + (
        sections_md(b.drop_last()) + section_md(b.last())));
    }
}

/// The markdown of section `k` starts right after those of the sections before it.
proof fn lemma_section_at(n: ReleaseNotes, k: int)
    requires
        0 <= k < n.sections@.len(),
    ensures
        occurs_at(
            markdown(n),
            section_md(n.sections@[k]),
            (("# "@ + n.version@ + " ("@ + n.date@ + ")\n\n"@ + n.summary@ + "\n\n"@).len() + sections_md(
                n.sections@.take(k),
            ).len()) as int,
        ),
{
    let secs = n.sections@;
    let head = "# "@ + n.version@ + " ("@ + n.date@ + ")\n\n"@ + n.summary@ + "\n\n"@;
    let tail = "## Contributors\n\n"@ + contributors_md(n.contributors@);
    let pre = sections_md(secs.take(k));
    let post = sections_md(secs.skip(k + 1));
    let x = section_md(secs[k]);
    assert(secs =~= secs.take(k) + seq![secs[k]] + secs.skip(k + 1));
    lemma_sections_md_add(secs.take(k) + seq![secs[k]], secs.skip(k + 1));
    lemma_sections_md_add(secs.take(k), seq![secs[k]]);
    assert(seq![secs[k]].drop_last() =~= Seq::<ReleaseSection>::empty());
    assert(seq![secs[k]].last() == secs[k]);
    assert(sections_md(Seq::<ReleaseSection>::empty()) == Seq::<char>::empty());
    assert(sections_md(seq![secs[k]]) =~= x);
    let md = markdown(n);
    assert(md =~= head + pre + x + (post + tail));
    assert(md.subrange((head.len() + pre.len()) as int, (head.len() + pre.len() + x.len()) as int) =~= x);
}

proof fn lemma_sections_md_prefix_len(secs: Seq<ReleaseSection>, a: int, b: int)
    requires
        0 <= a < b <= secs.len(),
    ensures
        sections_md(secs.take(a)).len() + section_md(secs[a]).len() <= sections_md(secs.take(b)).len(),
    decreases b - a,
{
    assert(secs.take(b).drop_last() =~= secs.take(b - 1));
    assert(secs.take(b).last() == secs[b - 1]);
    if b - 1 > a {
        lemma_sections_md_prefix_len(secs, a, b - 1);
    } else {
        assert(secs.take(b - 1) =~= secs.take(a));
    }
}

/// The sections appear in the markdown in the order of the notes: each
/// section's heading and items start after those of every earlier section.
pub proof fn law_markdown_sections_in_order(n: ReleaseNotes, k1: int, k2: int)
    requires
        0 <= k1 < k2 < n.sections@.len(),
    ensures
        exists|p1: int, p2: int|
            p1 < p2 && occurs_at(
                markdown(n),
                "## "@ + n.sections@[k1].title@ + "\n\n"@ + items_md(n.sections@[k1].items@),
                p1,
            ) && occurs_at(
                markdown(n),
                "## "@ + n.sections@[k2].title@ + "\n\n"@ + items_md(n.sections@[k2].items@),
                p2,
            ),
{
    let head = "# "@ + n.version@ + " ("@ + n.date@ + ")\n\n"@ + n.summary@ + "\n\n"@;
    let secs = n.sections@;
    let p1: int = (head.len() + sections_md(secs.take(k1)).len()) as int;
    let p2: int = (head.len() + sections_md(secs.take(k2)).len()) as int;
    lemma_section_at(n, k1);
    lemma_section_at(n, k2);
    lemma_sections_md_prefix_len(secs, k1, k2);
    let md = markdown(n);
    let part1 = "## "@ + secs[k1].title@ + "\n\n"@ + items_md(secs[k1].items@);
    let part2 = "## "@ + secs[k2].title@ + "\n\n"@ + items_md(secs[k2].items@);
    let x1 = section_md(secs[k1]);
    let x2 = section_md(secs[k2]);
    assert(x1 =~= part1 + "\n"@);
    assert(x2 =~= part2 + "\n"@);
    assert(md.subrange(p1, p1 + x1.len()) == x1);
    assert(md.subrange(p2, p2 + x2.len()) == x2);
    assert(md.subrange(p1, p1 + part1.len() as int) =~= md.subrange(p1, p1 + x1.len()).subrange(
        0,
        part1.len() as int,
    ));
    assert(md.subrange(p2, p2 + part2.len() as int) =~= md.subrange(p2, p2 + x2.len()).subrange(
        0,
        part2.len() as int,
    ));
    assert(x1.subrange(0, part1.len() as int) =~= part1);
    assert(x2.subrange(0, part2.len() as int) =~= part2);
    assert(occurs_at(md, part1, p1));
    assert(occurs_at(md, part2, p2));
    reveal_strlit("\n");
    assert(x1.len() > 0);
    assert(p1 < p2);
    assert(p1 < p2 && occurs_at(md, part1, p1) && occurs_at(md, part2, p2));
}

} // verus!
