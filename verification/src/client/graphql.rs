//! GitHub Projects V2 over GraphQL: endpoint resolution, the response shapes,
//! their conversion into domain models, and the classification of errors.
use vstd::prelude::*;

use crate::error::Error;
use crate::models::project::{
    FieldValue, IterationValue, LabelInfo, Project, ProjectField, ProjectFieldType,
    ProjectFieldValue, ProjectItem, ProjectItemContent, SelectOption,
};
use crate::text::{
    chars_ends_with, chars_of, chars_range, chars_slice, decimal, has_substring, has_suffix, push_str,
    str_contains, str_eq, to_lowercase, u64_to_decimal, unicode_lower,
};

verus! {

// ---------------------------------------------------------------------------
// Endpoint resolution
// ---------------------------------------------------------------------------

/// `s` without its trailing `/` characters.
pub open spec fn trim_end_slashes(s: Seq<char>) -> Seq<char>
    decreases s.len(),
{
    if s.len() > 0 && s.last() == '/' {
        trim_end_slashes(s.drop_last())
    } else {
        s
    }
}

/// The host part of a REST base URL: without a final `/api/v3`, else without a
/// final `/api`.
pub open spec fn graphql_base(trimmed: Seq<char>) -> Seq<char> {
    if has_suffix(trimmed, "/api/v3"@) {
        trimmed.subrange(0, trimmed.len() - 7)
    } else if has_suffix(trimmed, "/api"@) {
        trimmed.subrange(0, trimmed.len() - 4)
    } else {
        trimmed
    }
}

/// The GraphQL endpoint for an optional REST API base URL.
pub open spec fn graphql_url(base_url: Option<Seq<char>>) -> Seq<char> {
    match base_url {
        None => "https://api.github.com/graphql"@,
        Some(url) => graphql_base(trim_end_slashes(url)) + "/api/graphql"@,
    }
}

/// Every endpoint derived from a base URL ends with `/api/graphql`.
pub proof fn law_graphql_endpoint_suffix(url: Seq<char>)
    ensures
        has_suffix(graphql_url(Some(url)), "/api/graphql"@),
{
    let r = graphql_url(Some(url));
    assert(r.subrange(r.len() - "/api/graphql"@.len(), r.len() as int) =~= "/api/graphql"@);
}

/// Derive the GraphQL endpoint URL from an optional REST API base URL.
///
/// Resolution rules:
///   None                            -> https://api.github.com/graphql
///   https://ghe.co/api/v3          -> https://ghe.co/api/graphql
///   https://ghe.co/api             -> https://ghe.co/api/graphql
///   https://ghe.co                 -> https://ghe.co/api/graphql
pub fn derive_graphql_url(base_url: Option<&str>) -> (r: String)
    ensures
        r@ == graphql_url(
            match base_url {
                Some(u) => Some(u@),
                None => None,
            },
        ),
{
    match base_url {
        None => String::from_str("https://api.github.com/graphql"),
        Some(url) => {
            let v = chars_of(url);
            let mut n: usize = v.len();
            assert(v@.subrange(0, n as int) =~= v@);
            while n > 0 && v[n - 1] == '/'
                invariant
                    n <= v@.len(),
                    trim_end_slashes(v@) == trim_end_slashes(v@.subrange(0, n as int)),
                decreases n,
            {
                assert(v@.subrange(0, n as int).drop_last() =~= v@.subrange(0, n - 1));
                n = n - 1;
            }
            let trimmed = chars_slice(v.as_slice(), 0, n);
            assert(trim_end_slashes(v@) == trimmed@);
            let v3: Vec<char> = chars_of("/api/v3");
            let api: Vec<char> = chars_of("/api");
            proof {
                reveal_strlit("/api/v3");
                reveal_strlit("/api");
            }
            let end = if chars_ends_with(trimmed.as_slice(), v3.as_slice()) {
                n - 7
            } else if chars_ends_with(trimmed.as_slice(), api.as_slice()) {
                n - 4
            } else {
                n
            };
            let mut r = chars_range(trimmed.as_slice(), 0, end);
            assert(trimmed@.subrange(0, n as int) =~= trimmed@);
            push_str(&mut r, "/api/graphql");
            r
        },
    }
}

// ---------------------------------------------------------------------------
// Response shapes
// ---------------------------------------------------------------------------

/// An error reported by the GraphQL API
#[derive(Debug, Clone)]
pub struct GraphQLError {
    /// Error message
    pub message: String,
    /// Error type, when given
    pub error_type: Option<String>,
}

/// A connection's item count
#[derive(Debug, Clone, Copy)]
pub struct TotalCount {
    /// Number of items
    pub total_count: u32,
}

/// A project as listed
#[derive(Debug, Clone)]
pub struct GqlProject {
    pub id: String,
    pub number: u64,
    pub title: String,
    pub short_description: Option<String>,
    pub url: String,
    pub closed: bool,
    pub created_at: i64,
    pub updated_at: i64,
    pub items: Option<TotalCount>,
}

/// A project with its field definitions
#[derive(Debug, Clone)]
pub struct GqlProjectDetail {
    pub id: String,
    pub number: u64,
    pub title: String,
    pub short_description: Option<String>,
    pub url: String,
    pub closed: bool,
    pub created_at: i64,
    pub updated_at: i64,
    pub items: Option<TotalCount>,
    pub fields: Option<Vec<GqlField>>,
}

/// A field definition
#[derive(Debug, Clone)]
pub struct GqlField {
    pub id: Option<String>,
    pub name: Option<String>,
    pub data_type: Option<String>,
    pub options: Option<Vec<GqlSelectOption>>,
    pub configuration: Option<Vec<GqlIteration>>,
}

/// A single-select option
#[derive(Debug, Clone)]
pub struct GqlSelectOption {
    pub id: String,
    pub name: String,
    pub color: Option<String>,
    pub description: Option<String>,
}

/// An iteration of an iteration field
#[derive(Debug, Clone)]
pub struct GqlIteration {
    pub id: String,
    pub title: String,
    pub start_date: String,
    pub duration: u32,
}

/// An item of a project
#[derive(Debug, Clone)]
pub struct GqlItem {
    pub id: String,
    pub created_at: i64,
    pub updated_at: i64,
    pub content: Option<GqlItemContent>,
    pub field_values: Option<Vec<GqlFieldValueNode>>,
}

/// The content of an item: an issue, a pull request or a draft issue, told
/// apart by which fields are present
#[derive(Debug, Clone)]
pub struct GqlItemContent {
    pub number: Option<u64>,
    pub title: Option<String>,
    pub state: Option<String>,
    pub url: Option<String>,
    /// `nameWithOwner` of the repository
    pub repository: Option<String>,
    /// Assignee logins (absent logins as `None`)
    pub assignees: Option<Vec<Option<String>>>,
    pub labels: Option<Vec<GqlLabel>>,
    pub merged: Option<bool>,
    /// The author, with its login when known
    pub author: Option<Option<String>>,
    pub body: Option<String>,
}

/// A label of an issue
#[derive(Debug, Clone)]
pub struct GqlLabel {
    pub name: String,
    pub color: String,
}

/// A field value of an item: text, number, date, single-select or
/// iteration, told apart by which fields are present
#[derive(Debug, Clone)]
pub struct GqlFieldValueNode {
    pub text: Option<String>,
    /// A number, as the bits of an IEEE-754 double
    pub number: Option<u64>,
    pub date: Option<String>,
    pub name: Option<String>,
    pub option_id: Option<String>,
    pub title: Option<String>,
    pub start_date: Option<String>,
    pub duration: Option<u32>,
    pub iteration_id: Option<String>,
    /// The name of the field, when given
    pub field: Option<Option<String>>,
}

// ---------------------------------------------------------------------------
// Conversion (GraphQL response -> domain models)
// ---------------------------------------------------------------------------

/// The text of an optional string, empty when absent.
pub open spec fn text_or_empty(o: Option<String>) -> Seq<char> {
    match o {
        Some(s) => s@,
        None => Seq::empty(),
    }
}

fn take_text(o: Option<String>) -> (r: String)
    ensures
        r@ == text_or_empty(o),
{
    match o {
        Some(s) => s,
        None => String::new(),
    }
}

fn clone_text(o: &Option<String>) -> (r: Option<String>)
    ensures
        r == *o,
{
    match o {
        Some(s) => Some(s.clone()),
        None => None,
    }
}

/// Convert a listed project of organization `org`
pub fn convert_project_summary(gql: GqlProject, org: &str) -> (p: Project)
    ensures
        p.node_id == gql.id,
        p.number == gql.number,
        p.title == gql.title,
        p.description == gql.short_description,
        p.url == gql.url,
        p.closed == gql.closed,
        p.owner@ == org@,
        p.created_at == gql.created_at,
        p.updated_at == gql.updated_at,
        p.fields@.len() == 0,
        p.total_items == match gql.items {
            Some(c) => c.total_count,
            None => 0,
        },
{
    let total_items = match gql.items {
        Some(c) => c.total_count,
        None => 0,
    };
    Project {
        node_id: gql.id,
        number: gql.number,
        title: gql.title,
        description: gql.short_description,
        url: gql.url,
        closed: gql.closed,
        owner: String::from_str(org),
        created_at: gql.created_at,
        updated_at: gql.updated_at,
        fields: Vec::new(),
        total_items,
    }
}

/// The option mirrors the given one.
pub open spec fn option_of(o: SelectOption, g: GqlSelectOption) -> bool {
    o.id == g.id && o.name == g.name && o.color == g.color && o.description == g.description
}

/// The iteration mirrors the given one.
pub open spec fn iteration_of(i: IterationValue, g: GqlIteration) -> bool {
    i.id == g.id && i.title == g.title && i.start_date == g.start_date && i.duration == g.duration
}

/// The type of a field of data type `dt`: the five typed kinds by name, every
/// other name (the built-in fields among them) `BuiltIn`.
pub open spec fn field_type_of(ft: ProjectFieldType, dt: Seq<char>, g: GqlField) -> bool {
    if dt == "TEXT"@ {
        ft is Text
    } else if dt == "NUMBER"@ {
        ft is Number
    } else if dt == "DATE"@ {
        ft is Date
    } else if dt == "SINGLE_SELECT"@ {
        ft matches ProjectFieldType::SingleSelect { options } && match g.options {
            Some(opts) => options@.len() == opts@.len() && forall|k: int|
                0 <= k < opts@.len() ==> #[trigger] option_of(options@[k], opts@[k]),
            None => options@.len() == 0,
        }
    } else if dt == "ITERATION"@ {
        ft matches ProjectFieldType::Iteration { iterations } && match g.configuration {
            Some(its) => iterations@.len() == its@.len() && forall|k: int|
                0 <= k < its@.len() ==> #[trigger] iteration_of(iterations@[k], its@[k]),
            None => iterations@.len() == 0,
        }
    } else {
        ft is BuiltIn
    }
}

fn convert_options(opts: &Vec<GqlSelectOption>) -> (r: Vec<SelectOption>)
    ensures
        r@.len() == opts@.len(),
        forall|k: int| 0 <= k < opts@.len() ==> #[trigger] option_of(r@[k], opts@[k]),
{
    let mut r: Vec<SelectOption> = Vec::new();
    let mut k: usize = 0;
    while k < opts.len()
        invariant
            k <= opts@.len(),
            r@.len() == k,
            forall|j: int| 0 <= j < k ==> #[trigger] option_of(r@[j], opts@[j]),
        decreases opts@.len() - k,
    {
        let o = &opts[k];
        r.push(
            SelectOption {
                id: o.id.clone(),
                name: o.name.clone(),
                color: clone_text(&o.color),
                description: clone_text(&o.description),
            },
        );
        k = k + 1;
    }
    r
}

fn convert_iterations(its: &Vec<GqlIteration>) -> (r: Vec<IterationValue>)
    ensures
        r@.len() == its@.len(),
        forall|k: int| 0 <= k < its@.len() ==> #[trigger] iteration_of(r@[k], its@[k]),
{
    let mut r: Vec<IterationValue> = Vec::new();
    let mut k: usize = 0;
    while k < its.len()
        invariant
            k <= its@.len(),
            r@.len() == k,
            forall|j: int| 0 <= j < k ==> #[trigger] iteration_of(r@[j], its@[j]),
        decreases its@.len() - k,
    {
        let it = &its[k];
        r.push(
            IterationValue {
                id: it.id.clone(),
                title: it.title.clone(),
                start_date: it.start_date.clone(),
                duration: it.duration,
            },
        );
        k = k + 1;
    }
    r
}

/// Convert a field definition: its id and name (empty when absent) and its
/// type from its data type
pub fn convert_field(gql: &GqlField) -> (f: ProjectField)
    ensures
        f.node_id@ == text_or_empty(gql.id),
        f.name@ == text_or_empty(gql.name),
        field_type_of(f.field_type, text_or_empty(gql.data_type), *gql),
{
    let node_id = take_text(clone_text(&gql.id));
    let name = take_text(clone_text(&gql.name));
    let data_type = take_text(clone_text(&gql.data_type));
    let dt = data_type.as_str();
    let field_type = if str_eq(dt, "TEXT") {
        ProjectFieldType::Text
    } else if str_eq(dt, "NUMBER") {
        ProjectFieldType::Number
    } else if str_eq(dt, "DATE") {
        ProjectFieldType::Date
    } else if str_eq(dt, "SINGLE_SELECT") {
        let options = match &gql.options {
            Some(opts) => convert_options(opts),
            None => Vec::new(),
        };
        ProjectFieldType::SingleSelect { options }
    } else if str_eq(dt, "ITERATION") {
        let iterations = match &gql.configuration {
            Some(its) => convert_iterations(its),
            None => Vec::new(),
        };
        ProjectFieldType::Iteration { iterations }
    } else {
        ProjectFieldType::BuiltIn
    };
    ProjectField { node_id, name, field_type }
}

/// The logins that are present, in order.
pub open spec fn present_logins(nodes: Seq<Option<String>>) -> Seq<Seq<char>>
    decreases nodes.len(),
{
    if nodes.len() == 0 {
        Seq::empty()
    } else {
        let rest = present_logins(nodes.drop_last());
        match nodes.last() {
            Some(l) => rest.push(l@),
            None => rest,
        }
    }
}

/// The characters of each string.
pub open spec fn string_views(v: Seq<String>) -> Seq<Seq<char>> {
    v.map_values(|s: String| s@)
}

/// The assignees given (as logins, absent ones dropped), none when absent.
pub open spec fn assignee_logins(a: Option<Vec<Option<String>>>) -> Seq<Seq<char>> {
    match a {
        Some(nodes) => present_logins(nodes@),
        None => Seq::empty(),
    }
}

/// The author's login, or "unknown".
pub open spec fn author_login(a: Option<Option<String>>) -> Seq<char> {
    match a {
        Some(Some(l)) => l@,
        _ => "unknown"@,
    }
}

/// The labels mirror the given ones.
pub open spec fn labels_of(labels: Seq<LabelInfo>, g: Option<Vec<GqlLabel>>) -> bool {
    match g {
        Some(nodes) => labels.len() == nodes@.len() && forall|k: int|
            0 <= k < nodes@.len() ==> #[trigger] labels[k].name == nodes@[k].name && labels[k].color
                == nodes@[k].color,
        None => labels.len() == 0,
    }
}

fn collect_logins(nodes: Vec<Option<String>>) -> (r: Vec<String>)
    ensures
        string_views(r@) == present_logins(nodes@),
{
    let ghost all = nodes@;
    let mut r: Vec<String> = Vec::new();
    let mut k: usize = 0;
    while k < nodes.len()
        invariant
            nodes@ == all,
            k <= all.len(),
            string_views(r@) == present_logins(all.take(k as int)),
        decreases all.len() - k,
    {
        assert(all.take(k + 1).drop_last() =~= all.take(k as int));
        match &nodes[k] {
            Some(l) => {
                let ghost before = r@;
                r.push(l.clone());
                assert(string_views(r@) =~= string_views(before).push(l@));
            },
            None => {},
        }
        k = k + 1;
    }
    assert(all.take(k as int) =~= all);
    r
}

fn take_assignees(a: Option<Vec<Option<String>>>) -> (r: Vec<String>)
    ensures
        string_views(r@) == assignee_logins(a),
{
    match a {
        Some(nodes) => collect_logins(nodes),
        None => {
            let r: Vec<String> = Vec::new();
            assert(string_views(r@) =~= Seq::<Seq<char>>::empty());
            r
        },
    }
}

fn take_labels(g: Option<Vec<GqlLabel>>) -> (r: Vec<LabelInfo>)
    ensures
        labels_of(r@, g),
{
    match g {
        Some(nodes) => {
            let mut r: Vec<LabelInfo> = Vec::new();
            let mut k: usize = 0;
            while k < nodes.len()
                invariant
                    k <= nodes@.len(),
                    r@.len() == k,
                    forall|j: int|
                        0 <= j < k ==> #[trigger] r@[j].name == nodes@[j].name && r@[j].color
                            == nodes@[j].color,
                decreases nodes@.len() - k,
            {
                r.push(LabelInfo { name: nodes[k].name.clone(), color: nodes[k].color.clone() });
                k = k + 1;
            }
            r
        },
        None => Vec::new(),
    }
}

/// What the content of an item converts to: with a repository, a pull
/// request when `merged` is present and an issue otherwise; without one, a
/// draft issue when it has a title; else nothing (empty or redacted content).
pub open spec fn content_of(r: Option<ProjectItemContent>, g: GqlItemContent) -> bool {
    match g.repository {
        Some(repo) => if g.merged is Some {
            r matches Some(
                ProjectItemContent::PullRequest { number, title, state, url, repository, merged, author },
            ) && number == (match g.number {
                Some(n) => n,
                None => 0,
            }) && title@ == text_or_empty(g.title) && state@ == text_or_empty(g.state) && url@
                == text_or_empty(g.url) && repository == repo && merged == g.merged->0 && author@
                == author_login(g.author)
        } else {
            r matches Some(
                ProjectItemContent::Issue { number, title, state, url, repository, assignees, labels },
            ) && number == (match g.number {
                Some(n) => n,
                None => 0,
            }) && title@ == text_or_empty(g.title) && state@ == text_or_empty(g.state) && url@
                == text_or_empty(g.url) && repository == repo && string_views(assignees@)
                == assignee_logins(g.assignees) && labels_of(labels@, g.labels)
        },
        None => if g.title is Some {
            r matches Some(ProjectItemContent::DraftIssue { title, body, assignees }) && title@
                == text_or_empty(g.title) && body == g.body && string_views(assignees@)
                == assignee_logins(g.assignees)
        } else {
            r is None
        },
    }
}

/// Convert the content of an item
pub fn convert_content(gql: GqlItemContent) -> (r: Option<ProjectItemContent>)
    ensures
        content_of(r, gql),
{
    let number = match gql.number {
        Some(n) => n,
        None => 0,
    };
    match gql.repository {
        Some(repo) => {
            match gql.merged {
                Some(merged) => {
                    let author = match gql.author {
                        Some(Some(l)) => l,
                        _ => String::from_str("unknown"),
                    };
                    Some(
                        ProjectItemContent::PullRequest {
                            number,
                            title: take_text(gql.title),
                            state: take_text(gql.state),
                            url: take_text(gql.url),
                            repository: repo,
                            merged,
                            author,
                        },
                    )
                },
                None => {
                    let assignees = take_assignees(gql.assignees);
                    let labels = take_labels(gql.labels);
                    Some(
                        ProjectItemContent::Issue {
                            number,
                            title: take_text(gql.title),
                            state: take_text(gql.state),
                            url: take_text(gql.url),
                            repository: repo,
                            assignees,
                            labels,
                        },
                    )
                },
            }
        },
        None => {
            if gql.title.is_some() {
                let assignees = take_assignees(gql.assignees);
                Some(
                    ProjectItemContent::DraftIssue {
                        title: take_text(gql.title),
                        body: gql.body,
                        assignees,
                    },
                )
            } else {
                None
            }
        },
    }
}

/// Some kind of value is present: an iteration id, an option id, text, a
/// number or a date.
pub open spec fn has_value(g: GqlFieldValueNode) -> bool {
    g.iteration_id is Some || g.option_id is Some || g.text is Some || g.number is Some
        || g.date is Some
}

/// The value is of the first kind whose fields are present, in the order
/// iteration, single-select, text, number, date, and carries those fields.
pub open spec fn value_matches(v: FieldValue, g: GqlFieldValueNode) -> bool {
    if g.iteration_id is Some {
        match v {
            FieldValue::Iteration { title, start_date, duration, iteration_id } => {
                &&& title@ == text_or_empty(g.title)
                &&& start_date@ == text_or_empty(g.start_date)
                &&& duration == (match g.duration {
                    Some(d) => d,
                    None => 0,
                })
                &&& iteration_id@ == text_or_empty(g.iteration_id)
            },
            _ => false,
        }
    } else if g.option_id is Some {
        match v {
            FieldValue::SingleSelect { name, option_id } => name@ == text_or_empty(g.name) && option_id@
                == text_or_empty(g.option_id),
            _ => false,
        }
    } else if g.text is Some {
        match v {
            FieldValue::Text { value } => value == g.text->0,
            _ => false,
        }
    } else if g.number is Some {
        match v {
            FieldValue::Number { value_bits } => value_bits == g.number->0,
            _ => false,
        }
    } else {
        match v {
            FieldValue::Date { value } => g.date == Some(value),
            _ => false,
        }
    }
}

/// What a field value converts to: nothing without a field name or without
/// a value; else the value under the field's name.
pub open spec fn field_value_of(r: Option<ProjectFieldValue>, g: GqlFieldValueNode) -> bool {
    match g.field {
        Some(Some(field_name)) => if has_value(g) {
            match r {
                Some(fv) => fv.field_name == field_name && value_matches(fv.value, g),
                None => false,
            }
        } else {
            r is None
        },
        _ => r is None,
    }
}

/// Convert a field value of an item
pub fn convert_field_value(gql: GqlFieldValueNode) -> (r: Option<ProjectFieldValue>)
    ensures
        field_value_of(r, gql),
{
    let field_name = match gql.field {
        Some(Some(n)) => n,
        _ => {
            return None;
        },
    };
    let value = if gql.iteration_id.is_some() {
        FieldValue::Iteration {
            title: take_text(gql.title),
            start_date: take_text(gql.start_date),
            duration: match gql.duration {
                Some(d) => d,
                None => 0,
            },
            iteration_id: take_text(gql.iteration_id),
        }
    } else if gql.option_id.is_some() {
        FieldValue::SingleSelect { name: take_text(gql.name), option_id: take_text(gql.option_id) }
    } else if let Some(text) = gql.text {
        FieldValue::Text { value: text }
    } else if let Some(bits) = gql.number {
        FieldValue::Number { value_bits: bits }
    } else if let Some(date) = gql.date {
        FieldValue::Date { value: date }
    } else {
        return None;
    };
    Some(ProjectFieldValue { field_name, value })
}

/// The field values that convert to something, in order.
pub open spec fn values_of(r: Seq<ProjectFieldValue>, nodes: Seq<GqlFieldValueNode>) -> bool
    decreases nodes.len(),
{
    if nodes.len() == 0 {
        r.len() == 0
    } else {
        let last = nodes.last();
        match last.field {
            Some(Some(_)) if has_value(last) => r.len() > 0 && field_value_of(Some(r.last()), last)
                && values_of(r.drop_last(), nodes.drop_last()),
            _ => values_of(r, nodes.drop_last()),
        }
    }
}

/// The elements of `v`, last first.
fn reversed<T>(v: Vec<T>) -> (r: Vec<T>)
    ensures
        r@.len() == v@.len(),
        forall|j: int| 0 <= j < v@.len() ==> #[trigger] r@[j] == v@[v@.len() - 1 - j],
{
    let ghost all = v@;
    let mut v = v;
    let mut r: Vec<T> = Vec::new();
    while v.len() > 0
        invariant
            v@.len() + r@.len() == all.len(),
            forall|j: int| 0 <= j < v@.len() ==> #[trigger] v@[j] == all[j],
            forall|j: int| 0 <= j < r@.len() ==> #[trigger] r@[j] == all[all.len() - 1 - j],
        decreases v@.len(),
    {
        let x = v.pop().unwrap();
        r.push(x);
    }
    r
}

fn convert_field_values(nodes: Vec<GqlFieldValueNode>) -> (r: Vec<ProjectFieldValue>)
    ensures
        values_of(r@, nodes@),
{
    let ghost all = nodes@;
    let total: usize = nodes.len();
    assert(all.len() == total);
    let mut rev = reversed(nodes);
    let mut r: Vec<ProjectFieldValue> = Vec::new();
    let mut k: usize = 0;
    while rev.len() > 0
        invariant
            k <= all.len() <= usize::MAX,
            rev@.len() == all.len() - k,
            forall|j: int| 0 <= j < rev@.len() ==> #[trigger] rev@[j] == all[all.len() - 1 - j],
            values_of(r@, all.take(k as int)),
        decreases rev@.len(),
    {
        let node = rev.pop().unwrap();
        assert(node == all[k as int]);
        assert(all.take(k + 1).drop_last() =~= all.take(k as int));
        assert(all.take(k + 1).last() == all[k as int]);
        let ghost before = r@;
        match convert_field_value(node) {
            Some(fv) => {
                r.push(fv);
                assert(r@.drop_last() =~= before);
            },
            None => {},
        }
        k = k + 1;
    }
    assert(all.take(k as int) =~= all);
    r
}

/// What an item converts to: nothing when its content converts to nothing;
/// else the item with that content and its field values that convert.
pub open spec fn item_of(r: Option<ProjectItem>, g: GqlItem) -> bool {
    match g.content {
        Some(c) => {
            let content_some = (match c.repository {
                Some(_) => true,
                None => c.title is Some,
            });
            if content_some {
                match r {
                    Some(item) => {
                        &&& item.node_id == g.id
                        &&& content_of(Some(item.content), c)
                        &&& values_of(
                            item.field_values@,
                            match g.field_values {
                                Some(v) => v@,
                                None => Seq::empty(),
                            },
                        )
                        &&& item.created_at == g.created_at
                        &&& item.updated_at == g.updated_at
                    },
                    None => false,
                }
            } else {
                r is None
            }
        },
        None => r is None,
    }
}

/// Convert an item of a project
pub fn convert_item(gql: GqlItem) -> (r: Option<ProjectItem>)
    ensures
        item_of(r, gql),
{
    let content = match gql.content {
        Some(c) => match convert_content(c) {
            Some(x) => x,
            None => {
                return None;
            },
        },
        None => {
            return None;
        },
    };
    let field_values = match gql.field_values {
        Some(nodes) => convert_field_values(nodes),
        None => Vec::new(),
    };
    Some(ProjectItem { node_id: gql.id, content, field_values, created_at: gql.created_at, updated_at: gql.updated_at })
}

/// The items that convert to something, in order.
pub open spec fn items_of(r: Seq<ProjectItem>, nodes: Seq<GqlItem>) -> bool
    decreases nodes.len(),
{
    if nodes.len() == 0 {
        r.len() == 0
    } else {
        let last = nodes.last();
        let kept = match last.content {
            Some(c) => match c.repository {
                Some(_) => true,
                None => c.title is Some,
            },
            None => false,
        };
        if kept {
            r.len() > 0 && item_of(Some(r.last()), last) && items_of(r.drop_last(), nodes.drop_last())
        } else {
            items_of(r, nodes.drop_last())
        }
    }
}

/// Convert a page of items, keeping those that convert to something
pub fn convert_items(nodes: Vec<GqlItem>) -> (r: Vec<ProjectItem>)
    ensures
        items_of(r@, nodes@),
{
    let ghost all = nodes@;
    let total: usize = nodes.len();
    assert(all.len() == total);
    let mut rev = reversed(nodes);
    let mut r: Vec<ProjectItem> = Vec::new();
    let mut k: usize = 0;
    while rev.len() > 0
        invariant
            k <= all.len() <= usize::MAX,
            rev@.len() == all.len() - k,
            forall|j: int| 0 <= j < rev@.len() ==> #[trigger] rev@[j] == all[all.len() - 1 - j],
            items_of(r@, all.take(k as int)),
        decreases rev@.len(),
    {
        let node = rev.pop().unwrap();
        assert(node == all[k as int]);
        assert(all.take(k + 1).drop_last() =~= all.take(k as int));
        assert(all.take(k + 1).last() == all[k as int]);
        let ghost before = r@;
        match convert_item(node) {
            Some(item) => {
                r.push(item);
                assert(r@.drop_last() =~= before);
            },
            None => {},
        }
        k = k + 1;
    }
    assert(all.take(k as int) =~= all);
    r
}

/// Convert a project with its field definitions, of organization `org`
pub fn convert_project_detail(gql: GqlProjectDetail, org: &str) -> (p: Project)
    ensures
        p.node_id == gql.id,
        p.number == gql.number,
        p.title == gql.title,
        p.description == gql.short_description,
        p.url == gql.url,
        p.closed == gql.closed,
        p.owner@ == org@,
        p.created_at == gql.created_at,
        p.updated_at == gql.updated_at,
        p.total_items == match gql.items {
            Some(c) => c.total_count,
            None => 0,
        },
        match gql.fields {
            Some(fs) => p.fields@.len() == fs@.len() && forall|k: int|
                0 <= k < fs@.len() ==> {
                    &&& (#[trigger] p.fields@[k]).node_id@ == text_or_empty(fs@[k].id)
                    &&& p.fields@[k].name@ == text_or_empty(fs@[k].name)
                    &&& field_type_of(p.fields@[k].field_type, text_or_empty(fs@[k].data_type), fs@[k])
                },
            None => p.fields@.len() == 0,
        },
{
    let mut fields: Vec<ProjectField> = Vec::new();
    match &gql.fields {
        Some(fs) => {
            let mut k: usize = 0;
            while k < fs.len()
                invariant
                    k <= fs@.len(),
                    fields@.len() == k,
                    forall|j: int|
                        0 <= j < k ==> {
                            &&& (#[trigger] fields@[j]).node_id@ == text_or_empty(fs@[j].id)
                            &&& fields@[j].name@ == text_or_empty(fs@[j].name)
                            &&& field_type_of(fields@[j].field_type, text_or_empty(fs@[j].data_type), fs@[j])
                        },
                decreases fs@.len() - k,
            {
                let f = convert_field(&fs[k]);
                fields.push(f);
                k = k + 1;
            }
        },
        None => {},
    }
    let mut project = convert_project_summary(
        GqlProject {
            id: gql.id,
            number: gql.number,
            title: gql.title,
            short_description: gql.short_description,
            url: gql.url,
            closed: gql.closed,
            created_at: gql.created_at,
            updated_at: gql.updated_at,
            items: gql.items,
        },
        org,
    );
    project.fields = fields;
    project
}

// ---------------------------------------------------------------------------
// Responses and errors
// ---------------------------------------------------------------------------

/// A message that reports a missing token scope.
pub open spec fn permission_message(lower: Seq<char>) -> bool {
    has_substring(lower, "resource not accessible by personal access token"@) || has_substring(
        lower,
        "read:project"@,
    ) || has_substring(lower, "insufficient scopes"@)
}

/// A message that reports something not found.
pub open spec fn not_found_message(lower: Seq<char>) -> bool {
    has_substring(lower, "could not resolve to"@)
}

/// A message that reports Projects V2 missing on the server.
pub open spec fn unavailable_message(lower: Seq<char>) -> bool {
    has_substring(lower, "projectsv2"@) && has_substring(lower, "doesn't exist"@)
}

/// A message that gets a typed error of its own.
pub open spec fn special_message(msg: Seq<char>) -> bool {
    let lower = unicode_lower(msg);
    permission_message(lower) || not_found_message(lower) || unavailable_message(lower)
}

/// The messages joined with `sep`.
pub open spec fn joined(ms: Seq<Seq<char>>, sep: Seq<char>) -> Seq<char>
    decreases ms.len(),
{
    if ms.len() == 0 {
        Seq::empty()
    } else if ms.len() == 1 {
        ms[0]
    } else {
        joined(ms.drop_last(), sep) + sep + ms.last()
    }
}

/// The messages of the errors.
pub open spec fn messages(errors: Seq<GraphQLError>) -> Seq<Seq<char>> {
    errors.map_values(|e: GraphQLError| e.message@)
}

/// The typed error for a special message.
pub open spec fn special_error(e: Error, msg: Seq<char>) -> bool {
    let lower = unicode_lower(msg);
    if permission_message(lower) {
        e matches Error::MissingProjectScope { org } && org@ == "unknown"@
    } else if not_found_message(lower) {
        e matches Error::NotFound(m) && m@ == msg
    } else {
        e is ProjectsNotAvailable
    }
}

/// The error for a list of errors: that of the first special message, else
/// one with all the messages joined by "; ".
pub open spec fn classified(e: Error, errors: Seq<GraphQLError>) -> bool {
    if exists|k: int| 0 <= k < errors.len() && special_message(#[trigger] errors[k].message@) {
        let k = choose|k: int|
            0 <= k < errors.len() && special_message(#[trigger] errors[k].message@) && forall|j: int|
                0 <= j < k ==> !special_message(#[trigger] errors[j].message@);
        special_error(e, errors[k].message@)
    } else {
        e matches Error::GraphQL(m) && m@ == joined(messages(errors), "; "@)
    }
}

fn special_error_for(msg: &String) -> (r: Option<Error>)
    ensures
        special_message(msg@) <==> r is Some,
        r matches Some(e) ==> special_error(e, msg@),
{
    let lower = to_lowercase(msg.as_str());
    let l = lower.as_str();
    if str_contains(l, "resource not accessible by personal access token") || str_contains(l, "read:project")
        || str_contains(l, "insufficient scopes") {
        return Some(Error::MissingProjectScope { org: String::from_str("unknown") });
    }
    if str_contains(l, "could not resolve to") {
        return Some(Error::NotFound(msg.clone()));
    }
    if str_contains(l, "projectsv2") && str_contains(l, "doesn't exist") {
        return Some(Error::ProjectsNotAvailable);
    }
    None
}

/// Classify GraphQL errors into typed Error variants: the first message that
/// reports a missing scope, something not found, or Projects V2 missing gives
/// that error; otherwise all messages joined by "; "
pub fn classify_graphql_errors(errors: &[GraphQLError]) -> (e: Error)
    ensures
        classified(e, errors@),
{
    let mut i: usize = 0;
    while i < errors.len()
        invariant
            i <= errors@.len(),
            forall|j: int| 0 <= j < i ==> !special_message(#[trigger] errors@[j].message@),
        decreases errors@.len() - i,
    {
        match special_error_for(&errors[i].message) {
            Some(e) => {
                proof {
                    let k = choose|k: int|
                        0 <= k < errors@.len() && special_message(#[trigger] errors@[k].message@)
                            && forall|j: int| 0 <= j < k ==> !special_message(#[trigger] errors@[j].message@);
                    assert(special_message(errors@[i as int].message@));
                    if k < i {
                        assert(!special_message(errors@[k].message@));
                    }
                    if k > i {
                        assert(!special_message(errors@[i as int].message@));
                    }
                    assert(k == i);
                }
                return e;
            },
            None => {},
        }
        i = i + 1;
    }
    // Generic fallback: all messages joined
    let mut m = String::new();
    let mut k: usize = 0;
    while k < errors.len()
        invariant
            k <= errors@.len(),
            m@ == joined(messages(errors@).take(k as int), "; "@),
        decreases errors@.len() - k,
    {
        assert(messages(errors@).take(k + 1).drop_last() =~= messages(errors@).take(k as int));
        if k > 0 {
            push_str(&mut m, "; ");
        }
        push_str(&mut m, errors[k].message.as_str());
        proof {
            if k == 0 {
                assert(messages(errors@).take(1) =~= seq![errors@[0].message@]);
                assert(m@ =~= errors@[0].message@);
            } else {
                assert(m@ =~= joined(messages(errors@).take(k as int), "; "@) + "; "@
                    + errors@[k as int].message@);
            }
        }
        k = k + 1;
    }
    assert(messages(errors@).take(k as int) =~= messages(errors@));
    Error::GraphQL(m)
}

/// Check the HTTP status of a response: a success (2xx) passes; any other is
/// an error that gives the status and the body
pub fn check_http_status(status: u16, body: &str) -> (r: Result<(), Error>)
    ensures
        (200 <= status < 300) <==> r is Ok,
        !(200 <= status < 300) ==> (r matches Err(Error::GraphQL(m)) && m@ == "HTTP "@ + decimal(
            status as nat,
        ) + ": "@ + body@),
{
    if 200 <= status && status < 300 {
        Ok(())
    } else {
        let mut m = String::from_str("HTTP ");
        let code = u64_to_decimal(status as u64);
        push_str(&mut m, code.as_str());
        push_str(&mut m, ": ");
        push_str(&mut m, body);
        Err(Error::GraphQL(m))
    }
}

/// The outcome of a GraphQL response: its errors when it reports any,
/// else its data, else an error for the missing data
pub fn finish_response<T>(data: Option<T>, errors: Option<Vec<GraphQLError>>) -> (r: Result<T, Error>)
    ensures
        (errors is Some && errors->0@.len() > 0) ==> (r matches Err(e) && classified(e, errors->0@)),
        !(errors is Some && errors->0@.len() > 0) ==> match data {
            Some(d) => r == Ok::<T, Error>(d),
            None => r matches Err(Error::GraphQL(m)) && m@ == "GraphQL response contained no data"@,
        },
{
    if let Some(es) = &errors {
        if es.len() > 0 {
            return Err(classify_graphql_errors(es.as_slice()));
        }
    }
    match data {
        Some(d) => Ok(d),
        None => Err(Error::GraphQL(String::from_str("GraphQL response contained no data"))),
    }
}

/// The error for a project number not found in an organization
pub fn project_not_found(project_number: u64, org: &str) -> (e: Error)
    ensures
        e matches Error::NotFound(m) && m@ == "Project #"@ + decimal(project_number as nat)
            + " not found in org '"@ + org@ + "'"@,
{
    let mut m = String::from_str("Project #");
    let n = u64_to_decimal(project_number);
    push_str(&mut m, n.as_str());
    push_str(&mut m, " not found in org '");
    push_str(&mut m, org);
    push_str(&mut m, "'");
    Error::NotFound(m)
}

/// The error for a project node not found
pub fn project_node_not_found(project_node_id: &str) -> (e: Error)
    ensures
        e matches Error::NotFound(m) && m@ == "Project node '"@ + project_node_id@ + "' not found"@,
{
    let mut m = String::from_str("Project node '");
    push_str(&mut m, project_node_id);
    push_str(&mut m, "' not found");
    Error::NotFound(m)
}

} // verus!
