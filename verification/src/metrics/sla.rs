//! SLA (Service Level Agreement) metrics
use std::collections::HashMap;
use vstd::prelude::*;

use crate::config::{SlaConfig, SlaPriority};
use crate::metrics::issues::all_valid;
use crate::models::issue::{Issue, IssueEvent, IssueState, Label};
use crate::text::{str_eq, to_lowercase, unicode_lower};
use crate::time::{hours_between, num_hours_between, valid_timestamp};

verus! {

broadcast use vstd::std_specs::hash::group_hash_axioms;

/// SLA compliance report. Compliance percentages are `met / (met + breached)`
/// of each kind (100% when nothing was evaluated).
#[derive(Debug, Clone)]
pub struct SlaReport {
    /// Total issues evaluated
    pub total_issues: usize,
    /// Issues meeting response SLA
    pub response_sla_met: usize,
    /// Issues breaching response SLA
    pub response_sla_breached: usize,
    /// Issues meeting resolution SLA
    pub resolution_sla_met: usize,
    /// Issues breaching resolution SLA
    pub resolution_sla_breached: usize,
    /// List of violations
    pub violations: Vec<SlaViolation>,
}

/// SLA violation details
#[derive(Debug, Clone)]
pub struct SlaViolation {
    /// Issue number
    pub issue_number: u64,
    /// Issue title
    pub issue_title: String,
    /// Type of violation
    pub violation_type: ViolationType,
    /// SLA target (hours)
    pub sla_hours: i64,
    /// Actual time (hours)
    pub actual_hours: i64,
    /// Time exceeded (hours)
    pub exceeded_by_hours: i64,
}

/// Type of SLA violation
#[derive(Debug, Clone, Copy, PartialEq, Eq, Structural)]
pub enum ViolationType {
    /// First response time violation
    Response,
    /// Resolution time violation
    Resolution,
}

/// Calculator for SLA metrics
pub struct SlaCalculator {
    config: SlaConfig,
}

/// The priority settings of the first entry named `key`.
pub open spec fn first_priority(p: Seq<(String, SlaPriority)>, key: Seq<char>) -> Option<SlaPriority>
    decreases p.len(),
{
    if p.len() == 0 {
        None
    } else if first_priority(p.drop_last(), key) is Some {
        first_priority(p.drop_last(), key)
    } else if p.last().0@ == key {
        Some(p.last().1)
    } else {
        None
    }
}

/// The priority settings of the first label (in order) whose lowercase name has an entry.
pub open spec fn label_priority(labels: Seq<Label>, p: Seq<(String, SlaPriority)>) -> Option<SlaPriority>
    decreases labels.len(),
{
    if labels.len() == 0 {
        None
    } else if label_priority(labels.drop_last(), p) is Some {
        label_priority(labels.drop_last(), p)
    } else {
        first_priority(p, unicode_lower(labels.last().name@))
    }
}

/// The (response, resolution) targets in hours that apply to an issue.
pub open spec fn sla_targets(c: SlaConfig, issue: Issue) -> (i64, i64) {
    match label_priority(issue.labels@, c.priority@) {
        Some(q) => (q.response_time_hours, q.resolution_time_hours),
        None => (c.response_time_hours, c.resolution_time_hours),
    }
}

/// The earliest instant of a `commented` event.
pub open spec fn first_comment_at(evs: Seq<IssueEvent>) -> Option<i64>
    decreases evs.len(),
{
    if evs.len() == 0 {
        None
    } else {
        let rest = first_comment_at(evs.drop_last());
        let e = evs.last();
        if e.event_type@ == "commented"@ {
            match rest {
                Some(t) => Some(
                    if e.created_at < t {
                        e.created_at
                    } else {
                        t
                    },
                ),
                None => Some(e.created_at),
            }
        } else {
            rest
        }
    }
}

/// The response check of an issue with a comment: (met, target hours, actual hours).
pub open spec fn response_check(c: SlaConfig, issue: Issue, events: Map<u64, Vec<IssueEvent>>) -> Option<
    (bool, i64, int),
> {
    if events.contains_key(issue.number) {
        match first_comment_at(events[issue.number]@) {
            Some(t) => {
                let actual = hours_between(t as int, issue.created_at as int);
                let sla = sla_targets(c, issue).0;
                Some((actual <= sla, sla, actual))
            },
            None => None,
        }
    } else {
        None
    }
}

/// The resolution check of a closed issue with a closing time: (met, target hours, actual hours).
pub open spec fn resolution_check(c: SlaConfig, issue: Issue) -> Option<(bool, i64, int)> {
    match (issue.state, issue.closed_at) {
        (IssueState::Closed, Some(t)) => {
            let actual = hours_between(t as int, issue.created_at as int);
            let sla = sla_targets(c, issue).1;
            Some((actual <= sla, sla, actual))
        },
        _ => None,
    }
}

/// Number of issues whose response check came out `met`.
pub open spec fn count_response(s: Seq<Issue>, c: SlaConfig, ev: Map<u64, Vec<IssueEvent>>, met: bool) -> nat
    decreases s.len(),
{
    if s.len() == 0 {
        0
    } else {
        count_response(s.drop_last(), c, ev, met) + if response_check(c, s.last(), ev) matches Some(
            r,
        ) && r.0 == met {
            1nat
        } else {
            0nat
        }
    }
}

/// Number of issues whose resolution check came out `met`.
pub open spec fn count_resolution(s: Seq<Issue>, c: SlaConfig, met: bool) -> nat
    decreases s.len(),
{
    if s.len() == 0 {
        0
    } else {
        count_resolution(s.drop_last(), c, met) + if resolution_check(c, s.last()) matches Some(r)
            && r.0 == met {
            1nat
        } else {
            0nat
        }
    }
}

/// What a violation records.
pub type ViolationView = (u64, Seq<char>, ViolationType, i64, int, int);

pub open spec fn violation_view(v: SlaViolation) -> ViolationView {
    (
        v.issue_number,
        v.issue_title@,
        v.violation_type,
        v.sla_hours,
        v.actual_hours as int,
        v.exceeded_by_hours as int,
    )
}

/// The violations of one issue: its breached response check, then its breached resolution check.
pub open spec fn issue_violations(c: SlaConfig, issue: Issue, ev: Map<u64, Vec<IssueEvent>>) -> Seq<
    ViolationView,
> {
    (match response_check(c, issue, ev) {
        Some((false, sla, actual)) => seq![
            (issue.number, issue.title@, ViolationType::Response, sla, actual, actual - sla),
        ],
        _ => Seq::empty(),
    }) + (match resolution_check(c, issue) {
        Some((false, sla, actual)) => seq![
            (issue.number, issue.title@, ViolationType::Resolution, sla, actual, actual - sla),
        ],
        _ => Seq::empty(),
    })
}

/// The violations of all issues, issue after issue.
pub open spec fn all_violations(s: Seq<Issue>, c: SlaConfig, ev: Map<u64, Vec<IssueEvent>>) -> Seq<
    ViolationView,
>
    decreases s.len(),
{
    if s.len() == 0 {
        Seq::empty()
    } else {
        all_violations(s.drop_last(), c, ev) + issue_violations(c, s.last(), ev)
    }
}

/// Every event is well formed.
pub open spec fn events_valid(ev: Map<u64, Vec<IssueEvent>>) -> bool {
    forall|k: u64, i: int|
        ev.contains_key(k) && 0 <= i < ev[k]@.len() ==> valid_timestamp(
            (#[trigger] ev[k]@[i]).created_at as int,
        )
}

/// The amount by which each breached target is exceeded fits in an `i64`.
pub open spec fn excess_fits(s: Seq<Issue>, c: SlaConfig, ev: Map<u64, Vec<IssueEvent>>) -> bool {
    forall|i: int|
        0 <= i < s.len() ==> {
            &&& (response_check(c, #[trigger] s[i], ev) matches Some(r) ==> r.2 - r.1 <= i64::MAX)
            &&& (resolution_check(c, s[i]) matches Some(r) ==> r.2 - r.1 <= i64::MAX)
        }
}

/// The report of the issues `s` under `c` with the events `ev`.
pub open spec fn is_sla_report(r: SlaReport, s: Seq<Issue>, c: SlaConfig, ev: Map<u64, Vec<IssueEvent>>) -> bool {
    &&& r.total_issues == s.len()
    &&& r.response_sla_met == count_response(s, c, ev, true)
    &&& r.response_sla_breached == count_response(s, c, ev, false)
    &&& r.resolution_sla_met == count_resolution(s, c, true)
    &&& r.resolution_sla_breached == count_resolution(s, c, false)
    &&& Seq::new(r.violations@.len(), |k: int| violation_view(r.violations@[k])) == all_violations(
        s,
        c,
        ev,
    )
}

proof fn lemma_first_comment_valid(evs: Seq<IssueEvent>)
    requires
        forall|i: int| 0 <= i < evs.len() ==> valid_timestamp((#[trigger] evs[i]).created_at as int),
    ensures
        first_comment_at(evs) matches Some(t) ==> valid_timestamp(t as int),
    decreases evs.len(),
{
    if evs.len() > 0 {
        assert forall|i: int| 0 <= i < evs.drop_last().len() implies valid_timestamp(
            (#[trigger] evs.drop_last()[i]).created_at as int,
        ) by {
            assert(evs.drop_last()[i] == evs[i]);
        }
        lemma_first_comment_valid(evs.drop_last());
        assert(valid_timestamp(evs[evs.len() - 1].created_at as int));
    }
}

fn first_comment(evs: &Vec<IssueEvent>) -> (r: Option<i64>)
    ensures
        r == first_comment_at(evs@),
{
    let mut best: Option<i64> = None;
    let mut i: usize = 0;
    while i < evs.len()
        invariant
            i <= evs.len(),
            best == first_comment_at(evs@.take(i as int)),
        decreases evs.len() - i,
    {
        assert(evs@.take(i + 1).drop_last() =~= evs@.take(i as int));
        let e = &evs[i];
        if str_eq(e.event_type.as_str(), "commented") {
            best = match best {
                Some(t) => Some(
                    if e.created_at < t {
                        e.created_at
                    } else {
                        t
                    },
                ),
                None => Some(e.created_at),
            };
        }
        i = i + 1;
    }
    assert(evs@.take(evs.len() as int) =~= evs@);
    best
}

proof fn lemma_first_priority_prefix(p: Seq<(String, SlaPriority)>, i: int, key: Seq<char>)
    requires
        0 <= i <= p.len(),
        first_priority(p.take(i), key) is Some,
    ensures
        first_priority(p, key) == first_priority(p.take(i), key),
    decreases p.len() - i,
{
    if i < p.len() {
        assert(p.take(i + 1).drop_last() =~= p.take(i));
        lemma_first_priority_prefix(p, i + 1, key);
    } else {
        assert(p.take(i) =~= p);
    }
}

proof fn lemma_label_priority_prefix(labels: Seq<Label>, i: int, p: Seq<(String, SlaPriority)>)
    requires
        0 <= i <= labels.len(),
        label_priority(labels.take(i), p) is Some,
    ensures
        label_priority(labels, p) == label_priority(labels.take(i), p),
    decreases labels.len() - i,
{
    if i < labels.len() {
        assert(labels.take(i + 1).drop_last() =~= labels.take(i));
        lemma_label_priority_prefix(labels, i + 1, p);
    } else {
        assert(labels.take(i) =~= labels);
    }
}

fn lookup_priority(p: &Vec<(String, SlaPriority)>, key: &String) -> (r: Option<SlaPriority>)
    ensures
        r == first_priority(p@, key@),
{
    let mut i: usize = 0;
    while i < p.len()
        invariant
            i <= p.len(),
            first_priority(p@.take(i as int), key@) is None,
        decreases p.len() - i,
    {
        assert(p@.take(i + 1).drop_last() =~= p@.take(i as int));
        if p[i].0 == *key {
            proof {
                lemma_first_priority_prefix(p@, i + 1, key@);
            }
            return Some(p[i].1);
        }
        i = i + 1;
    }
    assert(p@.take(i as int) =~= p@);
    None
}

impl SlaCalculator {
    /// Create a new SLA calculator with the given config
    pub fn new(config: SlaConfig) -> (c: Self)
        requires
            config.wf(),
        ensures
            c.config() == config,
    {
        Self { config }
    }

    /// The SLA configuration.
    pub closed spec fn config(&self) -> SlaConfig {
        self.config
    }

    /// The (response, resolution) targets in hours for an issue: those of the
    /// first label with a priority entry, else the defaults.
    fn get_sla_for_issue(&self, issue: &Issue) -> (r: (i64, i64))
        ensures
            r == sla_targets(self.config, *issue),
    {
        let mut i: usize = 0;
        while i < issue.labels.len()
            invariant
                i <= issue.labels.len(),
                label_priority(issue.labels@.take(i as int), self.config.priority@) is None,
            decreases issue.labels.len() - i,
        {
            assert(issue.labels@.take(i + 1).drop_last() =~= issue.labels@.take(i as int));
            let lower = to_lowercase(issue.labels[i].name.as_str());
            if let Some(priority) = lookup_priority(&self.config.priority, &lower) {
                proof {
                    lemma_label_priority_prefix(issue.labels@, i + 1, self.config.priority@);
                }
                return (priority.response_time_hours, priority.resolution_time_hours);
            }
            i = i + 1;
        }
        assert(issue.labels@.take(i as int) =~= issue.labels@);
        (self.config.response_time_hours, self.config.resolution_time_hours)
    }

    /// Calculate SLA compliance for issues, given each issue's events by issue number
    pub fn calculate(&self, issues: &[Issue], events: &HashMap<u64, Vec<IssueEvent>>) -> (r: SlaReport)
        requires
            all_valid(issues@),
            events_valid(events@),
            excess_fits(issues@, self.config(), events@),
        ensures
            is_sla_report(r, issues@, self.config(), events@),
    {
        let mut response_met: usize = 0;
        let mut response_breached: usize = 0;
        let mut resolution_met: usize = 0;
        let mut resolution_breached: usize = 0;
        let mut violations: Vec<SlaViolation> = Vec::new();
        let ghost c = self.config;
        let ghost ev = events@;
        let mut i: usize = 0;
        while i < issues.len()
            invariant
                i <= issues.len(),
                c == self.config,
                ev == events@,
                all_valid(issues@),
                events_valid(ev),
                excess_fits(issues@, c, ev),
                response_met + response_breached <= i,
                resolution_met + resolution_breached <= i,
                response_met == count_response(issues@.take(i as int), c, ev, true),
                response_breached == count_response(issues@.take(i as int), c, ev, false),
                resolution_met == count_resolution(issues@.take(i as int), c, true),
                resolution_breached == count_resolution(issues@.take(i as int), c, false),
                Seq::new(violations@.len(), |k: int| violation_view(violations@[k])) == all_violations(
                    issues@.take(i as int),
                    c,
                    ev,
                ),
            decreases issues.len() - i,
        {
            assert(issues@.take(i + 1).drop_last() =~= issues@.take(i as int));
            let issue = &issues[i];
            assert(issue.valid());
            let ghost vs0 = Seq::new(violations@.len(), |k: int| violation_view(violations@[k]));
            let (response_hours, resolution_hours) = self.get_sla_for_issue(issue);
            // Check response SLA
            let mut resp_part: Ghost<Seq<ViolationView>> = Ghost(Seq::empty());
            if let Some(issue_events) = events.get(&issue.number) {
                proof {
                    assert(forall|k: int|
                        0 <= k < issue_events@.len() ==> valid_timestamp(
                            (#[trigger] issue_events@[k]).created_at as int,
                        )) by {
                        assert forall|k: int| 0 <= k < issue_events@.len() implies valid_timestamp(
                            (#[trigger] issue_events@[k]).created_at as int,
                        ) by {
                            assert(ev[issue.number]@[k] == issue_events@[k]);
                        }
                    }
                    lemma_first_comment_valid(issue_events@);
                }
                if let Some(first) = first_comment(issue_events) {
                    let response_time = num_hours_between(first, issue.created_at);
                    if response_time <= response_hours {
                        response_met = response_met + 1;
                    } else {
                        assert(excess_fits(issues@, c, ev));
                        assert(response_check(c, issues@[i as int], ev) matches Some(r) && r.2 - r.1
                            <= i64::MAX);
                        response_breached = response_breached + 1;
                        let v = SlaViolation {
                            issue_number: issue.number,
                            issue_title: issue.title.clone(),
                            violation_type: ViolationType::Response,
                            sla_hours: response_hours,
                            actual_hours: response_time,
                            exceeded_by_hours: response_time - response_hours,
                        };
                        proof {
                            resp_part@ = seq![violation_view(v)];
                        }
                        violations.push(v);
                    }
                }
            }
            let ghost vs1 = Seq::new(violations@.len(), |k: int| violation_view(violations@[k]));
            assert(vs1 =~= vs0 + resp_part@);
            // Check resolution SLA for closed issues
            let mut res_part: Ghost<Seq<ViolationView>> = Ghost(Seq::empty());
            if issue.state == IssueState::Closed {
                if let Some(closed_at) = issue.closed_at {
                    let resolution_time = num_hours_between(closed_at, issue.created_at);
                    if resolution_time <= resolution_hours {
                        resolution_met = resolution_met + 1;
                    } else {
                        assert(resolution_check(c, issues@[i as int]) matches Some(r) && r.2 - r.1
                            <= i64::MAX);
                        resolution_breached = resolution_breached + 1;
                        let v = SlaViolation {
                            issue_number: issue.number,
                            issue_title: issue.title.clone(),
                            violation_type: ViolationType::Resolution,
                            sla_hours: resolution_hours,
                            actual_hours: resolution_time,
                            exceeded_by_hours: resolution_time - resolution_hours,
                        };
                        proof {
                            res_part@ = seq![violation_view(v)];
                        }
                        violations.push(v);
                    }
                }
            }
            let ghost vs2 = Seq::new(violations@.len(), |k: int| violation_view(violations@[k]));
            assert(vs2 =~= vs1 + res_part@);
            assert(resp_part@ + res_part@ =~= issue_violations(c, issues@[i as int], ev));
            assert(vs2 =~= all_violations(issues@.take(i + 1), c, ev));
            i = i + 1;
        }
        assert(issues@.take(issues.len() as int) =~= issues@);
        SlaReport {
            total_issues: issues.len(),
            response_sla_met: response_met,
            response_sla_breached: response_breached,
            resolution_sla_met: resolution_met,
            resolution_sla_breached: resolution_breached,
            violations,
        }
    }
}

/// Every breached target is reported as one violation: the violations are as
/// many as the breached response and resolution checks together, and no
/// issue counts as both meeting and breaching the same target.
pub proof fn law_violations_match_breaches(s: Seq<Issue>, c: SlaConfig, ev: Map<u64, Vec<IssueEvent>>)
    ensures
        all_violations(s, c, ev).len() == count_response(s, c, ev, false) + count_resolution(s, c, false),
        count_response(s, c, ev, true) + count_response(s, c, ev, false) <= s.len(),
        count_resolution(s, c, true) + count_resolution(s, c, false) <= s.len(),
    decreases s.len(),
{
    if s.len() > 0 {
        law_violations_match_breaches(s.drop_last(), c, ev);
    }
}

/// The first response to an issue is its earliest comment: when the events
/// hold a `commented` event, the instant taken is the time of one of them and
/// no `commented` event is earlier; without one there is none.
pub proof fn law_first_response_is_earliest_comment(evs: Seq<IssueEvent>)
    ensures
        first_comment_at(evs) is None <==> forall|i: int|
            0 <= i < evs.len() ==> (#[trigger] evs[i]).event_type@ != "commented"@,
        first_comment_at(evs) matches Some(t) ==> exists|i: int|
            0 <= i < evs.len() && (#[trigger] evs[i]).event_type@ == "commented"@ && evs[i].created_at == t,
        first_comment_at(evs) matches Some(t) ==> forall|i: int|
            0 <= i < evs.len() && (#[trigger] evs[i]).event_type@ == "commented"@ ==> t <= evs[i].created_at,
    decreases evs.len(),
{
    if evs.len() > 0 {
        let rest = evs.drop_last();
        law_first_response_is_earliest_comment(rest);
        let n = evs.len() - 1;
        assert(evs[n] == evs.last());
        assert forall|i: int| 0 <= i < rest.len() implies rest[i] == evs[i] by {}
        match first_comment_at(rest) {
            Some(t) => {
                let w = choose|i: int|
                    0 <= i < rest.len() && (#[trigger] rest[i]).event_type@ == "commented"@ && rest[i].created_at
                        == t;
                assert(evs[w] == rest[w]);
            },
            None => {},
        }
        if first_comment_at(evs) is None {
            assert forall|i: int| 0 <= i < evs.len() implies (#[trigger] evs[i]).event_type@ != "commented"@ by {
                if i < n {
                    assert(rest[i] == evs[i]);
                }
            }
        }
        assert forall|i: int|
            0 <= i < evs.len() && (#[trigger] evs[i]).event_type@ == "commented"@ implies first_comment_at(
            evs,
        ) matches Some(t) && t <= evs[i].created_at by {
            if i < n {
                assert(rest[i] == evs[i]);
            }
        }
    }
}

/// An issue's response time is measured from its creation to its earliest
/// `commented` event, and met when it is within the target; there is no
/// response check when the issue has no `commented` event.
pub proof fn law_response_to_earliest_comment(c: SlaConfig, issue: Issue, events: Map<u64, Vec<IssueEvent>>)
    ensures
        response_check(c, issue, events) is None <==> (!events.contains_key(issue.number) || forall|i: int|
            0 <= i < events[issue.number]@.len() ==> (#[trigger] events[issue.number]@[i]).event_type@
                != "commented"@),
        response_check(c, issue, events) matches Some((met, sla, actual)) ==> {
            let evs = events[issue.number]@;
            &&& met == (actual <= sla)
            &&& exists|i: int|
                0 <= i < evs.len() && (#[trigger] evs[i]).event_type@ == "commented"@ && actual == hours_between(
                    evs[i].created_at as int,
                    issue.created_at as int,
                ) && forall|j: int|
                    0 <= j < evs.len() && (#[trigger] evs[j]).event_type@ == "commented"@ ==> evs[i].created_at
                        <= evs[j].created_at
        },
{
    if events.contains_key(issue.number) {
        let evs = events[issue.number]@;
        law_first_response_is_earliest_comment(evs);
        if let Some(t) = first_comment_at(evs) {
            let w = choose|i: int|
                0 <= i < evs.len() && (#[trigger] evs[i]).event_type@ == "commented"@ && evs[i].created_at == t;
            assert(evs[w].event_type@ == "commented"@);
        }
    }
}

} // verus!
