//! Instants and spans of time.
//!
//! An instant is a count of whole seconds since 1970-01-01T00:00:00 UTC, within
//! the range of instants that `chrono::DateTime<Utc>` can represent.
use vstd::prelude::*;

verus! {

/// The earliest representable instant (-262143-01-01T00:00:00 UTC).
pub const MIN_TIMESTAMP: i64 = -8334601315200i64;

/// The latest representable instant (262142-12-31T23:59:59 UTC).
pub const MAX_TIMESTAMP: i64 = 8210266876799i64;

pub const SECS_PER_HOUR: i64 = 3600i64;

pub const SECS_PER_DAY: i64 = 86400i64;

/// An instant lies within the representable range.
pub open spec fn valid_timestamp(t: int) -> bool {
    MIN_TIMESTAMP <= t <= MAX_TIMESTAMP
}

/// Integer division rounding toward zero (as Rust's `/` on integers does), for `b > 0`.
pub open spec fn div_toward_zero(a: int, b: int) -> int {
    if a >= 0 {
        a / b
    } else {
        -((-a) / b)
    }
}

/// Whole hours from `start` to `end`, rounded toward zero (`(end - start).num_hours()`).
pub open spec fn hours_between(end: int, start: int) -> int {
    div_toward_zero(end - start, SECS_PER_HOUR as int)
}

/// Whole days from `start` to `end`, rounded toward zero (`(end - start).num_days()`).
pub open spec fn days_between(end: int, start: int) -> int {
    div_toward_zero(end - start, SECS_PER_DAY as int)
}

fn div_trunc(a: i64, b: i64) -> (r: i64)
    requires
        b > 0,
        a > i64::MIN,
    ensures
        r == div_toward_zero(a as int, b as int),
{
    if a >= 0 {
        a / b
    } else {
        let q = (-a) / b;
        -q
    }
}

/// Whole hours elapsed from `start` to `end`, rounded toward zero.
pub fn num_hours_between(end: i64, start: i64) -> (r: i64)
    requires
        valid_timestamp(end as int),
        valid_timestamp(start as int),
    ensures
        r == hours_between(end as int, start as int),
{
    div_trunc(end - start, SECS_PER_HOUR)
}

/// Whole days elapsed from `start` to `end`, rounded toward zero.
pub fn num_days_between(end: i64, start: i64) -> (r: i64)
    requires
        valid_timestamp(end as int),
        valid_timestamp(start as int),
    ensures
        r == days_between(end as int, start as int),
{
    div_trunc(end - start, SECS_PER_DAY)
}

/// The system clock could not be read as an instant: it reads before
/// 1970-01-01T00:00:00 UTC or after the latest representable instant.
#[derive(Debug, Clone, Copy, PartialEq, Eq, Structural)]
pub struct ClockUnavailable;

#[verifier::external_type_specification]
#[verifier::external_body]
pub struct ExSystemTime(std::time::SystemTime);

/// Calls `SystemTime::now()`, the reading that `chrono::Utc::now()` makes.
/// The clock is read, so nothing is stated of the value.
#[verifier::external_body]
fn system_now() -> (r: std::time::SystemTime) {
    std::time::SystemTime::now()
}

/// Calls `SystemTime::duration_since(UNIX_EPOCH)`, `None` where it fails
/// (`t` lies before 1970-01-01T00:00:00 UTC). Nothing is stated of the span.
#[verifier::external_body]
fn since_unix_epoch(t: &std::time::SystemTime) -> (r: Option<std::time::Duration>) {
    match t.duration_since(std::time::UNIX_EPOCH) {
        Ok(d) => Some(d),
        Err(_) => None,
    }
}

/// Calls `Duration::as_secs`: the whole seconds of a span. Nothing is stated
/// of the value.
#[verifier::external_body]
fn whole_secs(d: &std::time::Duration) -> (r: u64) {
    d.as_secs()
}

/// An instant the clock can read: from the epoch to the latest representable
/// instant.
pub open spec fn clock_instant(t: int) -> bool {
    0 <= t <= MAX_TIMESTAMP
}

/// The current instant, or `None` when the clock reads before the epoch or
/// beyond the representable range.
pub(crate) fn now_timestamp() -> (r: Option<i64>)
    ensures
        r matches Some(t) ==> clock_instant(t as int),
{
    let t = system_now();
    match since_unix_epoch(&t) {
        Some(d) => {
            let secs = whole_secs(&d);
            if secs <= MAX_TIMESTAMP as u64 {
                Some(secs as i64)
            } else {
                None
            }
        },
        None => None,
    }
}

/// The UTC calendar date of the instant `t`, as `chrono` formats it with
/// `%Y-%m-%d`.
pub uninterp spec fn utc_date_text(t: int) -> Seq<char>;

/// Calls `chrono::DateTime::from_timestamp(t, 0)` and formats the result with
/// `%Y-%m-%d`. `from_timestamp` gives a date for every representable instant;
/// the text is named `utc_date_text`, the calendar arithmetic is not stated.
#[verifier::external_body]
pub(crate) fn date_text_of(t: i64) -> (r: Option<String>)
    requires
        valid_timestamp(t as int),
    ensures
        r.is_some(),
        r.unwrap()@ == utc_date_text(t as int),
{
    match chrono::DateTime::from_timestamp(t, 0) {
        Some(d) => Some(d.format("%Y-%m-%d").to_string()),
        None => None,
    }
}

} // verus!
