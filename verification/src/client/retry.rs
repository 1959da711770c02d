//! Retry decisions for transient network errors
use vstd::prelude::*;

pub use crate::error::ApiFailure;
use crate::text::{has_substring, str_contains, to_lowercase, unicode_lower};

verus! {

/// A lowercase error message names a transient network condition.
pub open spec fn transient_message(lower: Seq<char>) -> bool {
    ||| has_substring(lower, "connection"@)
    ||| has_substring(lower, "timeout"@)
    ||| has_substring(lower, "reset"@)
    ||| has_substring(lower, "broken pipe"@)
    ||| has_substring(lower, "temporarily unavailable"@)
    ||| has_substring(lower, "eof"@)
}

/// A status worth retrying: a server error (5xx), too many requests (429) or
/// a request timeout (408).
pub open spec fn retryable_status(status: u16) -> bool {
    (500 <= status < 600) || status == 429 || status == 408
}

/// Whether a failure is worth retrying.
pub open spec fn retryable(err: ApiFailure) -> bool {
    match err {
        ApiFailure::Http { message } => transient_message(unicode_lower(message@)),
        ApiFailure::GitHub { status, .. } => retryable_status(status),
        _ => false,
    }
}

/// Check if an error is retryable (transient network error, server error,
/// rate limiting or timeout)
pub fn is_retryable_error(err: &ApiFailure) -> (r: bool)
    ensures
        r == retryable(*err),
{
    match err {
        ApiFailure::Http { message } => {
            let lower = to_lowercase(message.as_str());
            let l = lower.as_str();
            str_contains(l, "connection") || str_contains(l, "timeout") || str_contains(l, "reset")
                || str_contains(l, "broken pipe") || str_contains(l, "temporarily unavailable")
                || str_contains(l, "eof")
        },
        ApiFailure::GitHub { status, .. } => (500 <= *status && *status < 600) || *status == 429
            || *status == 408,
        _ => false,
    }
}

/// After the `attempt`-th attempt (counting from 1) failed: try again when
/// retries remain and the failure is transient.
pub fn should_retry(attempt: usize, max_retries: usize, err: &ApiFailure) -> (r: bool)
    ensures
        r == (attempt <= max_retries && retryable(*err)),
{
    attempt <= max_retries && is_retryable_error(err)
}

} // verus!
