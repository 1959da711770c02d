use greport::error::{ApiFailure, Error};
use greport::text::str_contains;

#[test]
fn error_retryable_kinds() {
    assert!(Error::Network("x".into()).is_retryable());
    assert!(Error::RateLimitExceeded { reset_at: "soon".into() }.is_retryable());
    assert!(!Error::MissingToken.is_retryable());
    assert!(matches!(Error::custom("boom"), Error::Custom(m) if m == "boom"));
}

#[test]
fn substring_search() {
    assert!(str_contains("type:bug", "bug"));
    assert!(!str_contains("bu", "bug"));
}

#[test]
fn api_failures_become_api_errors() {
    let e = Error::from_api_failure(&ApiFailure::GitHub { status: 404, message: "Not Found".into() });
    assert!(matches!(e, Error::GitHubApi(m) if m == "404: Not Found"));
    let e = Error::from_api_failure(&ApiFailure::Http { message: "timed out".into() });
    assert!(matches!(e, Error::GitHubApi(m) if m == "HTTP error: timed out"));
    let e = Error::from_api_failure(&ApiFailure::Parse { message: "bad json".into() });
    assert!(matches!(e, Error::GitHubApi(m) if m == "Response parse error: bad json"));
    let e = Error::from_api_failure(&ApiFailure::Other { message: "other".into() });
    assert!(matches!(e, Error::GitHubApi(m) if m == "other"));
}
