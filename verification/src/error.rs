//! Error types
use vstd::prelude::*;

use crate::text::{decimal, push_str, u64_to_decimal};

verus! {

/// Result type alias for greport operations
pub type Result<T> = std::result::Result<T, Error>;

/// How a call to the GitHub API failed
#[derive(Debug, Clone)]
pub enum ApiFailure {
    /// The HTTP exchange itself failed; the error's message
    Http { message: String },
    /// GitHub answered with an error status and message
    GitHub { status: u16, message: String },
    /// The response could not be parsed; the error's message
    Parse { message: String },
    /// Any other failure; the error's message
    Other { message: String },
}

/// Error types for greport operations
#[derive(Debug)]
pub enum Error {
    /// GitHub API error
    GitHubApi(String),
    /// Invalid repository format
    InvalidRepoFormat(String),
    /// Repository not found
    RepoNotFound(String),
    /// Missing GitHub token
    MissingToken,
    /// No token configured for the specified organization
    OrgNotConfigured {
        /// Organization name
        org: String,
        /// Environment variable suffix (uppercase org name)
        env_var: String,
    },
    /// Rate limit exceeded
    RateLimitExceeded {
        /// Time when rate limit resets
        reset_at: String,
    },
    /// Network error
    Network(String),
    /// Serialization error (the JSON error's message)
    Serialization(String),
    /// Invalid date range
    InvalidDateRange {
        /// Start date
        start: String,
        /// End date
        end: String,
    },
    /// Milestone not found
    MilestoneNotFound(String),
    /// Resource not found
    NotFound(String),
    /// Configuration error
    Config(String),
    /// GraphQL API error
    GraphQL(String),
    /// Missing required token scope for GitHub Projects
    MissingProjectScope {
        /// Organization name
        org: String,
    },
    /// GitHub Projects V2 not available on this instance
    ProjectsNotAvailable,
    /// Custom error
    Custom(String),
}

impl Error {
    /// Create a custom error with a message
    pub fn custom(msg: &str) -> (e: Error)
        ensures
            e matches Error::Custom(m) && m@ == msg@,
    {
        Error::Custom(String::from_str(msg))
    }

    /// Check if the error is retryable
    pub fn is_retryable(&self) -> (r: bool)
        ensures
            r == (self is Network || self is RateLimitExceeded),
    {
        match self {
            Error::Network(_) => true,
            Error::RateLimitExceeded { .. } => true,
            _ => false,
        }
    }
}

/// The message of the API error that a failure becomes.
pub open spec fn api_failure_message(f: ApiFailure) -> Seq<char> {
    match f {
        ApiFailure::GitHub { status, message } => decimal(status as nat) + ": "@ + message@,
        ApiFailure::Http { message } => "HTTP error: "@ + message@,
        ApiFailure::Parse { message } => "Response parse error: "@ + message@,
        ApiFailure::Other { message } => message@,
    }
}

impl Error {
    /// The error for a failed call to the GitHub API: its status and message,
    /// or what failed with the failure's message
    pub fn from_api_failure(f: &ApiFailure) -> (e: Error)
        ensures
            e matches Error::GitHubApi(m) && m@ == api_failure_message(*f),
    {
        match f {
            ApiFailure::GitHub { status, message } => {
                let mut m = u64_to_decimal(*status as u64);
                push_str(&mut m, ": ");
                push_str(&mut m, message.as_str());
                Error::GitHubApi(m)
            },
            ApiFailure::Http { message } => {
                let mut m = String::from_str("HTTP error: ");
                push_str(&mut m, message.as_str());
                Error::GitHubApi(m)
            },
            ApiFailure::Parse { message } => {
                let mut m = String::from_str("Response parse error: ");
                push_str(&mut m, message.as_str());
                Error::GitHubApi(m)
            },
            ApiFailure::Other { message } => Error::GitHubApi(message.clone()),
        }
    }
}

} // verus!
