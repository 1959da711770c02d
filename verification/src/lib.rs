//! Core library for GitHub repository analytics: data models, metrics over
//! issues and pull requests (velocity, SLA, burndown), release notes, and the
//! configuration and API-client logic that feeds them.

pub mod client;
pub mod config;
pub mod db;
pub mod error;
pub mod metrics;
pub mod models;
pub mod reports;
pub mod text;
pub mod stats;
pub mod tally;
pub mod time;

pub use client::registry::{GitHubClientRegistry, OrgEntry};
pub use client::RepoId;
pub use config::{Config, OrgConfig};
pub use error::{Error, Result};
