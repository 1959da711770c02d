//! Release model
use vstd::prelude::*;

use crate::models::user::User;

verus! {

/// GitHub release
#[derive(Debug, Clone)]
pub struct Release {
    /// Release ID
    pub id: i64,
    /// Git tag name
    pub tag_name: String,
    /// Release name
    pub name: Option<String>,
    /// Release body (markdown)
    pub body: Option<String>,
    /// Is draft release
    pub draft: bool,
    /// Is prerelease
    pub prerelease: bool,
    /// Release author
    pub author: User,
    /// Creation timestamp
    pub created_at: i64,
    /// Published timestamp
    pub published_at: Option<i64>,
}

impl Release {
    /// Get display name (name or tag_name)
    pub fn display_name(&self) -> (r: &str)
        ensures
            r@ == (match &self.name {
                Some(n) => n@,
                None => self.tag_name@,
            }),
    {
        match &self.name {
            Some(n) => n.as_str(),
            None => self.tag_name.as_str(),
        }
    }

    /// Check if release is published
    pub fn is_published(&self) -> (r: bool)
        ensures
            r == (!self.draft && self.published_at is Some),
    {
        !self.draft && self.published_at.is_some()
    }

    /// Check if this is a stable release (not draft, not prerelease)
    pub fn is_stable(&self) -> (r: bool)
        ensures
            r == (!self.draft && !self.prerelease),
    {
        !self.draft && !self.prerelease
    }
}

} // verus!
