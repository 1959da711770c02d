//! User model
use vstd::prelude::*;

verus! {

/// GitHub user
#[derive(Debug, Clone)]
pub struct User {
    /// User ID
    pub id: i64,
    /// Username
    pub login: String,
    /// Avatar URL
    pub avatar_url: String,
    /// Profile URL
    pub html_url: String,
}

impl User {
    /// Create a placeholder user for unknown authors
    pub fn unknown() -> (u: User)
        ensures
            u.id == 0,
            u.login@ == "unknown"@,
            u.avatar_url@.len() == 0,
            u.html_url@.len() == 0,
    {
        User {
            id: 0,
            login: String::from_str("unknown"),
            avatar_url: String::new(),
            html_url: String::new(),
        }
    }
}

} // verus!
