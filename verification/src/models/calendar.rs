//! Calendar event model types for change management calendar
use vstd::prelude::*;

verus! {

/// Type of calendar event
#[derive(Debug, Clone, Copy, PartialEq, Eq, Structural)]
pub enum CalendarEventType {
    /// Issue was created
    IssueCreated,
    /// Issue was closed
    IssueClosed,
    /// Milestone due date
    MilestoneDue,
    /// Milestone was closed
    MilestoneClosed,
    /// Release was published
    ReleasePublished,
    /// Pull request was merged
    PrMerged,
}

/// A single calendar event
#[derive(Debug, Clone)]
pub struct CalendarEvent {
    /// Unique event identifier
    pub id: String,
    /// Event type
    pub event_type: CalendarEventType,
    /// Event title
    pub title: String,
    /// Event date
    pub date: i64,
    /// Issue/PR/milestone number
    pub number: Option<u64>,
    /// State (open, closed, etc.)
    pub state: Option<String>,
    /// Repository full name (owner/repo)
    pub repository: String,
    /// Labels associated with the event
    pub labels: Vec<String>,
    /// Associated milestone title
    pub milestone: Option<String>,
    /// URL to the event on GitHub
    pub url: String,
}

/// Summary of calendar events by type
#[derive(Debug, Clone)]
pub struct CalendarSummary {
    /// Total number of events
    pub total_events: usize,
    /// Event count by type, one entry per type name
    pub by_type: Vec<(String, usize)>,
}

/// Calendar data for a date range (dates are days since 1970-01-01)
#[derive(Debug, Clone)]
pub struct CalendarData {
    /// Start of date range
    pub start_date: i64,
    /// End of date range
    pub end_date: i64,
    /// Events in the date range
    pub events: Vec<CalendarEvent>,
    /// Summary statistics
    pub summary: CalendarSummary,
}

} // verus!
