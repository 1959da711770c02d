//! Data models
pub mod calendar;
pub mod issue;
pub mod project;
pub mod pull_request;
pub mod release;
pub mod release_plan;
pub mod repository;
pub mod user;

pub use calendar::{CalendarData, CalendarEvent, CalendarEventType, CalendarSummary};
pub use issue::{Issue, IssueEvent, IssueState, Label, Milestone, MilestoneState};
pub use project::{
    FieldValue, IterationValue, LabelInfo, Project, ProjectField, ProjectFieldType,
    ProjectFieldValue, ProjectItem, ProjectItemContent, SelectOption,
};
pub use pull_request::{PrSize, PullRequest, PullState, Review};
pub use release::Release;
pub use release_plan::{RecentRelease, ReleasePlanStatus};
pub use repository::Repository;
pub use user::User;
