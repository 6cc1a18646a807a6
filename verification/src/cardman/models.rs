//! Domain types of the first-generation board (users carry display names,
//! cards carry no repository).
use vstd::prelude::*;

use crate::labels::{parse_priority_label, priority_of_label};

verus! {

/// A GitHub user.
#[derive(Debug, Clone, PartialEq, Eq)]
pub struct User {
    /// GitHub login (username).
    pub login: String,
    /// URL to the user's avatar image.
    pub avatar_url: String,
    /// Display name (may be empty).
    pub name: Option<String>,
}

impl Default for User {
    /// A user with an empty login, no avatar and no name.
    fn default() -> (u: Self)
        ensures
            u.login@.len() == 0,
            u.avatar_url@.len() == 0,
            u.name is None,
    {
        User { login: String::new(), avatar_url: String::new(), name: None }
    }
}

/// A GitHub repository.
#[derive(Debug, Clone, PartialEq, Eq)]
pub struct Repository {
    /// Repository owner login.
    pub owner: String,
    /// Repository name.
    pub name: String,
    /// Whether the repository is archived.
    pub archived: bool,
    /// Name of the default branch (e.g. "main").
    pub default_branch: String,
}

/// A GitHub label attached to issues or pull requests.
#[derive(Debug, Clone, PartialEq, Eq)]
pub struct Label {
    /// Label text.
    pub name: String,
    /// Hex color code without leading `#` (e.g. "d73a4a").
    pub color: String,
}

/// State of a GitHub issue.
#[derive(Debug, Clone, Copy, PartialEq, Eq)]
pub enum IssueState {
    /// The issue is open.
    Open,
    /// The issue is closed.
    Closed,
}

/// A GitHub issue.
#[derive(Debug, Clone, PartialEq, Eq)]
pub struct Issue {
    /// Issue number within the repository.
    pub number: u64,
    /// Issue title.
    pub title: String,
    /// Issue body (markdown).
    pub body: Option<String>,
    /// Labels attached to this issue.
    pub labels: Vec<Label>,
    /// Users assigned to this issue.
    pub assignees: Vec<User>,
    /// Current state.
    pub state: IssueState,
    /// Sub-issue numbers (for epics).
    pub sub_issues: Vec<u64>,
}

/// Review verdict on a pull request.
#[derive(Debug, Clone, Copy, PartialEq, Eq)]
pub enum ReviewState {
    /// Approved.
    Approved,
    /// Changes were requested.
    ChangesRequested,
    /// A comment without verdict.
    Commented,
    /// Review is pending.
    Pending,
    /// Review was dismissed.
    Dismissed,
}

/// A single review on a pull request.
#[derive(Debug, Clone, PartialEq, Eq)]
pub struct Review {
    /// The user who reviewed.
    pub user: User,
    /// Review verdict.
    pub state: ReviewState,
}

/// Aggregated CI status for a pull request.
#[derive(Debug, Clone, Copy, PartialEq, Eq)]
pub enum CiStatus {
    /// All checks passed.
    Success,
    /// At least one check failed.
    Failure,
    /// Checks are still running.
    Pending,
}

/// A GitHub pull request.
#[derive(Debug, Clone, PartialEq, Eq)]
pub struct PullRequest {
    /// PR number within the repository.
    pub number: u64,
    /// PR title.
    pub title: String,
    /// Whether this PR is a draft.
    pub draft: bool,
    /// PR author (includes avatar URL for display).
    pub author: User,
    /// Assigned users (includes avatar URLs for display).
    pub assignees: Vec<User>,
    /// Users requested to review this PR (drives Code Review column).
    pub requested_reviewers: Vec<User>,
    /// Reviews submitted on this PR.
    pub reviews: Vec<Review>,
    /// Aggregated CI status.
    pub ci_status: CiStatus,
    /// Whether this PR has been merged into the default branch.
    pub merged: bool,
    /// Whether this PR was closed without merging.
    pub closed: bool,
    /// Head branch name.
    pub branch: String,
    /// Labels attached to this PR.
    pub labels: Vec<Label>,
}

/// A GitHub organization.
#[derive(Debug, Clone, PartialEq, Eq)]
pub struct Organization {
    /// Organization login.
    pub login: String,
    /// Whether this is the main organization (shows issues + PRs).
    /// Secondary organizations show PRs only.
    pub is_main: bool,
}

/// Priority level parsed from `#N` labels.
///
/// Lower numeric value = higher priority = shown first on the board.
#[derive(Debug, Clone, Copy, PartialEq, Eq, PartialOrd, Ord)]
pub struct Priority(pub u8);

impl Priority {
    /// Attempt to parse a priority from a label name.
    ///
    /// Returns `Some(Priority(n))` if the label is exactly `#N` where N ∈ 1..=6.
    pub fn from_label(label_name: &str) -> (r: Option<Priority>)
        ensures
            r matches Some(p) ==> priority_of_label(label_name@) == Some(p.0),
            r is None <==> priority_of_label(label_name@) is None,
            r matches Some(p) ==> 1 <= p.0 <= 6 && label_name@ =~= seq!['#', (('0' as u32) + p.0) as char],
    {
        match parse_priority_label(label_name) {
            Some(n) => Some(Priority(n)),
            None => None,
        }
    }
}

/// Source of a Kanban card — either an issue or a pull request.
#[derive(Debug, Clone, PartialEq, Eq)]
pub enum CardSource {
    /// Card backed by a GitHub issue.
    Issue(Issue),
    /// Card backed by a GitHub pull request.
    PullRequest(PullRequest),
}

/// A Kanban card with computed column and priority.
#[derive(Debug, Clone, PartialEq, Eq)]
pub struct Card {
    /// The underlying issue or pull request.
    pub source: CardSource,
    /// The column this card belongs to (computed by the mapping engine).
    pub column: Column,
    /// Priority (from `#N` labels). `None` if no priority label is present.
    pub priority: Option<Priority>,
}

/// A column on the Kanban board.
#[derive(Debug, Clone, PartialEq, Eq)]
pub struct Column {
    /// Display name.
    pub name: String,
    /// Emoji prefix for the column name.
    pub emoji: String,
    /// Sort order (lower = further left on the board).
    pub sort_order: u8,
}

} // verus!
