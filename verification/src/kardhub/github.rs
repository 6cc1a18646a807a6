//! GitHub REST API response handling: the raw response shapes, their
//! conversion to domain types, error classification, request paths and
//! payloads, and the decisions the paginating clients make.
//!
//! Sending requests is left to the callers; everything they decide on the
//! way is here.
use vstd::prelude::*;

use crate::kardhub::models::{
    AuthenticatedUser, CiStatus, Comment, Issue, IssueState, Label, Organization, PullRequest,
    Repository, Review, ReviewState, User,
};
use crate::text::{append_str, copy_str, copy_strings, decimal, str_eq, u64_to_decimal};
use vstd::string::StringSliceAdditionalSpecFns;

verus! {

/// Errors that may occur when interacting with the GitHub API.
#[derive(Debug)]
pub enum GitHubError {
    /// HTTP request failed.
    Http(String),
    /// JSON deserialization failed.
    Deserialize(String),
    /// Authentication error (e.g. expired token).
    Auth(String),
    /// Rate limit exceeded. Contains the reset timestamp (Unix epoch seconds).
    RateLimit(u64),
    /// Resource not found.
    NotFound(String),
}

/// The message an error displays.
pub open spec fn github_error_message(e: GitHubError) -> Seq<char> {
    match e {
        GitHubError::Http(m) => "HTTP error: "@ + m@,
        GitHubError::Deserialize(m) => "deserialization error: "@ + m@,
        GitHubError::Auth(m) => "authentication error: "@ + m@,
        GitHubError::RateLimit(reset) => "rate limit exceeded, resets at "@ + decimal(reset as nat),
        GitHubError::NotFound(m) => "not found: "@ + m@,
    }
}

impl GitHubError {
    /// The message this error displays.
    pub fn to_string(&self) -> (s: String)
        ensures
            s@ == github_error_message(*self),
    {
        match self {
            GitHubError::Http(msg) => prefixed("HTTP error: ", msg.as_str()),
            GitHubError::Deserialize(msg) => prefixed("deserialization error: ", msg.as_str()),
            GitHubError::Auth(msg) => prefixed("authentication error: ", msg.as_str()),
            GitHubError::RateLimit(reset) => {
                let n = u64_to_decimal(*reset);
                prefixed("rate limit exceeded, resets at ", n.as_str())
            },
            GitHubError::NotFound(msg) => prefixed("not found: ", msg.as_str()),
        }
    }
}

/// `prefix` followed by `rest`.
pub fn prefixed(prefix: &str, rest: &str) -> (s: String)
    ensures
        s@ == prefix@ + rest@,
{
    let mut s = copy_str(prefix);
    append_str(&mut s, rest);
    s
}

// ── Raw GitHub API response types ───────────────────────────────────
// These mirror the GitHub REST v3 JSON schema.

/// GitHub API user response.
#[derive(Debug, Clone, PartialEq, Eq)]
pub struct GhUser {
    /// Login.
    pub login: String,
    /// Avatar URL.
    pub avatar_url: String,
}

impl From<GhUser> for User {
    fn from(u: GhUser) -> (r: User) {
        User { login: u.login, avatar_url: u.avatar_url }
    }
}

impl vstd::std_specs::convert::FromSpecImpl<GhUser> for User {
    open spec fn obeys_from_spec() -> bool {
        true
    }

    open spec fn from_spec(u: GhUser) -> User {
        User { login: u.login, avatar_url: u.avatar_url }
    }
}

/// GitHub API authenticated user response (includes display name).
#[derive(Debug, Clone, PartialEq, Eq)]
pub struct GhAuthUser {
    /// Login.
    pub login: String,
    /// Avatar URL.
    pub avatar_url: String,
    /// Display name.
    pub name: Option<String>,
}

impl From<GhAuthUser> for AuthenticatedUser {
    fn from(u: GhAuthUser) -> (r: AuthenticatedUser) {
        AuthenticatedUser { login: u.login, avatar_url: u.avatar_url, name: u.name }
    }
}

impl vstd::std_specs::convert::FromSpecImpl<GhAuthUser> for AuthenticatedUser {
    open spec fn obeys_from_spec() -> bool {
        true
    }

    open spec fn from_spec(u: GhAuthUser) -> AuthenticatedUser {
        AuthenticatedUser { login: u.login, avatar_url: u.avatar_url, name: u.name }
    }
}

/// GitHub API repository response.
#[derive(Debug, Clone, PartialEq, Eq)]
pub struct GhRepo {
    /// Repository name.
    pub name: String,
    /// Whether the repository is archived.
    pub archived: bool,
    /// Default branch.
    pub default_branch: String,
    /// Owner account.
    pub owner: GhRepoOwner,
}

/// GitHub API repository owner.
#[derive(Debug, Clone, PartialEq, Eq)]
pub struct GhRepoOwner {
    /// Owner login.
    pub login: String,
    /// Account type: `"User"` or `"Organization"` (JSON field `type`).
    pub owner_type: String,
}

/// The repository a raw repository response describes.
pub open spec fn repository_of(r: GhRepo) -> Repository {
    Repository {
        owner: r.owner.login,
        owner_type: r.owner.owner_type,
        name: r.name,
        archived: r.archived,
        default_branch: r.default_branch,
    }
}

impl From<GhRepo> for Repository {
    fn from(r: GhRepo) -> (res: Repository) {
        Repository {
            owner: r.owner.login,
            owner_type: r.owner.owner_type,
            name: r.name,
            archived: r.archived,
            default_branch: r.default_branch,
        }
    }
}

impl vstd::std_specs::convert::FromSpecImpl<GhRepo> for Repository {
    open spec fn obeys_from_spec() -> bool {
        true
    }

    open spec fn from_spec(r: GhRepo) -> Repository {
        repository_of(r)
    }
}

/// The repositories that are not archived, in order.
pub open spec fn unarchived(repos: Seq<GhRepo>) -> Seq<Repository>
    decreases repos.len(),
{
    if repos.len() == 0 {
        Seq::empty()
    } else {
        let r = unarchived(repos.drop_last());
        if repos.last().archived {
            r
        } else {
            r.push(repository_of(repos.last()))
        }
    }
}

/// Filter out archived repositories from a raw API response.
pub fn exclude_archived(repos: Vec<GhRepo>) -> (out: Vec<Repository>)
    ensures
        out@ == unarchived(repos@),
{
    let ghost all = repos@;
    let mut out: Vec<Repository> = Vec::new();
    for r in it: repos.into_iter()
        invariant
            it.seq() == all,
            out@ == unarchived(all.take(it.index() as int)),
    {
        let ghost k = it.index();
        assert(all.take(k + 1).drop_last() =~= all.take(k as int));
        assert(all.take(k + 1).last() == r);
        if !r.archived {
            out.push(Repository::from(r));
        }
    }
    assert(all.take(all.len() as int) =~= all);
    out
}

/// GitHub API label response.
#[derive(Debug, Clone, PartialEq, Eq)]
pub struct GhLabel {
    /// Label text.
    pub name: String,
    /// Hex color.
    pub color: String,
}

impl From<GhLabel> for Label {
    fn from(l: GhLabel) -> (r: Label) {
        Label { name: l.name, color: l.color }
    }
}

impl vstd::std_specs::convert::FromSpecImpl<GhLabel> for Label {
    open spec fn obeys_from_spec() -> bool {
        true
    }

    open spec fn from_spec(l: GhLabel) -> Label {
        Label { name: l.name, color: l.color }
    }
}

/// GitHub API review response.
#[derive(Debug, Clone, PartialEq, Eq)]
pub struct GhReview {
    /// The user who reviewed.
    pub user: GhUser,
    /// Raw state string.
    pub state: String,
}

/// The verdict a raw review state stands for; unknown states are pending.
pub open spec fn review_state_of(s: Seq<char>) -> ReviewState {
    if s == "APPROVED"@ {
        ReviewState::Approved
    } else if s == "CHANGES_REQUESTED"@ {
        ReviewState::ChangesRequested
    } else if s == "COMMENTED"@ {
        ReviewState::Commented
    } else if s == "DISMISSED"@ {
        ReviewState::Dismissed
    } else {
        ReviewState::Pending
    }
}

/// The verdict of a raw review state string.
pub fn parse_review_state(s: &str) -> (r: ReviewState)
    ensures
        r == review_state_of(s@),
{
    if str_eq(s, "APPROVED") {
        ReviewState::Approved
    } else if str_eq(s, "CHANGES_REQUESTED") {
        ReviewState::ChangesRequested
    } else if str_eq(s, "COMMENTED") {
        ReviewState::Commented
    } else if str_eq(s, "DISMISSED") {
        ReviewState::Dismissed
    } else {
        ReviewState::Pending
    }
}

impl From<GhReview> for Review {
    fn from(r: GhReview) -> (res: Review) {
        let state = parse_review_state(r.state.as_str());
        Review { user: User { login: r.user.login, avatar_url: r.user.avatar_url }, state }
    }
}

impl vstd::std_specs::convert::FromSpecImpl<GhReview> for Review {
    open spec fn obeys_from_spec() -> bool {
        true
    }

    open spec fn from_spec(r: GhReview) -> Review {
        Review {
            user: User { login: r.user.login, avatar_url: r.user.avatar_url },
            state: review_state_of(r.state@),
        }
    }
}

/// GitHub API combined commit status response.
#[derive(Debug, Clone, PartialEq, Eq)]
pub struct GhCombinedStatus {
    /// Raw state string.
    pub state: String,
}

/// The CI status a combined state stands for: `success` passes,
/// `failure` and `error` fail, anything else is pending.
pub open spec fn ci_status_of(s: Seq<char>) -> CiStatus {
    if s == "success"@ {
        CiStatus::Success
    } else if s == "failure"@ || s == "error"@ {
        CiStatus::Failure
    } else {
        CiStatus::Pending
    }
}

/// The CI status of a combined commit status response.
pub fn ci_status_from(status: &GhCombinedStatus) -> (c: CiStatus)
    ensures
        c == ci_status_of(status.state@),
{
    let s = status.state.as_str();
    if str_eq(s, "success") {
        CiStatus::Success
    } else if str_eq(s, "failure") || str_eq(s, "error") {
        CiStatus::Failure
    } else {
        CiStatus::Pending
    }
}

/// GitHub API organization response.
#[derive(Debug, Clone, PartialEq, Eq)]
pub struct GhOrg {
    /// Organization login.
    pub login: String,
}

/// The organization of a raw response; listed organizations are never main.
pub fn organization_from(o: GhOrg) -> (r: Organization)
    ensures
        r.login == o.login,
        !r.is_main,
{
    Organization { login: o.login, is_main: false }
}

/// Organizations of a raw organization list, in order.
pub fn organizations_from(orgs: Vec<GhOrg>) -> (out: Vec<Organization>)
    ensures
        out@.len() == orgs@.len(),
        forall|i: int| 0 <= i < orgs@.len() ==> (#[trigger] out@[i]).login == orgs@[i].login && !out@[i].is_main,
{
    let ghost all = orgs@;
    let mut out: Vec<Organization> = Vec::new();
    for o in it: orgs.into_iter()
        invariant
            it.seq() == all,
            out@.len() == it.index(),
            forall|i: int| 0 <= i < it.index() ==> (#[trigger] out@[i]).login == all[i].login && !out@[i].is_main,
    {
        let ghost k = it.index();
        assert(all[k as int] == o);
        out.push(organization_from(o));
    }
    out
}

// ── Issues, pull requests and comments ──────────────────────────────

/// The label of a raw label.
pub open spec fn label_of(l: GhLabel) -> Label {
    Label { name: l.name, color: l.color }
}

/// The labels of raw labels, in order.
pub open spec fn labels_of(ls: Seq<GhLabel>) -> Seq<Label> {
    ls.map_values(|l: GhLabel| label_of(l))
}

/// The logins of raw users, in order.
pub open spec fn logins_of(us: Seq<GhUser>) -> Seq<String> {
    us.map_values(|u: GhUser| u.login)
}

/// Labels of raw labels.
pub fn labels_from(ls: Vec<GhLabel>) -> (out: Vec<Label>)
    ensures
        out@ == labels_of(ls@),
{
    let ghost all = ls@;
    let mut out: Vec<Label> = Vec::new();
    for l in it: ls.into_iter()
        invariant
            it.seq() == all,
            out@ == labels_of(all.take(it.index() as int)),
    {
        let ghost k = it.index();
        assert(all[k as int] == l);
        assert(labels_of(all.take(k + 1)) =~= labels_of(all.take(k as int)).push(label_of(l)));
        out.push(Label::from(l));
    }
    assert(all.take(all.len() as int) =~= all);
    out
}

/// Logins of raw users.
pub fn logins_from(us: Vec<GhUser>) -> (out: Vec<String>)
    ensures
        out@ == logins_of(us@),
{
    let ghost all = us@;
    let mut out: Vec<String> = Vec::new();
    for u in it: us.into_iter()
        invariant
            it.seq() == all,
            out@ == logins_of(all.take(it.index() as int)),
    {
        let ghost k = it.index();
        assert(all[k as int] == u);
        assert(logins_of(all.take(k + 1)) =~= logins_of(all.take(k as int)).push(u.login));
        out.push(u.login);
    }
    assert(all.take(all.len() as int) =~= all);
    out
}

/// GitHub API issue response.
#[derive(Debug, Clone, PartialEq, Eq)]
pub struct GhIssue {
    /// Issue number.
    pub number: u64,
    /// Title.
    pub title: String,
    /// Body.
    pub body: Option<String>,
    /// Labels.
    pub labels: Vec<GhLabel>,
    /// Assigned users.
    pub assignees: Vec<GhUser>,
    /// Raw state string.
    pub state: String,
    /// Time of last update, in seconds since the Unix epoch.
    pub updated_at: i64,
    /// Issue author.
    pub user: GhUser,
    /// Whether the response carries a `pull_request` field, which marks a
    /// pull request listed among issues.
    pub pull_request: bool,
}

/// `r` is the issue that the raw issue `g` describes: open when its state
/// is `open` and closed otherwise, with the assignees' logins, the
/// author's login and no sub-issues.
pub open spec fn issue_of(g: GhIssue, r: Issue) -> bool {
    &&& r.number == g.number
    &&& r.title == g.title
    &&& r.body == g.body
    &&& r.labels@ == labels_of(g.labels@)
    &&& r.assignees@ == logins_of(g.assignees@)
    &&& r.state == (if g.state@ == "open"@ {
        IssueState::Open
    } else {
        IssueState::Closed
    })
    &&& r.sub_issues@.len() == 0
    &&& r.author == g.user.login
    &&& r.updated_at == g.updated_at
}

/// The issue a raw issue describes.
pub fn issue_from(i: GhIssue) -> (r: Issue)
    ensures
        issue_of(i, r),
{
    let state = if str_eq(i.state.as_str(), "open") {
        IssueState::Open
    } else {
        IssueState::Closed
    };
    Issue {
        number: i.number,
        title: i.title,
        body: i.body,
        labels: labels_from(i.labels),
        assignees: logins_from(i.assignees),
        state,
        sub_issues: Vec::new(),
        author: i.user.login,
        updated_at: i.updated_at,
    }
}

/// The positions of the entries that are issues and not pull requests.
pub open spec fn issue_positions(items: Seq<GhIssue>) -> Seq<int>
    decreases items.len(),
{
    if items.len() == 0 {
        Seq::empty()
    } else {
        let r = issue_positions(items.drop_last());
        if items.last().pull_request {
            r
        } else {
            r.push(items.len() - 1)
        }
    }
}

proof fn lemma_issue_positions_range(items: Seq<GhIssue>)
    ensures
        forall|k: int| 0 <= k < issue_positions(items).len() ==> 0 <= #[trigger] issue_positions(items)[k] < items.len(),
    decreases items.len(),
{
    if items.len() > 0 {
        lemma_issue_positions_range(items.drop_last());
        let r = issue_positions(items.drop_last());
        if !items.last().pull_request {
            assert forall|k: int| 0 <= k < r.len() + 1 implies 0 <= #[trigger] r.push(items.len() - 1)[k] < items.len() by {
                if k < r.len() {
                    assert(r.push(items.len() - 1)[k] == r[k]);
                }
            }
        }
    }
}

/// The issues of a raw issue list, leaving out pull requests.
pub fn issues_from(items: Vec<GhIssue>) -> (out: Vec<Issue>)
    ensures
        out@.len() == issue_positions(items@).len(),
        forall|k: int|
            0 <= k < out@.len() ==> issue_of(items@[issue_positions(items@)[k]], #[trigger] out@[k]),
{
    let ghost all = items@;
    let mut out: Vec<Issue> = Vec::new();
    for g in it: items.into_iter()
        invariant
            it.seq() == all,
            out@.len() == issue_positions(all.take(it.index() as int)).len(),
            forall|k: int|
                0 <= k < out@.len() ==> issue_of(
                    all[issue_positions(all.take(it.index() as int))[k]],
                    #[trigger] out@[k],
                ),
    {
        let ghost j = it.index();
        let ghost pre = all.take(j as int);
        assert(all.take(j + 1).drop_last() =~= pre);
        assert(all.take(j + 1).last() == g);
        assert(all[j as int] == g);
        proof {
            lemma_issue_positions_range(pre);
        }
        if !g.pull_request {
            out.push(issue_from(g));
            assert forall|k: int| 0 <= k < out@.len() implies issue_of(
                all[issue_positions(all.take(j + 1))[k]],
                #[trigger] out@[k],
            ) by {
                if k < out@.len() - 1 {
                    assert(issue_positions(all.take(j + 1))[k] == issue_positions(pre)[k]);
                    assert(0 <= issue_positions(pre)[k] < pre.len());
                }
            }
        } else {
            assert forall|k: int| 0 <= k < out@.len() implies issue_of(
                all[issue_positions(all.take(j + 1))[k]],
                #[trigger] out@[k],
            ) by {
                assert(issue_positions(all.take(j + 1)) == issue_positions(pre));
                assert(0 <= issue_positions(pre)[k] < pre.len());
            }
        }
    }
    assert(all.take(all.len() as int) =~= all);
    out
}

/// GitHub API pull request head reference.
#[derive(Debug, Clone, PartialEq, Eq)]
pub struct GhPrHead {
    /// Branch name (JSON field `ref`).
    pub branch_ref: String,
}

/// GitHub API pull request response.
#[derive(Debug, Clone, PartialEq, Eq)]
pub struct GhPullRequest {
    /// PR number.
    pub number: u64,
    /// Title.
    pub title: String,
    /// Body (GitHub-flavored markdown).
    pub body: Option<String>,
    /// Raw state string.
    pub state: String,
    /// Merge time in seconds since the Unix epoch; `None` unless merged.
    pub merged_at: Option<i64>,
    /// Whether this is a draft PR.
    pub draft: bool,
    /// PR author.
    pub user: GhUser,
    /// Assigned users.
    pub assignees: Vec<GhUser>,
    /// Users requested to review.
    pub requested_reviewers: Vec<GhUser>,
    /// Head reference.
    pub head: GhPrHead,
    /// Labels.
    pub labels: Vec<GhLabel>,
    /// Time of last update, in seconds since the Unix epoch.
    pub updated_at: i64,
}

/// The assignee logins of a PR: the assigned users, or the author alone
/// when nobody is assigned.
pub open spec fn pr_assignees(g: GhPullRequest) -> Seq<String> {
    if g.assignees@.len() == 0 {
        seq![g.user.login]
    } else {
        logins_of(g.assignees@)
    }
}

/// The assignees of a PR, falling back to its author.
fn assignees_or_author(assignees: Vec<GhUser>, author: &String) -> (out: Vec<String>)
    ensures
        out@ == (if assignees@.len() == 0 {
            seq![*author]
        } else {
            logins_of(assignees@)
        }),
{
    let logins = logins_from(assignees);
    if logins.len() == 0 {
        let mut v: Vec<String> = Vec::new();
        v.push(author.clone());
        assert(v@ =~= seq![*author]);
        v
    } else {
        logins
    }
}

/// Whether an open PR needs its reviews fetched: it is not a draft and
/// someone was requested to review it.
pub fn needs_reviews(item: &GhPullRequest) -> (b: bool)
    ensures
        b == (!item.draft && item.requested_reviewers@.len() > 0),
{
    !item.draft && item.requested_reviewers.len() > 0
}

/// Some review requested changes.
pub open spec fn changes_requested(reviews: Seq<Review>) -> bool {
    exists|i: int| 0 <= i < reviews.len() && #[trigger] reviews[i].state == ReviewState::ChangesRequested
}

/// Whether an open PR needs its CI status fetched: it has reviews and none
/// of them requested changes.
pub fn needs_ci_status(reviews: &Vec<Review>) -> (b: bool)
    ensures
        b == (reviews@.len() > 0 && !changes_requested(reviews@)),
{
    if reviews.len() == 0 {
        return false;
    }
    let mut i: usize = 0;
    while i < reviews.len()
        invariant
            i <= reviews.len(),
            forall|k: int| 0 <= k < i ==> #[trigger] reviews@[k].state != ReviewState::ChangesRequested,
        decreases reviews.len() - i,
    {
        if matches!(reviews[i].state, ReviewState::ChangesRequested) {
            return false;
        }
        i = i + 1;
    }
    true
}

/// `r` is the open PR that `g` describes, with the given reviews and CI
/// status: not merged, not closed, assignees falling back to the author.
pub open spec fn open_pr_of(g: GhPullRequest, reviews: Seq<Review>, ci: CiStatus, r: PullRequest) -> bool {
    &&& r.number == g.number
    &&& r.title == g.title
    &&& r.body == g.body
    &&& r.draft == g.draft
    &&& r.author == g.user.login
    &&& r.assignees@ == pr_assignees(g)
    &&& r.requested_reviewers@ == logins_of(g.requested_reviewers@)
    &&& r.reviews@ == reviews
    &&& r.ci_status == ci
    &&& !r.merged
    &&& !r.closed
    &&& r.branch == g.head.branch_ref
    &&& r.labels@ == labels_of(g.labels@)
    &&& r.updated_at == g.updated_at
}

/// The open PR a raw response describes, with the reviews and CI status
/// fetched for it (none and pending when they were not fetched).
pub fn open_pr_from(item: GhPullRequest, reviews: Vec<Review>, ci: CiStatus) -> (r: PullRequest)
    ensures
        open_pr_of(item, reviews@, ci, r),
{
    let ghost g = item;
    let author = item.user.login;
    let assignees = assignees_or_author(item.assignees, &author);
    PullRequest {
        number: item.number,
        title: item.title,
        body: item.body,
        draft: item.draft,
        author,
        assignees,
        requested_reviewers: logins_from(item.requested_reviewers),
        reviews,
        ci_status: ci,
        merged: false,
        closed: false,
        branch: item.head.branch_ref,
        labels: labels_from(item.labels),
        updated_at: item.updated_at,
    }
}

/// `r` is the closed PR that `g` describes: merged when it has a merge
/// time, closed without merge otherwise, with no reviews, no review
/// requests, pending CI and not a draft.
pub open spec fn closed_pr_of(g: GhPullRequest, r: PullRequest) -> bool {
    &&& r.number == g.number
    &&& r.title == g.title
    &&& r.body == g.body
    &&& !r.draft
    &&& r.author == g.user.login
    &&& r.assignees@ == pr_assignees(g)
    &&& r.requested_reviewers@.len() == 0
    &&& r.reviews@.len() == 0
    &&& r.ci_status == CiStatus::Pending
    &&& r.merged == g.merged_at is Some
    &&& r.closed == g.merged_at is None
    &&& r.branch == g.head.branch_ref
    &&& r.labels@ == labels_of(g.labels@)
    &&& r.updated_at == g.updated_at
}

/// The closed PR a raw response describes.
pub fn closed_pr_from(item: GhPullRequest) -> (r: PullRequest)
    ensures
        closed_pr_of(item, r),
{
    let merged = item.merged_at.is_some();
    let author = item.user.login;
    let assignees = assignees_or_author(item.assignees, &author);
    PullRequest {
        number: item.number,
        title: item.title,
        body: item.body,
        draft: false,
        author,
        assignees,
        requested_reviewers: Vec::new(),
        reviews: Vec::new(),
        ci_status: CiStatus::Pending,
        merged,
        closed: !merged,
        branch: item.head.branch_ref,
        labels: labels_from(item.labels),
        updated_at: item.updated_at,
    }
}

/// The closed PRs of a raw PR list, in order.
pub fn closed_prs_from(items: Vec<GhPullRequest>) -> (out: Vec<PullRequest>)
    ensures
        out@.len() == items@.len(),
        forall|k: int| 0 <= k < out@.len() ==> closed_pr_of(items@[k], #[trigger] out@[k]),
{
    let ghost all = items@;
    let mut out: Vec<PullRequest> = Vec::new();
    for g in it: items.into_iter()
        invariant
            it.seq() == all,
            out@.len() == it.index(),
            forall|k: int| 0 <= k < out@.len() ==> closed_pr_of(all[k], #[trigger] out@[k]),
    {
        let ghost j = it.index();
        assert(all[j as int] == g);
        out.push(closed_pr_from(g));
    }
    out
}

/// The open PRs of a raw PR list whose reviews and CI status were not
/// fetched (no reviews, pending CI), in order.
pub fn open_prs_without_reviews(items: Vec<GhPullRequest>) -> (out: Vec<PullRequest>)
    ensures
        out@.len() == items@.len(),
        forall|k: int|
            0 <= k < out@.len() ==> open_pr_of(items@[k], Seq::empty(), CiStatus::Pending, #[trigger] out@[k]),
{
    let ghost all = items@;
    let mut out: Vec<PullRequest> = Vec::new();
    for g in it: items.into_iter()
        invariant
            it.seq() == all,
            out@.len() == it.index(),
            forall|k: int|
                0 <= k < out@.len() ==> open_pr_of(all[k], Seq::empty(), CiStatus::Pending, #[trigger] out@[k]),
    {
        let ghost j = it.index();
        assert(all[j as int] == g);
        let r = open_pr_from(g, Vec::new(), CiStatus::Pending);
        out.push(r);
    }
    out
}

/// GitHub API comment response.
#[derive(Debug, Clone, PartialEq, Eq)]
pub struct GhComment {
    /// Comment ID.
    pub id: u64,
    /// Author.
    pub user: GhUser,
    /// Body.
    pub body: Option<String>,
    /// Creation time, in seconds since the Unix epoch.
    pub created_at: i64,
    /// Time of last update, in seconds since the Unix epoch.
    pub updated_at: i64,
}

/// The comment a raw comment describes; a missing body is empty.
pub fn comment_from(c: GhComment) -> (r: Comment)
    ensures
        r.id == c.id,
        r.user == (User { login: c.user.login, avatar_url: c.user.avatar_url }),
        r.body@ == (match c.body {
            Some(b) => b@,
            None => Seq::empty(),
        }),
        r.created_at == c.created_at,
        r.updated_at == c.updated_at,
{
    let body = match c.body {
        Some(b) => b,
        None => String::new(),
    };
    Comment {
        id: c.id,
        user: User::from(c.user),
        body,
        created_at: c.created_at,
        updated_at: c.updated_at,
    }
}

/// GitHub search issues/PRs response wrapper.
#[derive(Debug, Clone, PartialEq, Eq)]
pub struct GhSearchResult {
    /// Found items.
    pub items: Vec<GhIssue>,
}

// ── Members ─────────────────────────────────────────────────────────

/// Whether some user has the login `login`.
pub open spec fn has_login(users: Seq<User>, login: Seq<char>) -> bool {
    exists|i: int| 0 <= i < users.len() && (#[trigger] users[i]).login@ == login
}

/// Members followed by the collaborators whose login no earlier entry has.
pub open spec fn merged_members(members: Seq<User>, collaborators: Seq<GhUser>) -> Seq<User>
    decreases collaborators.len(),
{
    if collaborators.len() == 0 {
        members
    } else {
        let r = merged_members(members, collaborators.drop_last());
        let c = collaborators.last();
        if has_login(r, c.login@) {
            r
        } else {
            r.push(User { login: c.login, avatar_url: c.avatar_url })
        }
    }
}

/// The users of raw users, in order.
pub open spec fn users_of(us: Seq<GhUser>) -> Seq<User> {
    us.map_values(|u: GhUser| User { login: u.login, avatar_url: u.avatar_url })
}

/// Whether some user in `users` has the login of `login`.
fn contains_login(users: &Vec<User>, login: &String) -> (b: bool)
    ensures
        b == has_login(users@, login@),
{
    let mut i: usize = 0;
    while i < users.len()
        invariant
            i <= users.len(),
            forall|k: int| 0 <= k < i ==> (#[trigger] users@[k]).login@ != login@,
        decreases users.len() - i,
    {
        if str_eq(users[i].login.as_str(), login.as_str()) {
            return true;
        }
        i = i + 1;
    }
    false
}

/// Organization members and outside collaborators, deduplicated by login:
/// all members in order, then each collaborator whose login is not yet present.
pub fn merge_members(members: Vec<GhUser>, collaborators: Vec<GhUser>) -> (all: Vec<User>)
    ensures
        all@ == merged_members(users_of(members@), collaborators@),
{
    let ghost ms = members@;
    let mut all: Vec<User> = Vec::new();
    for m in it: members.into_iter()
        invariant
            it.seq() == ms,
            all@ == users_of(ms.take(it.index() as int)),
    {
        let ghost k = it.index();
        assert(ms[k as int] == m);
        assert(users_of(ms.take(k + 1)) =~= users_of(ms.take(k as int)).push(User { login: m.login, avatar_url: m.avatar_url }));
        all.push(User::from(m));
    }
    assert(ms.take(ms.len() as int) =~= ms);
    let ghost cs = collaborators@;
    for c in it: collaborators.into_iter()
        invariant
            it.seq() == cs,
            all@ == merged_members(users_of(ms), cs.take(it.index() as int)),
    {
        let ghost k = it.index();
        assert(cs[k as int] == c);
        assert(cs.take(k + 1).drop_last() =~= cs.take(k as int));
        assert(cs.take(k + 1).last() == c);
        if !contains_login(&all, &c.login) {
            all.push(User::from(c));
        }
    }
    assert(cs.take(cs.len() as int) =~= cs);
    all
}

/// Merging members and collaborators never repeats a login that was not
/// already repeated among the members, and keeps every member.
pub proof fn law_merged_members_keep_members(members: Seq<User>, collaborators: Seq<GhUser>)
    ensures
        merged_members(members, collaborators).len() >= members.len(),
        forall|i: int| 0 <= i < members.len() ==> #[trigger] merged_members(members, collaborators)[i] == members[i],
        forall|j: int|
            0 <= j < collaborators.len() ==> has_login(
                merged_members(members, collaborators),
                (#[trigger] collaborators[j]).login@,
            ),
    decreases collaborators.len(),
{
    if collaborators.len() > 0 {
        let rest = collaborators.drop_last();
        law_merged_members_keep_members(members, rest);
        let r = merged_members(members, rest);
        let c = collaborators.last();
        let out = merged_members(members, collaborators);
        assert forall|j: int| 0 <= j < collaborators.len() implies has_login(out, (#[trigger] collaborators[j]).login@) by {
            if j < rest.len() {
                assert(rest[j] == collaborators[j]);
                assert(has_login(r, rest[j].login@));
                let i = choose|i: int| 0 <= i < r.len() && (#[trigger] r[i]).login@ == rest[j].login@;
                if !has_login(r, c.login@) {
                    assert(out[i] == r[i]);
                }
            } else if !has_login(r, c.login@) {
                assert(out[r.len() as int].login@ == c.login@);
            }
        }
    }
}

// ── Responses ───────────────────────────────────────────────────────

/// What a REST response with status `status` is, before its body is
/// read as data: `None` for a success (2xx), otherwise the error. A 401 or
/// 403 whose reset header parses and whose remaining header parses as 0 is
/// a rate limit; any other 401 or 403 an authentication error; a 404 is
/// not found; any other non-2xx an HTTP error with the status line.
pub open spec fn rest_error_spec(
    status: u16,
    reset: Option<Seq<char>>,
    remaining: Option<Seq<char>>,
    status_line: Seq<char>,
    body: Seq<char>,
) -> Option<ErrorView> {
    if status == 401 || status == 403 {
        let reset_value = match reset {
            Some(r) => crate::text::parse_u64_spec(r),
            None => None,
        };
        let remaining_value = match remaining {
            Some(r) => crate::text::parse_u64_spec(r),
            None => None,
        };
        match reset_value {
            Some(v) => if remaining_value == Some(0u64) {
                Some(ErrorView::RateLimit(v))
            } else {
                Some(ErrorView::Auth(body))
            },
            None => Some(ErrorView::Auth(body)),
        }
    } else if status == 404 {
        Some(ErrorView::NotFound(body))
    } else if status < 200 || status > 299 {
        Some(ErrorView::Http(status_line + ": "@ + body))
    } else {
        None
    }
}

/// An error as plain values.
pub enum ErrorView {
    /// HTTP request failed.
    Http(Seq<char>),
    /// JSON deserialization failed.
    Deserialize(Seq<char>),
    /// Authentication error.
    Auth(Seq<char>),
    /// Rate limit exceeded, with the reset time.
    RateLimit(u64),
    /// Resource not found.
    NotFound(Seq<char>),
}

/// The plain values of an error.
pub open spec fn error_view(e: GitHubError) -> ErrorView {
    match e {
        GitHubError::Http(m) => ErrorView::Http(m@),
        GitHubError::Deserialize(m) => ErrorView::Deserialize(m@),
        GitHubError::Auth(m) => ErrorView::Auth(m@),
        GitHubError::RateLimit(v) => ErrorView::RateLimit(v),
        GitHubError::NotFound(m) => ErrorView::NotFound(m@),
    }
}

/// The plain values of an optional error.
pub open spec fn opt_error_view(e: Option<GitHubError>) -> Option<ErrorView> {
    match e {
        Some(x) => Some(error_view(x)),
        None => None,
    }
}

/// Parses an optional header value as a `u64`.
fn header_u64(h: Option<&str>) -> (r: Option<u64>)
    ensures
        r == (match h {
            Some(s) => crate::text::parse_u64_spec(s@),
            None => None,
        }),
{
    match h {
        Some(s) => crate::text::parse_u64(s),
        None => None,
    }
}

/// Classifies a REST response (status code, the `x-ratelimit-reset` and
/// `x-ratelimit-remaining` headers, the displayed status and the body text).
pub fn rest_response_error(
    status: u16,
    reset: Option<&str>,
    remaining: Option<&str>,
    status_line: &str,
    body: String,
) -> (r: Option<GitHubError>)
    ensures
        opt_error_view(r) == rest_error_spec(
            status,
            match reset {
                Some(s) => Some(s@),
                None => None,
            },
            match remaining {
                Some(s) => Some(s@),
                None => None,
            },
            status_line@,
            body@,
        ),
{
    if status == 401 || status == 403 {
        // Check for rate limiting via header
        match header_u64(reset) {
            Some(v) => {
                if header_u64(remaining) == Some(0u64) {
                    return Some(GitHubError::RateLimit(v));
                }
            },
            None => {},
        }
        return Some(GitHubError::Auth(body));
    }
    if status == 404 {
        return Some(GitHubError::NotFound(body));
    }
    if status < 200 || status > 299 {
        let mut msg = copy_str(status_line);
        append_str(&mut msg, ": ");
        append_str(&mut msg, body.as_str());
        return Some(GitHubError::Http(msg));
    }
    None
}

/// What a browser-client response with status `status` is: `None` for a
/// 2xx, otherwise the error (401/403 authentication, 404 not found, other
/// codes an HTTP error with the numeric status).
pub open spec fn wasm_error_spec(status: u16, body: Seq<char>) -> Option<ErrorView> {
    if status == 401 || status == 403 {
        Some(ErrorView::Auth(body))
    } else if status == 404 {
        Some(ErrorView::NotFound(body))
    } else if status < 200 || status >= 300 {
        Some(ErrorView::Http(decimal(status as nat) + ": "@ + body))
    } else {
        None
    }
}

/// Classifies a browser-client response by its status code and body text.
pub fn wasm_response_error(status: u16, body: String) -> (r: Option<GitHubError>)
    ensures
        opt_error_view(r) == wasm_error_spec(status, body@),
{
    if status == 401 || status == 403 {
        return Some(GitHubError::Auth(body));
    }
    if status == 404 {
        return Some(GitHubError::NotFound(body));
    }
    if status < 200 || status >= 300 {
        let mut msg = u64_to_decimal(status as u64);
        append_str(&mut msg, ": ");
        append_str(&mut msg, body.as_str());
        return Some(GitHubError::Http(msg));
    }
    None
}

/// The outcome of deleting a branch: a success, a 204 or a 404 (already
/// deleted) is fine, anything else an HTTP error with the status line.
pub fn delete_branch_outcome(status: u16, status_line: &str, body: &str) -> (r: Result<(), GitHubError>)
    ensures
        match r {
            Ok(()) => (200 <= status <= 299) || status == 204 || status == 404,
            Err(e) => !((200 <= status <= 299) || status == 204 || status == 404) && error_view(e)
                == ErrorView::Http(status_line@ + ": "@ + body@),
        },
{
    if (200 <= status && status <= 299) || status == 204 {
        return Ok(());
    }
    if status == 404 {
        // Branch already deleted — treat as success.
        return Ok(());
    }
    let mut msg = copy_str(status_line);
    append_str(&mut msg, ": ");
    append_str(&mut msg, body);
    Err(GitHubError::Http(msg))
}

// ── Pagination ──────────────────────────────────────────────────────

/// The URL of page `page` of a paginated endpoint, 100 items per page.
pub open spec fn page_url_spec(path: Seq<char>, page: nat) -> Seq<char> {
    path + (if crate::text::contains_seq(path, "?"@) {
        "&"@
    } else {
        "?"@
    }) + "per_page=100&page="@ + decimal(page)
}

/// The URL of page `page` of the endpoint `path`.
pub fn page_url(path: &str, page: u32) -> (url: String)
    ensures
        url@ == page_url_spec(path@, page as nat),
{
    let mut url = copy_str(path);
    if crate::text::contains_str(path, "?") {
        append_str(&mut url, "&");
    } else {
        append_str(&mut url, "?");
    }
    append_str(&mut url, "per_page=100&page=");
    let n = u64_to_decimal(page as u64);
    append_str(&mut url, n.as_str());
    url
}

/// Whether a page ends the pagination: an empty page does.
pub fn is_last_page<T>(items: &Vec<T>) -> (b: bool)
    ensures
        b == (items@.len() == 0),
{
    items.len() == 0
}

/// The position of the first PR updated before `cutoff`, if any.
pub open spec fn first_older(items: Seq<GhPullRequest>, cutoff: i64) -> Option<int>
    decreases items.len(),
{
    if items.len() == 0 {
        None
    } else {
        match first_older(items.drop_last(), cutoff) {
            Some(i) => Some(i),
            None => if items.last().updated_at < cutoff {
                Some(items.len() - 1)
            } else {
                None
            },
        }
    }
}

proof fn lemma_first_older_prefix(items: Seq<GhPullRequest>, cutoff: i64, n: int)
    requires
        0 <= n <= items.len(),
        first_older(items.take(n), cutoff) is Some,
    ensures
        first_older(items, cutoff) == first_older(items.take(n), cutoff),
    decreases items.len() - n,
{
    if n < items.len() {
        assert(items.take(n + 1).drop_last() =~= items.take(n));
        lemma_first_older_prefix(items, cutoff, n + 1);
    } else {
        assert(items.take(n) =~= items);
    }
}

/// Where a cut at `cutoff` falls in a list sorted newest first: at the
/// first PR updated before the cutoff, every PR ahead of it having been
/// updated at or after the cutoff; and nowhere when every PR was updated
/// at or after the cutoff. So the cut keeps exactly the PRs updated since
/// the cutoff at the front of the list.
pub proof fn law_cut_keeps_items_since_cutoff(items: Seq<GhPullRequest>, cutoff: i64)
    ensures
        first_older(items, cutoff) matches Some(i) ==> 0 <= i < items.len() && items[i].updated_at
            < cutoff && forall|k: int| 0 <= k < i ==> (#[trigger] items[k]).updated_at >= cutoff,
        first_older(items, cutoff) is None ==> forall|k: int|
            0 <= k < items.len() ==> (#[trigger] items[k]).updated_at >= cutoff,
    decreases items.len(),
{
    if items.len() > 0 {
        let d = items.drop_last();
        law_cut_keeps_items_since_cutoff(d, cutoff);
        assert forall|k: int| 0 <= k < d.len() implies d[k] == items[k] by {}
    }
}

/// Cuts a page of PRs (sorted by update time, newest first) at the first
/// one updated before `cutoff`; returns whether the cutoff was reached.
pub fn cut_at_cutoff(items: &mut Vec<GhPullRequest>, cutoff: i64) -> (hit: bool)
    ensures
        match first_older(old(items)@, cutoff) {
            Some(i) => hit && final(items)@ == old(items)@.take(i),
            None => !hit && final(items)@ == old(items)@,
        },
        final(items)@.len() <= old(items)@.len(),
        forall|k: int|
            0 <= k < final(items)@.len() ==> #[trigger] final(items)@[k] == old(items)@[k]
                && final(items)@[k].updated_at >= cutoff,
        hit <==> final(items)@.len() < old(items)@.len(),
        hit ==> old(items)@[final(items)@.len() as int].updated_at < cutoff,
{
    proof {
        law_cut_keeps_items_since_cutoff(old(items)@, cutoff);
    }
    let ghost before = items@;
    let mut i: usize = 0;
    while i < items.len()
        invariant
            i <= items.len(),
            items@ == before,
            old(items)@ == before,
            first_older(before.take(i as int), cutoff) is None,
        decreases items.len() - i,
    {
        assert(before.take(i + 1).drop_last() =~= before.take(i as int));
        if items[i].updated_at < cutoff {
            proof {
                assert(before.take(i + 1).last() == before[i as int]);
                assert(first_older(before.take(i + 1), cutoff) == Some(i as int));
                lemma_first_older_prefix(before, cutoff, i + 1);
                assert(first_older(before, cutoff) == Some(i as int));
            }
            items.truncate(i);
            assert(items@ =~= before.take(i as int));
            assert forall|k: int| 0 <= k < items@.len() implies #[trigger] items@[k] == before[k]
                && items@[k].updated_at >= cutoff by {
                law_cut_keeps_items_since_cutoff(before, cutoff);
                assert(items@[k] == before[k]);
            }
            return true;
        }
        i = i + 1;
    }
    assert(before.take(before.len() as int) =~= before);
    false
}

// ── Paths ───────────────────────────────────────────────────────────

/// `/repos/{owner}/{repo}` followed by `tail`.
pub fn repo_path(owner: &str, repo: &str, tail: &str) -> (p: String)
    ensures
        p@ == "/repos/"@ + owner@ + "/"@ + repo@ + tail@,
{
    let mut p = copy_str("/repos/");
    append_str(&mut p, owner);
    append_str(&mut p, "/");
    append_str(&mut p, repo);
    append_str(&mut p, tail);
    p
}

/// `/repos/{owner}/{repo}` followed by `middle`, the number `n` and `tail`.
pub fn repo_number_path(owner: &str, repo: &str, middle: &str, n: u64, tail: &str) -> (p: String)
    ensures
        p@ == "/repos/"@ + owner@ + "/"@ + repo@ + middle@ + decimal(n as nat) + tail@,
{
    let mut p = repo_path(owner, repo, middle);
    let d = u64_to_decimal(n);
    append_str(&mut p, d.as_str());
    append_str(&mut p, tail);
    p
}

/// `/orgs/{org}` followed by `tail`.
pub fn org_path(org: &str, tail: &str) -> (p: String)
    ensures
        p@ == "/orgs/"@ + org@ + tail@,
{
    let mut p = copy_str("/orgs/");
    append_str(&mut p, org);
    append_str(&mut p, tail);
    p
}

/// The open-issues endpoint: every open issue, or, with a `since` time
/// (RFC 3339), the open issues updated since then, newest first.
pub fn open_issues_path(owner: &str, repo: &str, since: Option<&str>) -> (p: String)
    ensures
        p@ == (match since {
            Some(ts) => "/repos/"@ + owner@ + "/"@ + repo@
                + "/issues?state=open&sort=updated&direction=desc&since="@ + ts@,
            None => "/repos/"@ + owner@ + "/"@ + repo@ + "/issues?state=open"@,
        }),
{
    match since {
        Some(ts) => {
            let mut p = repo_path(owner, repo, "/issues?state=open&sort=updated&direction=desc&since=");
            append_str(&mut p, ts);
            p
        },
        None => repo_path(owner, repo, "/issues?state=open"),
    }
}

/// The closed-issues endpoint: with a `since` time, the closed issues
/// updated since then; without, one page of the 100 most recently updated.
pub fn closed_issues_path(owner: &str, repo: &str, since: Option<&str>) -> (p: String)
    ensures
        p@ == (match since {
            Some(ts) => "/repos/"@ + owner@ + "/"@ + repo@
                + "/issues?state=closed&sort=updated&direction=desc&since="@ + ts@,
            None => "/repos/"@ + owner@ + "/"@ + repo@
                + "/issues?state=closed&sort=updated&direction=desc&per_page=100"@,
        }),
{
    match since {
        Some(ts) => {
            let mut p = repo_path(owner, repo, "/issues?state=closed&sort=updated&direction=desc&since=");
            append_str(&mut p, ts);
            p
        },
        None => repo_path(owner, repo, "/issues?state=closed&sort=updated&direction=desc&per_page=100"),
    }
}

// ── Search ──────────────────────────────────────────────────────────

/// A byte that the search query keeps as it is.
pub open spec fn kept_byte(b: u8) -> bool {
    (65 <= b <= 90) || (97 <= b <= 122) || (48 <= b <= 57) || b == 45 || b == 95 || b == 46
        || b == 58 || b == 47 || b == 35
}

/// An upper-case hexadecimal digit.
pub open spec fn hex_digit(d: nat) -> char {
    if d < 10 {
        ((48 + d) as u8) as char
    } else {
        ((55 + d) as u8) as char
    }
}

/// How one byte of the query is written: a space as `+`, letters, digits
/// and `-_.:/#` as themselves, any other byte as `%XX`.
pub open spec fn encode_byte(b: u8) -> Seq<char> {
    if b == 32 {
        seq!['+']
    } else if kept_byte(b) {
        seq![b as char]
    } else {
        seq!['%', hex_digit((b / 16) as nat), hex_digit((b % 16) as nat)]
    }
}

/// The encoding of a sequence of bytes.
pub open spec fn encode_bytes(bs: Seq<u8>) -> Seq<char>
    decreases bs.len(),
{
    if bs.len() == 0 {
        Seq::empty()
    } else {
        encode_bytes(bs.drop_last()) + encode_byte(bs.last())
    }
}

/// The hexadecimal digit of `d`.
fn hex_char(d: u8) -> (c: char)
    requires
        d < 16,
    ensures
        c == hex_digit(d as nat),
{
    if d < 10 {
        (48 + d) as char
    } else {
        (55 + d) as char
    }
}

/// The search query encoded for a URL, byte by byte of its UTF-8 form.
pub fn encode_search_query(query: &str) -> (out: String)
    ensures
        out@ == encode_bytes(query.spec_bytes()),
{
    let bytes = query.as_bytes();
    let mut out = String::new();
    let mut i: usize = 0;
    while i < bytes.len()
        invariant
            i <= bytes.len(),
            bytes@ == query.spec_bytes(),
            out@ == encode_bytes(bytes@.take(i as int)),
        decreases bytes.len() - i,
    {
        let b = bytes[i];
        assert(bytes@.take(i + 1).drop_last() =~= bytes@.take(i as int));
        assert(bytes@.take(i + 1).last() == b);
        let ghost before = out@;
        if b == 32 {
            crate::text::push_char(&mut out, '+');
        } else if (65 <= b && b <= 90) || (97 <= b && b <= 122) || (48 <= b && b <= 57) || b == 45
            || b == 95 || b == 46 || b == 58 || b == 47 || b == 35 {
            crate::text::push_char(&mut out, b as char);
        } else {
            crate::text::push_char(&mut out, '%');
            crate::text::push_char(&mut out, hex_char(b / 16));
            crate::text::push_char(&mut out, hex_char(b % 16));
        }
        assert(out@ =~= before + encode_byte(b));
        i = i + 1;
    }
    assert(bytes@.take(bytes.len() as int) =~= bytes@);
    out
}

/// The issue search endpoint for a query (30 results).
pub fn search_path(query: &str) -> (p: String)
    ensures
        p@ == "/search/issues?q="@ + encode_bytes(query.spec_bytes()) + "&per_page=30"@,
{
    let mut p = copy_str("/search/issues?q=");
    let q = encode_search_query(query);
    append_str(&mut p, q.as_str());
    append_str(&mut p, "&per_page=30");
    p
}

// ── Update payloads ─────────────────────────────────────────────────

/// Partial update payload for a GitHub issue.
///
/// All fields are optional; only set fields are sent to the API.
#[derive(Debug, Clone)]
pub struct IssueUpdate {
    /// New title.
    pub title: Option<String>,
    /// New body.
    pub body: Option<String>,
    /// New state.
    pub state: Option<IssueState>,
    /// Replace labels.
    pub labels: Option<Vec<String>>,
    /// Replace assignees (login names).
    pub assignees: Option<Vec<String>>,
}

impl Default for IssueUpdate {
    /// An update that changes nothing.
    fn default() -> (u: Self)
        ensures
            u.title is None,
            u.body is None,
            u.state is None,
            u.labels is None,
            u.assignees is None,
    {
        IssueUpdate { title: None, body: None, state: None, labels: None, assignees: None }
    }
}

/// A value of a JSON request payload.
#[derive(Debug, Clone, PartialEq, Eq)]
pub enum PayloadValue {
    /// A string.
    Text(String),
    /// An array of strings.
    List(Vec<String>),
}

/// A payload value as plain values.
pub enum PayloadView {
    /// A string.
    Text(Seq<char>),
    /// An array of strings.
    List(Seq<Seq<char>>),
}

/// The plain values of a payload entry.
pub open spec fn entry_view(e: (String, PayloadValue)) -> (Seq<char>, PayloadView) {
    (e.0@, match e.1 {
        PayloadValue::Text(s) => PayloadView::Text(s@),
        PayloadValue::List(v) => PayloadView::List(crate::text::views(v@)),
    })
}

/// The plain values of a payload.
pub open spec fn payload_view(p: Seq<(String, PayloadValue)>) -> Seq<(Seq<char>, PayloadView)> {
    p.map_values(|e: (String, PayloadValue)| entry_view(e))
}

/// A text entry, when present.
pub open spec fn text_entry(key: Seq<char>, v: Option<String>) -> Seq<(Seq<char>, PayloadView)> {
    match v {
        Some(s) => seq![(key, PayloadView::Text(s@))],
        None => Seq::empty(),
    }
}

/// A list entry, when present.
pub open spec fn list_entry(key: Seq<char>, v: Option<Vec<String>>) -> Seq<(Seq<char>, PayloadView)> {
    match v {
        Some(l) => seq![(key, PayloadView::List(crate::text::views(l@)))],
        None => Seq::empty(),
    }
}

/// The name of an issue state in the API.
pub open spec fn state_name(s: IssueState) -> Seq<char> {
    match s {
        IssueState::Open => "open"@,
        IssueState::Closed => "closed"@,
    }
}

/// The payload of an issue update: the set fields, in the order title,
/// body, state, labels, assignees.
pub open spec fn issue_update_payload(u: IssueUpdate) -> Seq<(Seq<char>, PayloadView)> {
    text_entry("title"@, u.title) + text_entry("body"@, u.body) + (match u.state {
        Some(s) => seq![("state"@, PayloadView::Text(state_name(s)))],
        None => Seq::empty(),
    }) + list_entry("labels"@, u.labels) + list_entry("assignees"@, u.assignees)
}

/// Appends a text entry when the value is present.
fn push_text(out: &mut Vec<(String, PayloadValue)>, key: &str, v: &Option<String>)
    ensures
        payload_view(final(out)@) == payload_view(old(out)@) + text_entry(key@, *v),
{
    let ghost before = out@;
    match v {
        Some(s) => {
            out.push((copy_str(key), PayloadValue::Text(s.clone())));
        },
        None => {},
    }
    assert(payload_view(out@) =~= payload_view(before) + text_entry(key@, *v));
}

/// Appends a list entry when the value is present.
fn push_list(out: &mut Vec<(String, PayloadValue)>, key: &str, v: &Option<Vec<String>>)
    ensures
        payload_view(final(out)@) == payload_view(old(out)@) + list_entry(key@, *v),
{
    let ghost before = out@;
    match v {
        Some(l) => {
            out.push((copy_str(key), PayloadValue::List(copy_strings(l))));
        },
        None => {},
    }
    assert(payload_view(out@) =~= payload_view(before) + list_entry(key@, *v));
}

/// The payload of an issue update.
pub fn issue_update_fields(update: &IssueUpdate) -> (out: Vec<(String, PayloadValue)>)
    ensures
        payload_view(out@) == issue_update_payload(*update),
{
    let mut out: Vec<(String, PayloadValue)> = Vec::new();
    assert(payload_view(out@) =~= Seq::empty());
    push_text(&mut out, "title", &update.title);
    push_text(&mut out, "body", &update.body);
    let ghost before = out@;
    match update.state {
        Some(s) => {
            let name = match s {
                IssueState::Open => "open",
                IssueState::Closed => "closed",
            };
            out.push((copy_str("state"), PayloadValue::Text(copy_str(name))));
        },
        None => {},
    }
    assert(payload_view(out@) =~= payload_view(before) + (match update.state {
        Some(s) => seq![("state"@, PayloadView::Text(state_name(s)))],
        None => Seq::empty(),
    }));
    push_list(&mut out, "labels", &update.labels);
    push_list(&mut out, "assignees", &update.assignees);
    assert(payload_view(out@) =~= issue_update_payload(*update));
    out
}

/// The payload of a new issue: the title, then the body when given, the
/// labels and the assignees when not empty.
pub open spec fn create_issue_payload(
    title: Seq<char>,
    body: Option<Seq<char>>,
    labels: Seq<Seq<char>>,
    assignees: Seq<Seq<char>>,
) -> Seq<(Seq<char>, PayloadView)> {
    seq![("title"@, PayloadView::Text(title))] + (match body {
        Some(b) => seq![("body"@, PayloadView::Text(b))],
        None => Seq::empty(),
    }) + (if labels.len() > 0 {
        seq![("labels"@, PayloadView::List(labels))]
    } else {
        Seq::empty()
    }) + (if assignees.len() > 0 {
        seq![("assignees"@, PayloadView::List(assignees))]
    } else {
        Seq::empty()
    })
}

/// The payload of a new issue.
pub fn create_issue_fields(title: &str, body: Option<&str>, labels: &Vec<String>, assignees: &Vec<String>) -> (out: Vec<(String, PayloadValue)>)
    ensures
        payload_view(out@) == create_issue_payload(
            title@,
            match body {
                Some(b) => Some(b@),
                None => None,
            },
            crate::text::views(labels@),
            crate::text::views(assignees@),
        ),
{
    let mut out: Vec<(String, PayloadValue)> = Vec::new();
    out.push((copy_str("title"), PayloadValue::Text(copy_str(title))));
    let ghost a = out@;
    match body {
        Some(b) => {
            out.push((copy_str("body"), PayloadValue::Text(copy_str(b))));
        },
        None => {},
    }
    let ghost b1 = out@;
    if labels.len() > 0 {
        out.push((copy_str("labels"), PayloadValue::List(copy_strings(labels))));
    }
    let ghost c = out@;
    if assignees.len() > 0 {
        out.push((copy_str("assignees"), PayloadValue::List(copy_strings(assignees))));
    }
    assert(payload_view(out@) =~= create_issue_payload(
        title@,
        match body {
            Some(b) => Some(b@),
            None => None,
        },
        crate::text::views(labels@),
        crate::text::views(assignees@),
    ));
    out
}

/// The payload of a PR update: the given title, body and state, in that order.
pub open spec fn pr_update_payload(
    title: Option<Seq<char>>,
    body: Option<Seq<char>>,
    state: Option<Seq<char>>,
) -> Seq<(Seq<char>, PayloadView)> {
    (match title {
        Some(t) => seq![("title"@, PayloadView::Text(t))],
        None => Seq::empty(),
    }) + (match body {
        Some(b) => seq![("body"@, PayloadView::Text(b))],
        None => Seq::empty(),
    }) + (match state {
        Some(s) => seq![("state"@, PayloadView::Text(s))],
        None => Seq::empty(),
    })
}

/// The view of an optional string slice.
pub open spec fn opt_str_view(s: Option<&str>) -> Option<Seq<char>> {
    match s {
        Some(x) => Some(x@),
        None => None,
    }
}

/// Appends a text entry for an optional string slice.
fn push_opt_str(out: &mut Vec<(String, PayloadValue)>, key: &str, v: Option<&str>)
    ensures
        payload_view(final(out)@) == payload_view(old(out)@) + (match v {
            Some(s) => seq![(key@, PayloadView::Text(s@))],
            None => Seq::<(Seq<char>, PayloadView)>::empty(),
        }),
{
    let ghost before = out@;
    match v {
        Some(s) => {
            out.push((copy_str(key), PayloadValue::Text(copy_str(s))));
        },
        None => {},
    }
    assert(payload_view(out@) =~= payload_view(before) + (match v {
        Some(s) => seq![(key@, PayloadView::Text(s@))],
        None => Seq::<(Seq<char>, PayloadView)>::empty(),
    }));
}

/// The payload of a PR update.
pub fn pr_update_fields(title: Option<&str>, body: Option<&str>, state: Option<&str>) -> (out: Vec<(String, PayloadValue)>)
    ensures
        payload_view(out@) == pr_update_payload(opt_str_view(title), opt_str_view(body), opt_str_view(state)),
{
    let mut out: Vec<(String, PayloadValue)> = Vec::new();
    assert(payload_view(out@) =~= Seq::empty());
    push_opt_str(&mut out, "title", title);
    push_opt_str(&mut out, "body", body);
    push_opt_str(&mut out, "state", state);
    assert(payload_view(out@) =~= pr_update_payload(opt_str_view(title), opt_str_view(body), opt_str_view(state)));
    out
}

// ── Browser client ──────────────────────────────────────────────────

/// GitHub REST API client settings for the browser extension: the token
/// and the API base URL.
pub struct WasmClient {
    /// GitHub Personal Access Token.
    pub token: String,
    /// API base URL.
    pub base_url: String,
}

impl WasmClient {
    /// Create a new wasm GitHub client.
    ///
    /// `token` is a GitHub Personal Access Token.
    pub fn new(token: String) -> (c: WasmClient)
        ensures
            c.token == token,
            c.base_url@ == "https://api.github.com"@,
    {
        WasmClient { token, base_url: copy_str("https://api.github.com") }
    }

    /// The full URL of an API path.
    pub fn url(&self, path: &str) -> (u: String)
        ensures
            u@ == self.base_url@ + path@,
    {
        let mut u = self.base_url.clone();
        append_str(&mut u, path);
        u
    }

    /// The `Authorization` header value.
    pub fn authorization(&self) -> (h: String)
        ensures
            h@ == "Bearer "@ + self.token@,
    {
        prefixed("Bearer ", self.token.as_str())
    }
}

} // verus!
