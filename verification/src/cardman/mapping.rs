//! Card-to-column mapping engine.
//!
//! Determines which Kanban column a card belongs to based on issue/PR state,
//! labels, reviews, and CI status. Rules are checked in a fixed order (see
//! [`pr_kind`] and [`issue_kind`]); the first rule that matches decides.
use vstd::prelude::*;

use crate::cardman::models::{
    Card, CardSource, CiStatus, Column, Issue, IssueState, Label, Priority, PullRequest, Review, ReviewState,
};
use crate::labels::priority_of_label;
use crate::text::{copy_str, eq_ascii_ci, eq_ignore_ascii_case, has_prefix, starts_with};

verus! {

/// Configuration for the mapping engine.
#[derive(Debug, Clone, PartialEq, Eq)]
pub struct MappingConfig {
    /// Number of approved reviews required to move a PR to QA Backlog.
    /// Configurable globally, overridable per repository.
    pub required_approvals: u8,
    /// Logins of the users who review as QA.
    pub qa_users: Vec<String>,
}

impl Default for MappingConfig {
    /// Two required approvals and no QA users.
    fn default() -> (c: Self)
        ensures
            c.required_approvals == 2,
            c.qa_users@.len() == 0,
    {
        MappingConfig { required_approvals: 2, qa_users: Vec::new() }
    }
}

/// All possible columns on the Kanban board, from left to right.
#[derive(Debug, Clone, Copy, PartialEq, Eq)]
pub enum ColumnKind {
    /// 🧊 Icebox.
    Icebox,
    /// ⏳ Prebacklog.
    Prebacklog,
    /// 📥 Backlog.
    Backlog,
    /// ❌ Failed.
    Failed,
    /// 🚧 In Progress.
    InProgress,
    /// 👀 Code review.
    CodeReview,
    /// ⏳ QA Backlog.
    QaBacklog,
    /// 🔍 QA Review.
    QaReview,
    /// ☑️ Ready for STG.
    ReadyForStg,
    /// ✅ Ready for deploy.
    ReadyForDeploy,
    /// 📦 In Release.
    InRelease,
    /// 🚪 Closed.
    Closed,
}

/// The display name of a column.
pub open spec fn kind_name(k: ColumnKind) -> Seq<char> {
    match k {
        ColumnKind::Icebox => "Icebox"@,
        ColumnKind::Prebacklog => "Prebacklog"@,
        ColumnKind::Backlog => "Backlog"@,
        ColumnKind::Failed => "Failed"@,
        ColumnKind::InProgress => "In Progress"@,
        ColumnKind::CodeReview => "Code review"@,
        ColumnKind::QaBacklog => "QA Backlog"@,
        ColumnKind::QaReview => "QA Review"@,
        ColumnKind::ReadyForStg => "Ready for STG"@,
        ColumnKind::ReadyForDeploy => "Ready for deploy"@,
        ColumnKind::InRelease => "In Release"@,
        ColumnKind::Closed => "Closed"@,
    }
}

/// The emoji of a column.
pub open spec fn kind_emoji(k: ColumnKind) -> Seq<char> {
    match k {
        ColumnKind::Icebox => "🧊"@,
        ColumnKind::Prebacklog => "⏳"@,
        ColumnKind::Backlog => "📥"@,
        ColumnKind::Failed => "❌"@,
        ColumnKind::InProgress => "🚧"@,
        ColumnKind::CodeReview => "👀"@,
        ColumnKind::QaBacklog => "⏳"@,
        ColumnKind::QaReview => "🔍"@,
        ColumnKind::ReadyForStg => "☑️"@,
        ColumnKind::ReadyForDeploy => "✅"@,
        ColumnKind::InRelease => "📦"@,
        ColumnKind::Closed => "🚪"@,
    }
}

/// The sort order of a column: its position from the left, starting at 0.
pub open spec fn kind_order(k: ColumnKind) -> u8 {
    match k {
        ColumnKind::Icebox => 0,
        ColumnKind::Prebacklog => 1,
        ColumnKind::Backlog => 2,
        ColumnKind::Failed => 3,
        ColumnKind::InProgress => 4,
        ColumnKind::CodeReview => 5,
        ColumnKind::QaBacklog => 6,
        ColumnKind::QaReview => 7,
        ColumnKind::ReadyForStg => 8,
        ColumnKind::ReadyForDeploy => 9,
        ColumnKind::InRelease => 10,
        ColumnKind::Closed => 11,
    }
}

/// `c` displays the column `k`.
pub open spec fn is_column(c: Column, k: ColumnKind) -> bool {
    c.name@ == kind_name(k) && c.emoji@ == kind_emoji(k) && c.sort_order == kind_order(k)
}

impl ColumnKind {
    /// Convert to a displayable [`Column`] with emoji and sort order.
    pub fn to_column(self) -> (c: Column)
        ensures
            is_column(c, self),
    {
        let (name, emoji, sort_order) = match self {
            ColumnKind::Icebox => ("Icebox", "🧊", 0u8),
            ColumnKind::Prebacklog => ("Prebacklog", "⏳", 1u8),
            ColumnKind::Backlog => ("Backlog", "📥", 2u8),
            ColumnKind::Failed => ("Failed", "❌", 3u8),
            ColumnKind::InProgress => ("In Progress", "🚧", 4u8),
            ColumnKind::CodeReview => ("Code review", "👀", 5u8),
            ColumnKind::QaBacklog => ("QA Backlog", "⏳", 6u8),
            ColumnKind::QaReview => ("QA Review", "🔍", 7u8),
            ColumnKind::ReadyForStg => ("Ready for STG", "☑️", 8u8),
            ColumnKind::ReadyForDeploy => ("Ready for deploy", "✅", 9u8),
            ColumnKind::InRelease => ("In Release", "📦", 10u8),
            ColumnKind::Closed => ("Closed", "🚪", 11u8),
        };
        Column { name: copy_str(name), emoji: copy_str(emoji), sort_order }
    }
}

// ── Specification of the rules ──────────────────────────────────────

/// The highest (lowest-numbered) priority among the priority labels.
pub open spec fn lowest_priority(labels: Seq<Label>) -> Option<u8>
    decreases labels.len(),
{
    if labels.len() == 0 {
        None
    } else {
        let rest = lowest_priority(labels.drop_last());
        match priority_of_label(labels.last().name@) {
            None => rest,
            Some(p) => match rest {
                None => Some(p),
                Some(q) => Some(if p < q { p } else { q }),
            },
        }
    }
}

/// The column of an issue: a closed issue → Closed; otherwise by its
/// priority, `#6` → Icebox, `#1`–`#3` → Backlog, `#4`, `#5` or none →
/// Prebacklog.
pub open spec fn issue_kind(state: IssueState, priority: Option<u8>) -> ColumnKind {
    if state == IssueState::Closed {
        ColumnKind::Closed
    } else {
        open_issue_kind(priority)
    }
}

/// The column of an open issue with the given priority.
pub open spec fn open_issue_kind(priority: Option<u8>) -> ColumnKind {
    match priority {
        Some(p) => if p == 6 {
            ColumnKind::Icebox
        } else if 1 <= p && p <= 3 {
            ColumnKind::Backlog
        } else {
            ColumnKind::Prebacklog
        },
        None => ColumnKind::Prebacklog,
    }
}

/// The branch name starts with `release/` or `release-`.
pub open spec fn is_release_branch(branch: Seq<char>) -> bool {
    has_prefix(branch, "release/"@) || has_prefix(branch, "release-"@)
}

/// Some QA user (compared without ASCII case) approved the PR.
pub open spec fn qa_approved(reviews: Seq<Review>, qa_users: Seq<String>) -> bool {
    exists|i: int, j: int|
        0 <= i < reviews.len() && 0 <= j < qa_users.len() && #[trigger] reviews[i].state
            == ReviewState::Approved && eq_ascii_ci(#[trigger] qa_users[j]@, reviews[i].user.login@)
}

/// Some label is named `name` (compared without ASCII case).
pub open spec fn has_label(labels: Seq<Label>, name: Seq<char>) -> bool {
    exists|i: int| 0 <= i < labels.len() && eq_ascii_ci(#[trigger] labels[i].name@, name)
}

/// The number of approving reviews.
pub open spec fn approval_count(reviews: Seq<Review>) -> nat
    decreases reviews.len(),
{
    if reviews.len() == 0 {
        0
    } else {
        approval_count(reviews.drop_last()) + (if reviews.last().state == ReviewState::Approved {
            1nat
        } else {
            0nat
        })
    }
}

/// Some review is pending.
pub open spec fn has_pending_review(reviews: Seq<Review>) -> bool {
    exists|i: int| 0 <= i < reviews.len() && #[trigger] reviews[i].state == ReviewState::Pending
}

/// The column of a pull request, by the first rule that holds:
/// release branch → In Release; merged → Ready for deploy; `QA-OK` label or
/// approved by a QA user → Ready for STG; `QA-Failed` label → Failed; `QA`
/// label → QA Review; enough approvals, no failed CI and no pending review
/// → QA Backlog; any review, no failed CI and no pending review → Code
/// review; otherwise In Progress. Labels are compared without ASCII case.
pub open spec fn pr_kind(pr: PullRequest, config: MappingConfig) -> ColumnKind {
    let failed = pr.ci_status == CiStatus::Failure;
    let pending = has_pending_review(pr.reviews@);
    if is_release_branch(pr.branch@) {
        ColumnKind::InRelease
    } else if pr.merged {
        ColumnKind::ReadyForDeploy
    } else if has_label(pr.labels@, "QA-OK"@) || qa_approved(pr.reviews@, config.qa_users@) {
        ColumnKind::ReadyForStg
    } else if has_label(pr.labels@, "QA-Failed"@) {
        ColumnKind::Failed
    } else if has_label(pr.labels@, "QA"@) {
        ColumnKind::QaReview
    } else if approval_count(pr.reviews@) >= config.required_approvals && !failed && !pending {
        ColumnKind::QaBacklog
    } else if pr.reviews@.len() > 0 && !failed && !pending {
        ColumnKind::CodeReview
    } else {
        ColumnKind::InProgress
    }
}

/// The labels of a card's source.
pub open spec fn source_labels(source: CardSource) -> Seq<Label> {
    match source {
        CardSource::Issue(i) => i.labels@,
        CardSource::PullRequest(pr) => pr.labels@,
    }
}

/// The column of a card's source.
pub open spec fn source_kind(source: CardSource, config: MappingConfig) -> ColumnKind {
    match source {
        CardSource::Issue(i) => issue_kind(i.state, lowest_priority(i.labels@)),
        CardSource::PullRequest(pr) => pr_kind(pr, config),
    }
}

/// The priority value of an optional priority.
pub open spec fn priority_value(p: Option<Priority>) -> Option<u8> {
    match p {
        Some(q) => Some(q.0),
        None => None,
    }
}

// ── Rules ───────────────────────────────────────────────────────────

/// Extract the highest (lowest-numbered) priority from a set of labels.
pub fn extract_priority(labels: &Vec<Label>) -> (r: Option<Priority>)
    ensures
        priority_value(r) == lowest_priority(labels@),
{
    let mut best: Option<Priority> = None;
    let mut i: usize = 0;
    while i < labels.len()
        invariant
            i <= labels.len(),
            priority_value(best) == lowest_priority(labels@.take(i as int)),
        decreases labels.len() - i,
    {
        assert(labels@.take(i + 1).drop_last() =~= labels@.take(i as int));
        assert(labels@.take(i + 1).last() == labels@[i as int]);
        match Priority::from_label(labels[i].name.as_str()) {
            Some(p) => {
                best = match best {
                    None => Some(p),
                    Some(q) => if p.0 < q.0 {
                        Some(p)
                    } else {
                        Some(q)
                    },
                };
            },
            None => {},
        }
        i = i + 1;
    }
    assert(labels@.take(labels.len() as int) =~= labels@);
    best
}

/// Determine the column for an issue (no associated PR).
pub fn map_issue(issue: &Issue) -> (k: ColumnKind)
    ensures
        k == issue_kind(issue.state, lowest_priority(issue.labels@)),
{
    if matches!(issue.state, IssueState::Closed) {
        return ColumnKind::Closed;
    }
    match extract_priority(&issue.labels) {
        Some(p) => if p.0 == 6 {
            ColumnKind::Icebox
        } else if 1 <= p.0 && p.0 <= 3 {
            ColumnKind::Backlog
        } else {
            ColumnKind::Prebacklog
        },
        None => ColumnKind::Prebacklog,
    }
}

/// Check whether a PR branch is contained in a release branch.
///
/// Heuristic: the branch name starts with "release/" or "release-".
pub fn is_in_release_branch(branch: &str) -> (b: bool)
    ensures
        b == is_release_branch(branch@),
{
    starts_with(branch, "release/") || starts_with(branch, "release-")
}

/// Whether a QA user approved the PR.
fn has_qa_approval(reviews: &Vec<Review>, qa_users: &Vec<String>) -> (b: bool)
    ensures
        b == qa_approved(reviews@, qa_users@),
{
    let mut i: usize = 0;
    while i < reviews.len()
        invariant
            i <= reviews.len(),
            forall|a: int, j: int|
                0 <= a < i && 0 <= j < qa_users@.len() ==> !(#[trigger] reviews@[a].state
                    == ReviewState::Approved && eq_ascii_ci(
                    #[trigger] qa_users@[j]@,
                    reviews@[a].user.login@,
                )),
        decreases reviews.len() - i,
    {
        if matches!(reviews[i].state, ReviewState::Approved) {
            let mut j: usize = 0;
            while j < qa_users.len()
                invariant
                    i < reviews.len(),
                    j <= qa_users.len(),
                    reviews@[i as int].state == ReviewState::Approved,
                    forall|q: int|
                        0 <= q < j ==> !eq_ascii_ci(
                            #[trigger] qa_users@[q]@,
                            reviews@[i as int].user.login@,
                        ),
                decreases qa_users.len() - j,
            {
                if eq_ignore_ascii_case(qa_users[j].as_str(), reviews[i].user.login.as_str()) {
                    return true;
                }
                j = j + 1;
            }
        }
        i = i + 1;
    }
    false
}

/// Whether some label is named `name`, without ASCII case.
fn has_label_named(labels: &Vec<Label>, name: &str) -> (b: bool)
    ensures
        b == has_label(labels@, name@),
{
    let mut i: usize = 0;
    while i < labels.len()
        invariant
            i <= labels.len(),
            forall|a: int| 0 <= a < i ==> !eq_ascii_ci(#[trigger] labels@[a].name@, name@),
        decreases labels.len() - i,
    {
        if eq_ignore_ascii_case(labels[i].name.as_str(), name) {
            return true;
        }
        i = i + 1;
    }
    false
}

/// The number of approving reviews and whether some review is pending.
fn review_summary(reviews: &Vec<Review>) -> (r: (u64, bool))
    ensures
        r.0 == approval_count(reviews@),
        r.1 == has_pending_review(reviews@),
{
    let mut approvals: u64 = 0;
    let mut pending = false;
    let mut i: usize = 0;
    while i < reviews.len()
        invariant
            i <= reviews.len(),
            approvals == approval_count(reviews@.take(i as int)),
            approvals <= i,
            pending == (exists|a: int| 0 <= a < i && #[trigger] reviews@[a].state == ReviewState::Pending),
        decreases reviews.len() - i,
    {
        assert(reviews@.take(i + 1).drop_last() =~= reviews@.take(i as int));
        assert(reviews@.take(i + 1).last() == reviews@[i as int]);
        match reviews[i].state {
            ReviewState::Approved => {
                approvals = approvals + 1;
            },
            ReviewState::Pending => {
                pending = true;
            },
            _ => {},
        }
        i = i + 1;
    }
    assert(reviews@.take(reviews.len() as int) =~= reviews@);
    (approvals, pending)
}

/// Determine the column for a pull request.
pub fn map_pull_request(pr: &PullRequest, config: &MappingConfig) -> (k: ColumnKind)
    ensures
        k == pr_kind(*pr, *config),
{
    if is_in_release_branch(pr.branch.as_str()) {
        return ColumnKind::InRelease;
    }
    if pr.merged {
        return ColumnKind::ReadyForDeploy;
    }
    if has_label_named(&pr.labels, "QA-OK") || has_qa_approval(&pr.reviews, &config.qa_users) {
        return ColumnKind::ReadyForStg;
    }
    if has_label_named(&pr.labels, "QA-Failed") {
        return ColumnKind::Failed;
    }
    if has_label_named(&pr.labels, "QA") {
        return ColumnKind::QaReview;
    }
    let (approval_count, has_pending_review) = review_summary(&pr.reviews);
    let has_failed_ci = matches!(pr.ci_status, CiStatus::Failure);
    let has_reviewers = pr.reviews.len() > 0;
    if approval_count >= config.required_approvals as u64 && !has_failed_ci && !has_pending_review {
        return ColumnKind::QaBacklog;
    }
    if has_reviewers && !has_failed_ci && !has_pending_review {
        return ColumnKind::CodeReview;
    }
    ColumnKind::InProgress
}

/// Map a card source to its column and priority, producing a full [`Card`].
pub fn map_card(source: CardSource, config: &MappingConfig) -> (card: Card)
    ensures
        card.source == source,
        is_column(card.column, source_kind(source, *config)),
        priority_value(card.priority) == lowest_priority(source_labels(source)),
{
    let (column_kind, priority) = match &source {
        CardSource::Issue(issue) => (map_issue(issue), extract_priority(&issue.labels)),
        CardSource::PullRequest(pr) => (map_pull_request(pr, config), extract_priority(&pr.labels)),
    };
    Card { priority, column: column_kind.to_column(), source }
}

// ── Properties ──────────────────────────────────────────────────────

/// Columns are numbered from left to right without gaps or repeats.
pub proof fn law_column_orders_distinct(a: ColumnKind, b: ColumnKind)
    ensures
        kind_order(a) <= 11,
        kind_order(a) == kind_order(b) <==> a == b,
{
}

/// A closed issue is in the Closed column; an open issue's column is
/// decided by its priority alone: priority 6 is the Icebox, 1 to 3 the
/// Backlog, anything else the Prebacklog.
pub proof fn law_issue_column_follows_priority(issue: Issue, config: MappingConfig)
    ensures
        issue.state == IssueState::Closed ==> source_kind(CardSource::Issue(issue), config)
            == ColumnKind::Closed,
        issue.state == IssueState::Open ==> source_kind(CardSource::Issue(issue), config)
            == open_issue_kind(lowest_priority(source_labels(CardSource::Issue(issue)))),
        issue.state == IssueState::Open && lowest_priority(issue.labels@) == Some(6u8) ==> source_kind(
            CardSource::Issue(issue),
            config,
        ) == ColumnKind::Icebox,
        issue.state == IssueState::Open && lowest_priority(issue.labels@) is None ==> source_kind(CardSource::Issue(issue), config)
            == ColumnKind::Prebacklog,
{
}

/// The priority of a set of labels is one of their priorities, and no
/// label has a higher (lower-numbered) one.
pub proof fn law_lowest_priority_is_minimum(labels: Seq<Label>)
    ensures
        lowest_priority(labels) matches Some(p) ==> exists|i: int|
            0 <= i < labels.len() && priority_of_label(#[trigger] labels[i].name@) == Some(p),
        forall|i: int|
            0 <= i < labels.len() ==> (#[trigger] priority_of_label(labels[i].name@) matches Some(q)
                ==> lowest_priority(labels) matches Some(p) && p <= q),
    decreases labels.len(),
{
    if labels.len() > 0 {
        let rest = labels.drop_last();
        law_lowest_priority_is_minimum(rest);
        assert forall|i: int| 0 <= i < rest.len() implies rest[i] == labels[i] by {}
        if lowest_priority(rest) is Some {
            let p = lowest_priority(rest)->0;
            let i = choose|i: int| 0 <= i < rest.len() && priority_of_label(#[trigger] rest[i].name@) == Some(p);
            assert(labels[i] == rest[i]);
        }
        assert(labels[labels.len() - 1] == labels.last());
        assert forall|i: int|
            0 <= i < labels.len() implies (#[trigger] priority_of_label(labels[i].name@) matches Some(q)
                ==> lowest_priority(labels) matches Some(p) && p <= q) by {
            if i < rest.len() {
                assert(labels[i] == rest[i]);
            }
        }
    }
}

/// A PR on a release branch is In Release, whatever its other state.
pub proof fn law_release_branch_wins(pr: PullRequest, config: MappingConfig)
    requires
        is_release_branch(pr.branch@),
    ensures
        pr_kind(pr, config) == ColumnKind::InRelease,
{
}

/// A failed CI run or a pending review keeps a PR out of Code review and
/// QA Backlog.
pub proof fn law_failed_ci_blocks_review_columns(pr: PullRequest, config: MappingConfig)
    requires
        pr.ci_status == CiStatus::Failure || has_pending_review(pr.reviews@),
    ensures
        pr_kind(pr, config) != ColumnKind::CodeReview,
        pr_kind(pr, config) != ColumnKind::QaBacklog,
{
}


/// The reviews that approved.
pub open spec fn approving_reviews(reviews: Seq<Review>) -> Seq<Review> {
    reviews.filter(|r: Review| r.state == ReviewState::Approved)
}

proof fn lemma_approval_count_is_approving(reviews: Seq<Review>)
    ensures
        approval_count(reviews) == approving_reviews(reviews).len(),
    decreases reviews.len(),
{
    if reviews.len() > 0 {
        let d = reviews.drop_last();
        lemma_approval_count_is_approving(d);
        d.lemma_filter_len_push(|r: Review| r.state == ReviewState::Approved, reviews.last());
        assert(d.push(reviews.last()) =~= reviews);
    }
}

/// QA Backlog counts approvals only: a PR is in QA Backlog only when at
/// least `required_approvals` of its reviews are approvals, CI has not
/// failed and no review is pending; and a PR that no earlier rule claims
/// (release branch, merged, `QA-OK` or QA approval, `QA-Failed`, `QA`)
/// with that many approvals, passing CI and no pending review is in QA
/// Backlog. Reviews that only commented or requested changes never count.
pub proof fn law_qa_backlog_counts_approvals(pr: PullRequest, config: MappingConfig)
    ensures
        pr_kind(pr, config) == ColumnKind::QaBacklog ==> approving_reviews(pr.reviews@).len()
            >= config.required_approvals && pr.ci_status != CiStatus::Failure && forall|i: int|
            0 <= i < pr.reviews@.len() ==> (#[trigger] pr.reviews@[i]).state != ReviewState::Pending,
        (!is_release_branch(pr.branch@) && !pr.merged && !has_label(pr.labels@, "QA-OK"@)
            && !qa_approved(pr.reviews@, config.qa_users@) && !has_label(pr.labels@, "QA-Failed"@)
            && !has_label(pr.labels@, "QA"@) && approving_reviews(pr.reviews@).len()
            >= config.required_approvals && pr.ci_status != CiStatus::Failure && forall|i: int|
            0 <= i < pr.reviews@.len() ==> (#[trigger] pr.reviews@[i]).state != ReviewState::Pending)
            ==> pr_kind(pr, config) == ColumnKind::QaBacklog,
{
    lemma_approval_count_is_approving(pr.reviews@);
}

} // verus!
