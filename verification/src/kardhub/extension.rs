//! The logic behind the browser extension's JSON API: turning raw GitHub
//! issues and pull requests into domain values, the column definitions,
//! the cards handed back to the page, and the classification of the user's
//! repositories into organizations and personal repositories.
use vstd::prelude::*;

use crate::kardhub::models::{Card, CardSource, CiStatus, Column, Issue, IssueState, Label, PullRequest};
use crate::order::{sort_strings, sorted};
use crate::kardhub::session::sort_cards_by_priority;
use crate::stable_sort::stable_sorted;
use crate::text::{
    concat_str, contains_seq, contains_str, copy_str, decimal, eq_ascii_ci, eq_ignore_ascii_case,
    is_whitespace, join, join_seqs, str_eq, u64_to_decimal, unicode_whitespace, views,
};

verus! {

// ── Raw GitHub data ─────────────────────────────────────────────────

/// A label as GitHub sends it.
#[derive(Debug, Clone)]
pub struct RawLabel {
    /// Label text.
    pub name: String,
    /// Hex color (empty where missing).
    pub color: String,
}

/// A user as GitHub sends it.
#[derive(Debug, Clone)]
pub struct RawUser {
    /// Login.
    pub login: String,
    /// Avatar URL, where given.
    pub avatar_url: Option<String>,
}

/// An issue as GitHub sends it.
#[derive(Debug, Clone)]
pub struct RawIssue {
    /// Issue number.
    pub number: u64,
    /// Title.
    pub title: String,
    /// Body.
    pub body: Option<String>,
    /// Labels.
    pub labels: Vec<RawLabel>,
    /// Assignees.
    pub assignees: Vec<RawUser>,
    /// `open` or `closed`.
    pub state: String,
    /// Author, where given.
    pub user: Option<RawUser>,
}

/// A pull request as GitHub sends it.
#[derive(Debug, Clone)]
pub struct RawPr {
    /// PR number.
    pub number: u64,
    /// Title.
    pub title: String,
    /// Body.
    pub body: Option<String>,
    /// Whether it is a draft.
    pub draft: bool,
    /// Labels.
    pub labels: Vec<RawLabel>,
    /// Assignees.
    pub assignees: Vec<RawUser>,
    /// Users asked for a review.
    pub requested_reviewers: Vec<RawUser>,
    /// Head branch name, where given.
    pub head_ref: Option<String>,
    /// Merge time, where merged.
    pub merged_at: Option<String>,
    /// `open` or `closed`.
    pub state: String,
    /// Author, where given.
    pub user: Option<RawUser>,
}

/// The labels of raw labels.
pub open spec fn labels_of_raw(ls: Seq<RawLabel>) -> Seq<Label> {
    ls.map_values(|l: RawLabel| Label { name: l.name, color: l.color })
}

/// The logins of raw users.
pub open spec fn raw_logins(us: Seq<RawUser>) -> Seq<String> {
    us.map_values(|u: RawUser| u.login)
}

/// The login of an optional author, or the empty string.
pub open spec fn author_login(u: Option<RawUser>) -> Seq<char> {
    match u {
        Some(u) => u.login@,
        None => Seq::empty(),
    }
}

/// Labels from raw labels, in order.
fn labels_from_raw(ls: Vec<RawLabel>) -> (out: Vec<Label>)
    ensures
        out@ == labels_of_raw(ls@),
{
    let ghost all = ls@;
    let mut out: Vec<Label> = Vec::new();
    for l in it: ls.into_iter()
        invariant
            it.seq() == all,
            out@ == labels_of_raw(all.take(it.index() as int)),
    {
        let ghost k = it.index();
        assert(all[k as int] == l);
        out.push(Label { name: l.name, color: l.color });
        assert(labels_of_raw(all.take(k + 1)) =~= labels_of_raw(all.take(k as int)).push(
            Label { name: all[k as int].name, color: all[k as int].color },
        ));
    }
    assert(all.take(all.len() as int) =~= all);
    out
}

/// Logins of raw users, in order.
fn logins_from_raw(us: Vec<RawUser>) -> (out: Vec<String>)
    ensures
        out@ == raw_logins(us@),
{
    let ghost all = us@;
    let mut out: Vec<String> = Vec::new();
    for u in it: us.into_iter()
        invariant
            it.seq() == all,
            out@ == raw_logins(all.take(it.index() as int)),
    {
        let ghost k = it.index();
        assert(all[k as int] == u);
        out.push(u.login);
        assert(raw_logins(all.take(k + 1)) =~= raw_logins(all.take(k as int)).push(all[k as int].login));
    }
    assert(all.take(all.len() as int) =~= all);
    out
}

/// The login of an optional author, or the empty string.
fn login_or_empty(u: Option<RawUser>) -> (s: String)
    ensures
        s@ == author_login(u),
{
    match u {
        Some(u) => u.login,
        None => String::new(),
    }
}

/// The issue a raw issue describes, updated at `now`: open where the state
/// is `open` and closed otherwise; assignees by login; the author's login
/// or the empty string; no sub-issues.
pub fn issue_from_raw(ri: RawIssue, now: i64) -> (i: Issue)
    ensures
        i.number == ri.number,
        i.title == ri.title,
        i.body == ri.body,
        i.labels@ == labels_of_raw(ri.labels@),
        i.assignees@ == raw_logins(ri.assignees@),
        i.state == (if ri.state@ == "open"@ {
            IssueState::Open
        } else {
            IssueState::Closed
        }),
        i.sub_issues@.len() == 0,
        i.author@ == author_login(ri.user),
        i.updated_at == now,
{
    let state = if str_eq(ri.state.as_str(), "open") {
        IssueState::Open
    } else {
        IssueState::Closed
    };
    Issue {
        number: ri.number,
        title: ri.title,
        body: ri.body,
        labels: labels_from_raw(ri.labels),
        assignees: logins_from_raw(ri.assignees),
        state,
        sub_issues: Vec::new(),
        author: login_or_empty(ri.user),
        updated_at: now,
    }
}

/// The pull request a raw pull request describes, updated at `now`: merged
/// where a merge time is given; closed where the state is `closed` and it
/// is not merged; assigned to its assignees, or to its author where it has
/// none; pending CI and no reviews.
pub fn pr_from_raw(rp: RawPr, now: i64) -> (p: PullRequest)
    ensures
        p.number == rp.number,
        p.title == rp.title,
        p.body == rp.body,
        p.draft == rp.draft,
        p.author@ == author_login(rp.user),
        p.assignees@.len() == (if rp.assignees@.len() == 0 {
            1
        } else {
            rp.assignees@.len()
        }),
        rp.assignees@.len() == 0 ==> p.assignees@[0]@ == author_login(rp.user),
        rp.assignees@.len() > 0 ==> p.assignees@ == raw_logins(rp.assignees@),
        p.requested_reviewers@ == raw_logins(rp.requested_reviewers@),
        p.reviews@.len() == 0,
        p.ci_status == CiStatus::Pending,
        p.merged == rp.merged_at is Some,
        p.closed == (rp.state@ == "closed"@ && rp.merged_at is None),
        p.branch@ == match rp.head_ref {
            Some(b) => b@,
            None => Seq::empty(),
        },
        p.labels@ == labels_of_raw(rp.labels@),
        p.updated_at == now,
{
    let merged = rp.merged_at.is_some();
    let closed = str_eq(rp.state.as_str(), "closed") && !merged;
    let author = login_or_empty(rp.user);
    let logins = logins_from_raw(rp.assignees);
    let assignees = if logins.len() == 0 {
        let mut v: Vec<String> = Vec::new();
        v.push(author.clone());
        v
    } else {
        logins
    };
    let branch = match rp.head_ref {
        Some(b) => b,
        None => String::new(),
    };
    PullRequest {
        number: rp.number,
        title: rp.title,
        body: rp.body,
        draft: rp.draft,
        author,
        assignees,
        requested_reviewers: logins_from_raw(rp.requested_reviewers),
        reviews: Vec::new(),
        ci_status: CiStatus::Pending,
        merged,
        closed,
        branch,
        labels: labels_from_raw(rp.labels),
        updated_at: now,
    }
}

// ── Columns ─────────────────────────────────────────────────────────

/// The column definitions of the extension's board, in display order, as
/// (emoji, name).
pub open spec fn column_def_list() -> Seq<(Seq<char>, Seq<char>)> {
    seq![
        ("🧊"@, "Icebox"@),
        ("⏳"@, "Prebacklog"@),
        ("📥"@, "Backlog"@),
        ("❌"@, "Failed"@),
        ("🚧"@, "In Progress"@),
        ("👀"@, "Code review"@),
        ("⏳"@, "QA Backlog"@),
        ("🔍"@, "QA Review"@),
        ("☑\u{fe0f}"@, "Ready for STG"@),
        ("✅"@, "Ready for deploy"@),
        ("📦"@, "In Release"@),
    ]
}

/// Produce the column definitions list in display order, numbered from 0.
pub fn column_defs() -> (cols: Vec<Column>)
    ensures
        cols@.len() == column_def_list().len(),
        forall|i: int|
            0 <= i < cols@.len() ==> ((#[trigger] cols@[i]).emoji@, cols@[i].name@) == column_def_list()[i]
                && cols@[i].sort_order == i,
{
    let defs = vec![
        ("🧊", "Icebox"),
        ("⏳", "Prebacklog"),
        ("📥", "Backlog"),
        ("❌", "Failed"),
        ("🚧", "In Progress"),
        ("👀", "Code review"),
        ("⏳", "QA Backlog"),
        ("🔍", "QA Review"),
        ("☑\u{fe0f}", "Ready for STG"),
        ("✅", "Ready for deploy"),
        ("📦", "In Release"),
    ];
    let mut cols: Vec<Column> = Vec::new();
    let mut i: usize = 0;
    while i < defs.len()
        invariant
            i <= defs.len(),
            defs@.len() == 11,
            forall|k: int| 0 <= k < 11 ==> ((#[trigger] defs@[k]).0@, defs@[k].1@) == column_def_list()[k],
            cols@.len() == i,
            forall|k: int|
                0 <= k < i ==> ((#[trigger] cols@[k]).emoji@, cols@[k].name@) == column_def_list()[k]
                    && cols@[k].sort_order == k,
        decreases defs.len() - i,
    {
        let (emoji, name) = defs[i];
        cols.push(Column { name: copy_str(name), emoji: copy_str(emoji), sort_order: i as u8 });
        i = i + 1;
    }
    cols
}

// ── Cards handed back to the page ───────────────────────────────────

/// An assignee as the page shows it.
#[derive(Debug, Clone)]
pub struct CardAssignee {
    /// Login.
    pub login: String,
    /// Avatar URL (empty: the page resolves it).
    pub avatar_url: String,
}

/// A card as the page shows it.
#[derive(Debug, Clone)]
pub struct MappedCard {
    /// Column name.
    pub column: String,
    /// Column emoji.
    pub emoji: String,
    /// Issue or PR number.
    pub number: u64,
    /// Title.
    pub title: String,
    /// Whether the card is a pull request.
    pub is_pr: bool,
    /// Repository owner.
    pub owner: String,
    /// Repository name.
    pub repo: String,
    /// Labels.
    pub labels: Vec<Label>,
    /// Assignees.
    pub assignees: Vec<CardAssignee>,
    /// Priority number, where the card has one.
    pub priority: Option<u8>,
}

/// The page's card describes the board card: column, emoji, number, title,
/// kind, repository, labels, assignees by login (no avatar) and priority.
pub open spec fn describes(m: MappedCard, c: Card) -> bool {
    let (number, title, is_pr, labels, assignees) = match c.source {
        CardSource::Issue(i) => (i.number, i.title, false, i.labels@, i.assignees@),
        CardSource::PullRequest(p) => (p.number, p.title, true, p.labels@, p.assignees@),
    };
    &&& m.column == c.column.name
    &&& m.emoji == c.column.emoji
    &&& m.number == number
    &&& m.title == title
    &&& m.is_pr == is_pr
    &&& m.owner == c.owner
    &&& m.repo == c.repo
    &&& m.labels@ == labels
    &&& m.assignees@.len() == assignees.len()
    &&& forall|k: int|
        0 <= k < assignees.len() ==> (#[trigger] m.assignees@[k]).login == assignees[k] && m.assignees@[k].avatar_url@.len() == 0
    &&& m.priority == match c.priority {
        Some(p) => Some(p.0),
        None => None,
    }
}

/// The cards that are not in the `Closed` column.
pub open spec fn open_column_cards(cards: Seq<Card>) -> Seq<Card> {
    cards.filter(|c: Card| c.column.name@ != "Closed"@)
}

/// Copies of labels.
fn copy_labels(ls: &Vec<Label>) -> (out: Vec<Label>)
    ensures
        out@ == ls@,
{
    let mut out: Vec<Label> = Vec::new();
    let mut i: usize = 0;
    while i < ls.len()
        invariant
            i <= ls.len(),
            out@ == ls@.take(i as int),
        decreases ls.len() - i,
    {
        out.push(Label { name: ls[i].name.clone(), color: ls[i].color.clone() });
        assert(ls@.take(i + 1) =~= ls@.take(i as int).push(ls@[i as int]));
        i = i + 1;
    }
    assert(ls@.take(ls.len() as int) =~= ls@);
    out
}

/// Assignees by login, with no avatar.
fn assignees_of(logins: &Vec<String>) -> (out: Vec<CardAssignee>)
    ensures
        out@.len() == logins@.len(),
        forall|k: int|
            0 <= k < logins@.len() ==> (#[trigger] out@[k]).login == logins@[k] && out@[k].avatar_url@.len() == 0,
{
    let mut out: Vec<CardAssignee> = Vec::new();
    let mut i: usize = 0;
    while i < logins.len()
        invariant
            i <= logins.len(),
            out@.len() == i,
            forall|k: int|
                0 <= k < i ==> (#[trigger] out@[k]).login == logins@[k] && out@[k].avatar_url@.len() == 0,
        decreases logins.len() - i,
    {
        out.push(CardAssignee { login: logins[i].clone(), avatar_url: String::new() });
        i = i + 1;
    }
    out
}

/// The page's card for a board card.
pub fn mapped_card(c: &Card) -> (m: MappedCard)
    ensures
        describes(m, *c),
{
    let (number, title, is_pr, labels, assignees) = match &c.source {
        CardSource::Issue(i) => (i.number, i.title.clone(), false, copy_labels(&i.labels), assignees_of(&i.assignees)),
        CardSource::PullRequest(p) => (p.number, p.title.clone(), true, copy_labels(&p.labels), assignees_of(&p.assignees)),
    };
    MappedCard {
        column: c.column.name.clone(),
        emoji: c.column.emoji.clone(),
        number,
        title,
        is_pr,
        owner: c.owner.clone(),
        repo: c.repo.clone(),
        labels,
        assignees,
        priority: match c.priority {
            Some(p) => Some(p.0),
            None => None,
        },
    }
}

/// The page's cards: every board card outside the `Closed` column, in order.
pub fn mapped_cards(cards: &Vec<Card>) -> (out: Vec<MappedCard>)
    ensures
        out@.len() == open_column_cards(cards@).len(),
        forall|k: int| 0 <= k < out@.len() ==> describes(#[trigger] out@[k], open_column_cards(cards@)[k]),
{
    let ghost pred = |c: Card| c.column.name@ != "Closed"@;
    let mut out: Vec<MappedCard> = Vec::new();
    let mut i: usize = 0;
    proof {
        reveal(Seq::filter);
        assert(cards@.take(0) =~= Seq::<Card>::empty());
    }
    while i < cards.len()
        invariant
            i <= cards.len(),
            pred == (|c: Card| c.column.name@ != "Closed"@),
            out@.len() == cards@.take(i as int).filter(pred).len(),
            forall|k: int|
                0 <= k < out@.len() ==> describes(#[trigger] out@[k], cards@.take(i as int).filter(pred)[k]),
        decreases cards.len() - i,
    {
        assert(cards@.take(i + 1) =~= cards@.take(i as int).push(cards@[i as int]));
        proof {
            cards@.take(i as int).lemma_filter_push(cards@[i as int], pred);
        }
        if !str_eq(cards[i].column.name.as_str(), "Closed") {
            let m = mapped_card(&cards[i]);
            out.push(m);
        }
        i = i + 1;
    }
    assert(cards@.take(cards.len() as int) =~= cards@);
    out
}

/// The board page handed back to the extension for already-mapped cards:
/// the column definitions, and the cards sorted by priority (stably, cards
/// without a priority first, as `Option<Priority>` orders them) with those in the `Closed` column left out,
/// each described for the page.
pub fn board_page(cards: Vec<Card>) -> (out: (Vec<Column>, Vec<MappedCard>))
    ensures
        out.0@.len() == column_def_list().len(),
        forall|i: int|
            0 <= i < out.0@.len() ==> ((#[trigger] out.0@[i]).emoji@, out.0@[i].name@) == column_def_list()[i]
                && out.0@[i].sort_order == i,
        out.1@.len() == open_column_cards(stable_sorted(cards@)).len(),
        forall|k: int|
            0 <= k < out.1@.len() ==> describes(#[trigger] out.1@[k], open_column_cards(stable_sorted(cards@))[k]),
{
    let columns = column_defs();
    let sorted_cards = sort_cards_by_priority(cards);
    let mapped = mapped_cards(&sorted_cards);
    (columns, mapped)
}


// ── Classifying repositories ────────────────────────────────────────

/// A repository owner as GitHub sends it.
#[derive(Debug, Clone)]
pub struct RawOwner {
    /// Owner login.
    pub login: String,
    /// Owner type (`User` or `Organization`; empty where missing).
    pub owner_type: String,
}

/// A repository as GitHub sends it.
#[derive(Debug, Clone)]
pub struct RawRepo {
    /// Repository name.
    pub name: String,
    /// `owner/name`, where given.
    pub full_name: Option<String>,
    /// Owner, where given.
    pub owner: Option<RawOwner>,
}

/// A repository as the page lists it.
#[derive(Debug, Clone)]
pub struct RepoRef {
    /// Owner login.
    pub owner: String,
    /// Repository name.
    pub repo: String,
    /// `owner/name`.
    pub full: String,
}

/// The user's repositories classified for the page.
#[derive(Debug, Clone)]
pub struct Classification {
    /// Organization logins, sorted.
    pub orgs: Vec<String>,
    /// Repositories of no listed organization.
    pub personal_repos: Vec<RepoRef>,
    /// Repositories per organization, as (org login, repositories); each
    /// login appears once.
    pub org_repos: Vec<(String, Vec<RepoRef>)>,
}

/// Some string of `s` equals `x` up to ASCII case.
pub open spec fn has_ci(s: Seq<Seq<char>>, x: Seq<char>) -> bool {
    exists|i: int| 0 <= i < s.len() && eq_ascii_ci(#[trigger] s[i], x)
}

/// The organization logins: the member organizations, followed by the
/// owner of each organization-owned repository that is not listed yet (up
/// to ASCII case), in repository order.
pub open spec fn collected_orgs(member: Seq<Seq<char>>, repos: Seq<RawRepo>) -> Seq<Seq<char>>
    decreases repos.len(),
{
    if repos.len() == 0 {
        member
    } else {
        let s = collected_orgs(member, repos.drop_last());
        match repos.last().owner {
            Some(o) => if o.owner_type@ == "Organization"@ && !has_ci(s, o.login@) {
                s.push(o.login@)
            } else {
                s
            },
            None => s,
        }
    }
}

/// The owner login of a repository, or the empty string.
pub open spec fn raw_owner_login(r: RawRepo) -> Seq<char> {
    match r.owner {
        Some(o) => o.login@,
        None => Seq::empty(),
    }
}

/// The first organization equal to `login` up to ASCII case.
pub open spec fn canonical_org(orgs: Seq<Seq<char>>, login: Seq<char>) -> Option<Seq<char>>
    decreases orgs.len(),
{
    if orgs.len() == 0 {
        None
    } else {
        match canonical_org(orgs.drop_last(), login) {
            Some(o) => Some(o),
            None => if eq_ascii_ci(orgs.last(), login) {
                Some(orgs.last())
            } else {
                None
            },
        }
    }
}

/// A listed repository, as (owner, name, full name).
pub open spec fn ref_view(e: RepoRef) -> (Seq<char>, Seq<char>, Seq<char>) {
    (e.owner@, e.repo@, e.full@)
}

/// How the page lists a repository: its owner login (or empty), its name,
/// and its full name, or `owner/name` where none is given.
pub open spec fn entry_view(r: RawRepo) -> (Seq<char>, Seq<char>, Seq<char>) {
    (
        raw_owner_login(r),
        r.name@,
        match r.full_name {
            Some(f) => f@,
            None => raw_owner_login(r) + "/"@ + r.name@,
        },
    )
}

/// Repositories whose owner is the organization `l` of `orgs`.
pub open spec fn in_org(orgs: Seq<Seq<char>>, l: Seq<char>) -> spec_fn(RawRepo) -> bool {
    |r: RawRepo| canonical_org(orgs, raw_owner_login(r)) == Some(l)
}

/// Repositories whose owner is none of `orgs`.
pub open spec fn personal_repo(orgs: Seq<Seq<char>>) -> spec_fn(RawRepo) -> bool {
    |r: RawRepo| canonical_org(orgs, raw_owner_login(r)) is None
}

/// The position of the first group keyed `l`.
pub open spec fn group_position(groups: Seq<(String, Vec<RepoRef>)>, l: Seq<char>) -> Option<int>
    decreases groups.len(),
{
    if groups.len() == 0 {
        None
    } else {
        match group_position(groups.drop_last(), l) {
            Some(i) => Some(i),
            None => if groups.last().0@ == l {
                Some(groups.len() - 1)
            } else {
                None
            },
        }
    }
}

/// The repositories listed under `l`, if it is a key.
pub open spec fn group_of(groups: Seq<(String, Vec<RepoRef>)>, l: Seq<char>) -> Option<
    Seq<(Seq<char>, Seq<char>, Seq<char>)>,
> {
    match group_position(groups, l) {
        Some(i) => Some(groups[i].1@.map_values(|e: RepoRef| ref_view(e))),
        None => None,
    }
}

/// No two groups share a key.
pub open spec fn keys_unique(groups: Seq<(String, Vec<RepoRef>)>) -> bool {
    forall|i: int, j: int|
        0 <= i < groups.len() && 0 <= j < groups.len() && i != j ==> (#[trigger] groups[i]).0@ != (
        #[trigger] groups[j]).0@
}

/// The repositories of `repos` the page lists under organization `l`.
pub open spec fn org_group(repos: Seq<RawRepo>, orgs: Seq<Seq<char>>, l: Seq<char>) -> Option<
    Seq<(Seq<char>, Seq<char>, Seq<char>)>,
> {
    let f = repos.filter(in_org(orgs, l));
    if f.len() > 0 {
        Some(f.map_values(|r: RawRepo| entry_view(r)))
    } else {
        None
    }
}

proof fn lemma_group_position(groups: Seq<(String, Vec<RepoRef>)>, l: Seq<char>)
    ensures
        group_position(groups, l) matches Some(i) ==> 0 <= i < groups.len() && groups[i].0@ == l,
        group_position(groups, l) is None ==> forall|k: int| 0 <= k < groups.len() ==> (#[trigger] groups[k]).0@ != l,
    decreases groups.len(),
{
    if groups.len() > 0 {
        lemma_group_position(groups.drop_last(), l);
        if group_position(groups, l) is None {
            assert forall|k: int| 0 <= k < groups.len() implies (#[trigger] groups[k]).0@ != l by {
                if k < groups.len() - 1 {
                    assert(groups[k] == groups.drop_last()[k]);
                }
            }
        }
    }
}

proof fn lemma_group_position_unique(groups: Seq<(String, Vec<RepoRef>)>, l: Seq<char>, i: int)
    requires
        keys_unique(groups),
        0 <= i < groups.len(),
        groups[i].0@ == l,
    ensures
        group_position(groups, l) == Some(i),
{
    lemma_group_position(groups, l);
}

/// Whether some string of `list` equals `x` up to ASCII case.
fn any_ci(list: &Vec<String>, x: &str) -> (b: bool)
    ensures
        b == has_ci(views(list@), x@),
{
    let mut i: usize = 0;
    while i < list.len()
        invariant
            i <= list.len(),
            forall|k: int| 0 <= k < i ==> !eq_ascii_ci(#[trigger] views(list@)[k], x@),
        decreases list.len() - i,
    {
        if eq_ignore_ascii_case(list[i].as_str(), x) {
            assert(eq_ascii_ci(views(list@)[i as int], x@));
            return true;
        }
        i = i + 1;
    }
    false
}

proof fn lemma_canonical_prefix(orgs: Seq<Seq<char>>, login: Seq<char>, n: int)
    requires
        0 <= n <= orgs.len(),
        canonical_org(orgs.take(n), login) is Some,
    ensures
        canonical_org(orgs, login) == canonical_org(orgs.take(n), login),
    decreases orgs.len() - n,
{
    if n < orgs.len() {
        assert(orgs.take(n + 1).drop_last() =~= orgs.take(n));
        lemma_canonical_prefix(orgs, login, n + 1);
    } else {
        assert(orgs.take(n) =~= orgs);
    }
}

/// The position of the first organization equal to `login` up to ASCII case.
fn find_ci(orgs: &Vec<String>, login: &str) -> (r: Option<usize>)
    ensures
        match r {
            Some(i) => i < orgs@.len() && canonical_org(views(orgs@), login@) == Some(orgs@[i as int]@),
            None => canonical_org(views(orgs@), login@) is None,
        },
{
    let ghost v = views(orgs@);
    let mut i: usize = 0;
    while i < orgs.len()
        invariant
            i <= orgs.len(),
            v == views(orgs@),
            canonical_org(v.take(i as int), login@) is None,
        decreases orgs.len() - i,
    {
        assert(v.take(i + 1).drop_last() =~= v.take(i as int));
        assert(v.take(i + 1).last() == orgs@[i as int]@);
        if eq_ignore_ascii_case(orgs[i].as_str(), login) {
            proof {
                lemma_canonical_prefix(v, login@, i + 1);
            }
            return Some(i);
        }
        i = i + 1;
    }
    assert(v.take(orgs.len() as int) =~= v);
    None
}

/// Adds `entry` to the group keyed `key`, opening the group if it is new.
fn add_to_group(groups: &mut Vec<(String, Vec<RepoRef>)>, key: &String, entry: RepoRef)
    requires
        keys_unique(old(groups)@),
    ensures
        keys_unique(final(groups)@),
        forall|l: Seq<char>|
            #![trigger group_of(final(groups)@, l)]
            group_of(final(groups)@, l) == if l == key@ {
                Some(
                    match group_of(old(groups)@, l) {
                        Some(g) => g,
                        None => Seq::empty(),
                    }.push(ref_view(entry)),
                )
            } else {
                group_of(old(groups)@, l)
            },
{
    let ghost before = groups@;
    let ghost ev = ref_view(entry);
    let mut p: usize = 0;
    while p < groups.len() && !str_eq(groups[p].0.as_str(), key.as_str())
        invariant
            groups@ == before,
            p <= groups.len(),
            forall|k: int| 0 <= k < p ==> (#[trigger] before[k]).0@ != key@,
        decreases groups.len() - p,
    {
        p = p + 1;
    }
    if p < groups.len() {
        let mut g = groups.remove(p);
        let ghost old_list = g.1@;
        g.1.push(entry);
        let ghost ng = g;
        groups.insert(p, g);
        assert(groups@ =~= before.update(p as int, ng));
        proof {
            lemma_group_position_unique(before, key@, p as int);
            lemma_group_position_unique(groups@, key@, p as int);
            assert(ng.1@.map_values(|e: RepoRef| ref_view(e)) =~= old_list.map_values(
                |e: RepoRef| ref_view(e),
            ).push(ev));
        }
        assert forall|l: Seq<char>|
            #![trigger group_of(groups@, l)]
            group_of(groups@, l) == if l == key@ {
                Some(
                    match group_of(before, l) {
                        Some(g) => g,
                        None => Seq::empty(),
                    }.push(ev),
                )
            } else {
                group_of(before, l)
            } by {
            if l != key@ {
                lemma_group_position(before, l);
                lemma_group_position(groups@, l);
                match group_position(before, l) {
                    Some(k) => {
                        assert(groups@[k] == before[k]);
                        lemma_group_position_unique(groups@, l, k);
                    },
                    None => {
                        if group_position(groups@, l) is Some {
                            let k = group_position(groups@, l).unwrap();
                            assert(groups@[k].0@ == before[k].0@);
                        }
                    },
                }
            }
        }
    } else {
        let mut list: Vec<RepoRef> = Vec::new();
        list.push(entry);
        groups.push((key.clone(), list));
        let ghost after = groups@;
        assert(after.drop_last() =~= before);
        proof {
            lemma_group_position(before, key@);
            lemma_group_position_unique(after, key@, before.len() as int);
            assert(after[before.len() as int].1@.map_values(|e: RepoRef| ref_view(e)) =~= seq![ev]);
        }
        assert forall|l: Seq<char>|
            #![trigger group_of(groups@, l)]
            group_of(groups@, l) == if l == key@ {
                Some(
                    match group_of(before, l) {
                        Some(g) => g,
                        None => Seq::empty(),
                    }.push(ev),
                )
            } else {
                group_of(before, l)
            } by {
            if l != key@ {
                lemma_group_position(before, l);
                lemma_group_position(after, l);
                match group_position(before, l) {
                    Some(k) => {
                        assert(after[k] == before[k]);
                        lemma_group_position_unique(after, l, k);
                    },
                    None => {
                        if group_position(after, l) is Some {
                            let k = group_position(after, l).unwrap();
                            if k < before.len() {
                                assert(after[k] == before[k]);
                            }
                        }
                    },
                }
            } else {
                assert(seq![ev] =~= Seq::<(Seq<char>, Seq<char>, Seq<char>)>::empty().push(ev));
            }
        }
    }
}

/// Classify repositories into organizations and personal repos: the
/// organizations are the member organizations and the owners of
/// organization-owned repositories (each once up to ASCII case), sorted;
/// each repository goes under the first of them equal to its owner up to
/// ASCII case, or else among the personal repositories.
pub fn classify_repos(repos: Vec<RawRepo>, member_orgs: Vec<String>) -> (c: Classification)
    ensures
        sorted(views(c.orgs@)),
        exists|pre: Seq<String>|
            #![trigger pre.to_multiset()]
            views(pre) == collected_orgs(views(member_orgs@), repos@) && c.orgs@.to_multiset()
                == pre.to_multiset(),
        c.personal_repos@.map_values(|e: RepoRef| ref_view(e)) == repos@.filter(
            personal_repo(views(c.orgs@)),
        ).map_values(|r: RawRepo| entry_view(r)),
        keys_unique(c.org_repos@),
        forall|l: Seq<char>|
            #![trigger group_of(c.org_repos@, l)]
            group_of(c.org_repos@, l) == org_group(repos@, views(c.orgs@), l),
{
    let ghost all = repos@;
    let ghost member = views(member_orgs@);
    let mut org_set = member_orgs;
    let mut i: usize = 0;
    while i < repos.len()
        invariant
            i <= repos.len(),
            repos@ == all,
            views(org_set@) == collected_orgs(member, all.take(i as int)),
        decreases repos.len() - i,
    {
        assert(all.take(i + 1).drop_last() =~= all.take(i as int));
        assert(all.take(i + 1).last() == all[i as int]);
        match &repos[i].owner {
            Some(owner) => {
                if str_eq(owner.owner_type.as_str(), "Organization") && !any_ci(&org_set, owner.login.as_str()) {
                    org_set.push(owner.login.clone());
                    assert(views(org_set@) =~= collected_orgs(member, all.take(i as int)).push(owner.login@));
                }
            },
            None => {},
        }
        i = i + 1;
    }
    assert(all.take(all.len() as int) =~= all);
    let ghost pre = org_set@;
    let orgs = sort_strings(org_set);
    let ghost ov = views(orgs@);
    let mut personal: Vec<RepoRef> = Vec::new();
    let mut groups: Vec<(String, Vec<RepoRef>)> = Vec::new();
    proof {
        reveal(Seq::filter);
        assert(all.take(0) =~= Seq::<RawRepo>::empty());
    }
    for r in it: repos.into_iter()
        invariant
            it.seq() == all,
            ov == views(orgs@),
            personal@.map_values(|e: RepoRef| ref_view(e)) == all.take(it.index() as int).filter(
                personal_repo(ov),
            ).map_values(|r: RawRepo| entry_view(r)),
            keys_unique(groups@),
            forall|l: Seq<char>|
                #![trigger group_of(groups@, l)]
                group_of(groups@, l) == org_group(all.take(it.index() as int), ov, l),
    {
        let ghost k = it.index();
        let ghost prev = all.take(k as int);
        let ghost rr = r;
        assert(all[k as int] == r);
        assert(all.take(k + 1) =~= prev.push(r));
        let owner_login = match r.owner {
            Some(o) => o.login,
            None => String::new(),
        };
        let full = match r.full_name {
            Some(f) => f,
            None => {
                let with_slash = concat_str(owner_login.as_str(), "/");
                concat_str(with_slash.as_str(), r.name.as_str())
            },
        };
        let entry = RepoRef { owner: owner_login.clone(), repo: r.name, full };
        assert(ref_view(entry) == entry_view(rr));
        let ghost pv = personal@;
        let ghost og = groups@;
        match find_ci(&orgs, owner_login.as_str()) {
            Some(j) => {
                add_to_group(&mut groups, &orgs[j], entry);
            },
            None => {
                personal.push(entry);
            },
        }
        proof {
            prev.lemma_filter_push(rr, personal_repo(ov));
            let fp = prev.filter(personal_repo(ov));
            assert(fp.push(rr).map_values(|r: RawRepo| entry_view(r)) =~= fp.map_values(
                |r: RawRepo| entry_view(r),
            ).push(entry_view(rr)));
            if canonical_org(ov, raw_owner_login(rr)) is None {
                assert(personal@.map_values(|e: RepoRef| ref_view(e)) =~= pv.map_values(
                    |e: RepoRef| ref_view(e),
                ).push(ref_view(entry)));
            }
        }
        assert forall|l: Seq<char>|
            #![trigger group_of(groups@, l)]
            group_of(groups@, l) == org_group(prev.push(rr), ov, l) by {
            prev.lemma_filter_push(rr, in_org(ov, l));
            let f = prev.filter(in_org(ov, l));
            assert(f.push(rr).map_values(|r: RawRepo| entry_view(r)) =~= f.map_values(
                |r: RawRepo| entry_view(r),
            ).push(entry_view(rr)));
            if f.len() == 0 {
                assert(f.map_values(|r: RawRepo| entry_view(r)) =~= Seq::<(Seq<char>, Seq<char>, Seq<char>)>::empty());
            }
        }
    }
    assert(all.take(all.len() as int) =~= all);
    Classification { orgs, personal_repos: personal, org_repos: groups }
}


// ── Page context ────────────────────────────────────────────────────

/// The page the extension was started on.
#[derive(Debug, Clone)]
pub struct PageCtx {
    /// Page type (`repo`, `repo-sub`, `pr`, ...).
    pub page_type: String,
    /// Repository owner.
    pub owner: String,
    /// Repository name.
    pub repo: String,
    /// Pull request number (0 where none).
    pub pr_number: u64,
}

/// The context to start with: none where the owner or the repository is
/// missing (empty).
pub fn page_context(page_type: String, owner: String, repo: String, pr_number: u64) -> (r: Option<PageCtx>)
    ensures
        (owner@.len() == 0 || repo@.len() == 0) ==> r is None,
        (owner@.len() > 0 && repo@.len() > 0) ==> (r matches Some(c) && c.page_type == page_type
            && c.owner == owner && c.repo == repo && c.pr_number == pr_number),
{
    if owner.unicode_len() == 0 || repo.unicode_len() == 0 {
        None
    } else {
        Some(PageCtx { page_type, owner, repo, pr_number })
    }
}

/// What the extension shows on a page.
#[derive(Debug, Clone, Copy, PartialEq, Eq)]
pub enum PageView {
    /// The board of the repository.
    Dashboard,
    /// The board and the issue linker of the pull request.
    DashboardWithLinker,
    /// Nothing it knows.
    Unknown,
}

/// The view of a page type: the board on `repo` and `repo-sub` pages, the
/// board and the linker on `pr` pages.
pub open spec fn view_of(page_type: Seq<char>) -> PageView {
    if page_type == "repo"@ || page_type == "repo-sub"@ {
        PageView::Dashboard
    } else if page_type == "pr"@ {
        PageView::DashboardWithLinker
    } else {
        PageView::Unknown
    }
}

/// Dispatch on the page type.
pub fn page_view(page_type: &str) -> (v: PageView)
    ensures
        v == view_of(page_type@),
{
    if str_eq(page_type, "repo") || str_eq(page_type, "repo-sub") {
        PageView::Dashboard
    } else if str_eq(page_type, "pr") {
        PageView::DashboardWithLinker
    } else {
        PageView::Unknown
    }
}

// ── Background replies ──────────────────────────────────────────────

/// The outcome of a background reply: success where it says `ok`, else its
/// error message, or `unknown error` where it gives none.
pub fn reply_outcome(ok: bool, error: Option<String>) -> (r: Result<(), String>)
    ensures
        ok ==> r is Ok,
        !ok ==> (r matches Err(e) && e@ == match error {
            Some(m) => m@,
            None => "unknown error"@,
        }),
{
    if ok {
        Ok(())
    } else {
        match error {
            Some(m) => Err(m),
            None => Err(copy_str("unknown error")),
        }
    }
}

/// Whether a token is configured: the reply says `ok` and `hasToken`.
pub fn token_configured(ok: bool, has_token: bool) -> (b: bool)
    ensures
        b == (ok && has_token),
{
    ok && has_token
}

// ── Issue linker ────────────────────────────────────────────────────

/// The text holds something other than white space.
pub open spec fn has_content(s: Seq<char>) -> bool {
    exists|i: int| 0 <= i < s.len() && !unicode_whitespace(#[trigger] s[i])
}

/// The search the linker runs for `query` in repository `target` (as
/// `owner/repo`): none for a blank query.
pub fn linker_search_query(target: &str, query: &str) -> (r: Option<String>)
    ensures
        !has_content(query@) ==> r is None,
        has_content(query@) ==> (r matches Some(q) && q@ == "repo:"@ + target@ + " is:issue "@ + query@),
{
    let cs = crate::text::chars_of(query);
    let mut i: usize = 0;
    while i < cs.len()
        invariant
            i <= cs.len(),
            cs@ == query@,
            forall|k: int| 0 <= k < i ==> unicode_whitespace(#[trigger] query@[k]),
        decreases cs.len() - i,
    {
        if !is_whitespace(cs[i]) {
            let a = concat_str("repo:", target);
            let b = concat_str(a.as_str(), " is:issue ");
            let q = concat_str(b.as_str(), query);
            return Some(q);
        }
        i = i + 1;
    }
    None
}

/// An issue chosen in the linker.
#[derive(Debug, Clone)]
pub struct SelectedIssue {
    /// Full repo identifier (owner/repo).
    pub repo: String,
    /// Issue number.
    pub number: u64,
    /// Issue title.
    pub title: String,
}

/// The reference line of a chosen issue: `Issue: owner/repo#N`.
pub open spec fn issue_line(s: SelectedIssue) -> Seq<char> {
    "Issue: "@ + s.repo@ + "#"@ + decimal(s.number as nat)
}

/// The PR body with the chosen issues' lines appended: under the existing
/// `## Issues` section where the body has one, else under a new one.
pub open spec fn linked_body(body: Seq<char>, selected: Seq<SelectedIssue>) -> Seq<char> {
    let lines = join_seqs(selected.map_values(|s: SelectedIssue| issue_line(s)), "\n"@);
    if contains_seq(body, "## Issues"@) {
        body + "\n"@ + lines
    } else {
        body + "\n\n## Issues\n"@ + lines
    }
}

/// The new PR body with `Issue:` lines for the chosen issues.
pub fn pr_body_with_issues(body: &str, selected: &Vec<SelectedIssue>) -> (out: String)
    ensures
        out@ == linked_body(body@, selected@),
{
    let mut lines: Vec<String> = Vec::new();
    let mut i: usize = 0;
    while i < selected.len()
        invariant
            i <= selected.len(),
            views(lines@) == selected@.take(i as int).map_values(|s: SelectedIssue| issue_line(s)),
        decreases selected.len() - i,
    {
        let a = concat_str("Issue: ", selected[i].repo.as_str());
        let b = concat_str(a.as_str(), "#");
        let n = u64_to_decimal(selected[i].number);
        let line = concat_str(b.as_str(), n.as_str());
        let ghost before = lines@;
        lines.push(line);
        assert(views(lines@) =~= views(before).push(line@));
        assert(selected@.take(i + 1).map_values(|s: SelectedIssue| issue_line(s)) =~= selected@.take(
            i as int,
        ).map_values(|s: SelectedIssue| issue_line(s)).push(issue_line(selected@[i as int])));
        i = i + 1;
    }
    assert(selected@.take(selected.len() as int) =~= selected@);
    let joined = join(&lines, "\n");
    if contains_str(body, "## Issues") {
        let a = concat_str(body, "\n");
        concat_str(a.as_str(), joined.as_str())
    } else {
        let a = concat_str(body, "\n\n## Issues\n");
        concat_str(a.as_str(), joined.as_str())
    }
}

/// A search hit: an issue or a pull request.
#[derive(Debug, Clone)]
pub struct SearchItem {
    /// Number.
    pub number: u64,
    /// Title.
    pub title: String,
    /// Whether the hit is a pull request.
    pub is_pull_request: bool,
}

/// The issues among search hits, as (number, title), in order.
pub open spec fn issue_hits(items: Seq<SearchItem>) -> Seq<(u64, String)>
    decreases items.len(),
{
    if items.len() == 0 {
        Seq::empty()
    } else {
        let r = issue_hits(items.drop_last());
        if items.last().is_pull_request {
            r
        } else {
            r.push((items.last().number, items.last().title))
        }
    }
}

/// The search results the linker lists: the hits that are issues, not
/// pull requests.
pub fn search_results(items: Vec<SearchItem>) -> (out: Vec<(u64, String)>)
    ensures
        out@ == issue_hits(items@),
{
    let ghost all = items@;
    let mut out: Vec<(u64, String)> = Vec::new();
    for item in it: items.into_iter()
        invariant
            it.seq() == all,
            out@ == issue_hits(all.take(it.index() as int)),
    {
        let ghost k = it.index();
        assert(all[k as int] == item);
        assert(all.take(k + 1).drop_last() =~= all.take(k as int));
        assert(all.take(k + 1).last() == item);
        if !item.is_pull_request {
            out.push((item.number, item.title));
        }
    }
    assert(all.take(all.len() as int) =~= all);
    out
}

} // verus!
