//! What the board, the sidebar and the detail panel show: the columns and
//! the cards in each, assignee suggestions, the filter built from the
//! filter bar, the order of repositories and organizations in the sidebar,
//! and the labels of CI states, review badges and times.
use vstd::prelude::*;

use crate::kardhub::filtering::{filter_accepts, matches_filter, BoardFilter};
use crate::kardhub::models::{Card, CardSource, CiStatus, IssueState, Priority, Review, ReviewState, User};
use crate::kardhub::session::{priority_rank, RepoEntry};
use crate::order::{lemma_lex_irreflexive, lemma_lex_total, lemma_lex_transitive, lex_lt, str_lt};
use crate::stable_sort::{sort_by_key, stable_sorted, SortKey};
use crate::text::{
    concat_str, contains_seq, contains_str, copy_str, decimal, str_eq, to_lowercase, u64_to_decimal,
    unicode_lowercase,
};

verus! {

// ── Columns ─────────────────────────────────────────────────────────

/// The columns of the board in display order, as (emoji, name).
pub open spec fn board_column_list() -> Seq<(Seq<char>, Seq<char>)> {
    seq![
        ("🧊"@, "Icebox"@),
        ("⏳"@, "Prebacklog"@),
        ("📥"@, "Backlog"@),
        ("🔙"@, "Pending"@),
        ("🚧"@, "In Progress"@),
        ("👀"@, "Code review"@),
        ("⏳"@, "QA Backlog"@),
        ("🔍"@, "QA Review"@),
        ("☑️"@, "Ready for STG"@),
        ("✅"@, "Ready for deploy"@),
        ("📦"@, "In Release"@),
        ("🚪"@, "Closed"@),
    ]
}

/// All columns on the board in display order, as (emoji, name).
pub fn board_columns() -> (cols: Vec<(&'static str, &'static str)>)
    ensures
        cols@.len() == board_column_list().len(),
        forall|i: int|
            0 <= i < cols@.len() ==> ((#[trigger] cols@[i]).0@, cols@[i].1@) == board_column_list()[i],
{
    let cols = vec![
        ("🧊", "Icebox"),
        ("⏳", "Prebacklog"),
        ("📥", "Backlog"),
        ("🔙", "Pending"),
        ("🚧", "In Progress"),
        ("👀", "Code review"),
        ("⏳", "QA Backlog"),
        ("🔍", "QA Review"),
        ("☑️", "Ready for STG"),
        ("✅", "Ready for deploy"),
        ("📦", "In Release"),
        ("🚪", "Closed"),
    ];
    assert forall|i: int| 0 <= i < cols@.len() implies ((#[trigger] cols@[i]).0@, cols@[i].1@)
        == board_column_list()[i] by {}
    cols
}

/// The card is backed by a closed issue.
pub open spec fn card_closed(card: Card) -> bool {
    card.source matches CardSource::Issue(i) && i.state == IssueState::Closed
}

/// Check if a card is from a closed issue.
pub fn is_closed(card: &Card) -> (b: bool)
    ensures
        b == card_closed(*card),
{
    match &card.source {
        CardSource::Issue(issue) => match issue.state {
            IssueState::Closed => true,
            IssueState::Open => false,
        },
        CardSource::PullRequest(_) => false,
    }
}

/// A card of the board, by its position, with the priority it is
/// ordered by.
#[derive(Debug, Clone, Copy, PartialEq, Eq)]
pub struct PlacedCard {
    /// Position of the card in the board's card list.
    pub index: usize,
    /// The card's priority.
    pub priority: Option<Priority>,
}

impl SortKey for PlacedCard {
    open spec fn key_le(self, other: Self) -> bool {
        priority_rank(self.priority) <= priority_rank(other.priority)
    }

    proof fn lemma_key_total(a: Self, b: Self) {
    }

    proof fn lemma_key_transitive(a: Self, b: Self, c: Self) {
    }

    fn key_le_exec(&self, other: &Self) -> (r: bool) {
        let a: u16 = match self.priority {
            Some(q) => q.0 as u16 + 1,
            None => 0,
        };
        let b: u16 = match other.priority {
            Some(q) => q.0 as u16 + 1,
            None => 0,
        };
        a <= b
    }
}

/// Whether a card shows in the column `name` under `filter`: the `Closed`
/// column shows every closed issue; another column shows the visible cards
/// mapped to it that are not closed issues. Either way the filter must
/// accept the card.
pub open spec fn shows_in(card: Card, name: Seq<char>, filter: BoardFilter) -> bool {
    if name == "Closed"@ {
        card_closed(card) && filter_accepts(card, filter)
    } else {
        !card.hidden && card.column.name@ == name && !card_closed(card) && filter_accepts(card, filter)
    }
}

/// The cards of the column `name`, by position, in card order.
pub open spec fn column_candidates(cards: Seq<Card>, name: Seq<char>, filter: BoardFilter) -> Seq<PlacedCard>
    decreases cards.len(),
{
    if cards.len() == 0 {
        Seq::empty()
    } else {
        let r = column_candidates(cards.drop_last(), name, filter);
        if shows_in(cards.last(), name, filter) {
            r.push(PlacedCard { index: (cards.len() - 1) as usize, priority: cards.last().priority })
        } else {
            r
        }
    }
}

/// Each candidate of a column points at a card of the board and carries
/// that card's priority.
proof fn lemma_candidates_point_at_cards(cards: Seq<Card>, name: Seq<char>, filter: BoardFilter)
    requires
        cards.len() <= usize::MAX,
    ensures
        forall|p: PlacedCard|
            #![trigger column_candidates(cards, name, filter).contains(p)]
            column_candidates(cards, name, filter).contains(p) ==> p.index < cards.len()
                && p.priority == cards[p.index as int].priority,
    decreases cards.len(),
{
    if cards.len() > 0 {
        let d = cards.drop_last();
        lemma_candidates_point_at_cards(d, name, filter);
        let r = column_candidates(d, name, filter);
        assert forall|p: PlacedCard|
            #![trigger column_candidates(cards, name, filter).contains(p)]
            column_candidates(cards, name, filter).contains(p) implies p.index < cards.len()
                && p.priority == cards[p.index as int].priority by {
            let c = column_candidates(cards, name, filter);
            let k = choose|k: int| 0 <= k < c.len() && c[k] == p;
            if k < r.len() {
                assert(c[k] == r[k]);
                assert(r.contains(p));
                assert(d[p.index as int] == cards[p.index as int]);
            } else {
                assert(p.index == cards.len() - 1);
            }
        }
    }
}

/// A column lists its cards by priority: along the list no card without
/// a priority comes after one with a priority, and among cards with
/// priorities the numbers never go down (`#1` before `#2` … before `#6`);
/// each listed position is a card of the board, carrying that card's
/// priority.
pub proof fn law_column_cards_by_priority(cards: Seq<Card>, name: Seq<char>, filter: BoardFilter)
    requires
        cards.len() <= usize::MAX,
    ensures
        forall|i: int, j: int|
            0 <= i < j < stable_sorted(column_candidates(cards, name, filter)).len() ==> {
                let a = (#[trigger] stable_sorted(column_candidates(cards, name, filter))[i]).priority;
                let b = (#[trigger] stable_sorted(column_candidates(cards, name, filter))[j]).priority;
                &&& !(a is Some && b is None)
                &&& (a is Some && b is Some ==> a.unwrap().0 <= b.unwrap().0)
            },
        forall|i: int|
            0 <= i < stable_sorted(column_candidates(cards, name, filter)).len() ==> {
                let p = #[trigger] stable_sorted(column_candidates(cards, name, filter))[i];
                p.index < cards.len() && p.priority == cards[p.index as int].priority
            },
{
    broadcast use vstd::seq_lib::group_to_multiset_ensures;

    let cand = column_candidates(cards, name, filter);
    let sorted = stable_sorted(cand);
    crate::stable_sort::law_stable_sorted(cand);
    lemma_candidates_point_at_cards(cards, name, filter);
    assert forall|i: int, j: int| 0 <= i < j < sorted.len() implies {
        let a = (#[trigger] sorted[i]).priority;
        let b = (#[trigger] sorted[j]).priority;
        &&& !(a is Some && b is None)
        &&& (a is Some && b is Some ==> a.unwrap().0 <= b.unwrap().0)
    } by {
        assert(sorted[i].key_le(sorted[j]));
    }
    assert forall|i: int| 0 <= i < sorted.len() implies {
        let p = #[trigger] sorted[i];
        p.index < cards.len() && p.priority == cards[p.index as int].priority
    } by {
        assert(sorted.contains(sorted[i]));
        assert(sorted.to_multiset().count(sorted[i]) > 0);
        assert(cand.contains(sorted[i]));
    }
}

/// The positions of the cards the column `name` shows under `filter`,
/// ordered by priority (stable, so cards of equal priority keep their order).
pub fn column_cards(cards: &Vec<Card>, name: &str, filter: &BoardFilter) -> (out: Vec<usize>)
    ensures
        out@.len() == column_candidates(cards@, name@, *filter).len(),
        forall|k: int|
            0 <= k < out@.len() ==> #[trigger] out@[k] == stable_sorted(
                column_candidates(cards@, name@, *filter),
            )[k].index,
        forall|k: int| 0 <= k < out@.len() ==> #[trigger] out@[k] < cards@.len(),
        forall|i: int, j: int|
            0 <= i < j < out@.len() ==> {
                let a = cards@[#[trigger] out@[i] as int].priority;
                let b = cards@[#[trigger] out@[j] as int].priority;
                &&& !(a is Some && b is None)
                &&& (a is Some && b is Some ==> a.unwrap().0 <= b.unwrap().0)
            },
{
    let closed_col = str_eq(name, "Closed");
    let mut placed: Vec<PlacedCard> = Vec::new();
    let mut i: usize = 0;
    while i < cards.len()
        invariant
            i <= cards.len(),
            closed_col == (name@ == "Closed"@),
            placed@ == column_candidates(cards@.take(i as int), name@, *filter),
        decreases cards.len() - i,
    {
        assert(cards@.take(i + 1).drop_last() =~= cards@.take(i as int));
        assert(cards@.take(i + 1).last() == cards@[i as int]);
        let card = &cards[i];
        let shows = if closed_col {
            is_closed(card) && matches_filter(card, filter)
        } else {
            !card.hidden && str_eq(card.column.name.as_str(), name) && !is_closed(card)
                && matches_filter(card, filter)
        };
        if shows {
            placed.push(PlacedCard { index: i, priority: card.priority });
        }
        i = i + 1;
    }
    assert(cards@.take(cards.len() as int) =~= cards@);
    let ghost cand = placed@;
    let sorted = sort_by_key(placed);
    proof {
        crate::stable_sort::law_stable_sorted(cand);
    }
    let mut out: Vec<usize> = Vec::new();
    let mut j: usize = 0;
    while j < sorted.len()
        invariant
            j <= sorted.len(),
            sorted@ == stable_sorted(cand),
            out@.len() == j,
            forall|k: int| 0 <= k < j ==> #[trigger] out@[k] == sorted@[k].index,
        decreases sorted.len() - j,
    {
        out.push(sorted[j].index);
        j = j + 1;
    }
    proof {
        law_column_cards_by_priority(cards@, name@, *filter);
        let srt = stable_sorted(column_candidates(cards@, name@, *filter));
        assert forall|k: int| 0 <= k < out@.len() implies #[trigger] out@[k] < cards@.len() by {
            assert(out@[k] == srt[k].index);
        }
        assert forall|i: int, j: int| 0 <= i < j < out@.len() implies {
            let a = cards@[#[trigger] out@[i] as int].priority;
            let b = cards@[#[trigger] out@[j] as int].priority;
            &&& !(a is Some && b is None)
            &&& (a is Some && b is Some ==> a.unwrap().0 <= b.unwrap().0)
        } by {
            assert(out@[i] == srt[i].index && out@[j] == srt[j].index);
            assert(srt[i].priority == cards@[srt[i].index as int].priority);
            assert(srt[j].priority == cards@[srt[j].index as int].priority);
        }
    }
    out
}

// ── Filter bar ──────────────────────────────────────────────────────

/// The logins of the members whose lower-cased login holds the lower-cased
/// input, in member order.
pub open spec fn login_matches(members: Seq<User>, input: Seq<char>) -> Seq<String>
    decreases members.len(),
{
    if members.len() == 0 {
        Seq::empty()
    } else {
        let r = login_matches(members.drop_last(), input);
        if contains_seq(unicode_lowercase(members.last().login@), unicode_lowercase(input)) {
            r.push(members.last().login)
        } else {
            r
        }
    }
}

/// The suggestions the assignee box offers: while it is shown and the input
/// is not empty once lower-cased, the first six matching logins.
pub open spec fn suggestions_for(members: Seq<User>, input: Seq<char>, show: bool) -> Seq<String> {
    if show && unicode_lowercase(input).len() > 0 {
        let m = login_matches(members, input);
        if m.len() <= 6 {
            m
        } else {
            m.take(6)
        }
    } else {
        Seq::empty()
    }
}

/// Compute suggestions from members matching the current input.
pub fn assignee_suggestions(members: &Vec<User>, input: &str, show: bool) -> (out: Vec<String>)
    ensures
        out@ == suggestions_for(members@, input@, show),
{
    let input_lower = to_lowercase(input);
    if !(show && input_lower.unicode_len() > 0) {
        proof {
            assert(input_lower@.len() == unicode_lowercase(input@).len());
        }
        return Vec::new();
    }
    let mut out: Vec<String> = Vec::new();
    let mut i: usize = 0;
    while i < members.len() && out.len() < 6
        invariant
            i <= members.len(),
            input_lower@ == unicode_lowercase(input@),
            out@ == login_matches(members@.take(i as int), input@),
            out@.len() <= 6,
        decreases members.len() - i,
    {
        assert(members@.take(i + 1).drop_last() =~= members@.take(i as int));
        assert(members@.take(i + 1).last() == members@[i as int]);
        let login_lower = to_lowercase(members[i].login.as_str());
        if contains_str(login_lower.as_str(), input_lower.as_str()) {
            out.push(members[i].login.clone());
        }
        i = i + 1;
    }
    proof {
        lemma_login_matches_prefix(members@, input@, i as int);
        if i == members.len() {
            assert(members@.take(i as int) =~= members@);
        }
    }
    out
}

/// Matching more members only adds logins after those already found.
proof fn lemma_login_matches_prefix(members: Seq<User>, input: Seq<char>, n: int)
    requires
        0 <= n <= members.len(),
    ensures
        login_matches(members, input).len() >= login_matches(members.take(n), input).len(),
        login_matches(members, input).take(login_matches(members.take(n), input).len() as int)
            == login_matches(members.take(n), input),
    decreases members.len() - n,
{
    let a = login_matches(members.take(n), input);
    if n < members.len() {
        lemma_login_matches_prefix(members, input, n + 1);
        assert(members.take(n + 1).drop_last() =~= members.take(n));
        let b = login_matches(members.take(n + 1), input);
        let c = login_matches(members, input);
        assert(b.take(a.len() as int) =~= a);
        assert(c.take(a.len() as int) =~= b.take(b.len() as int).take(a.len() as int));
    } else {
        assert(members.take(n) =~= members);
        assert(a.take(a.len() as int) =~= a);
    }
}

/// `s` without its leading `#` characters (`trim_start_matches('#')`).
pub open spec fn without_hashes(s: Seq<char>) -> Seq<char>
    decreases s.len(),
{
    if s.len() > 0 && s[0] == '#' {
        without_hashes(s.drop_first())
    } else {
        s
    }
}

/// The filter the filter bar describes: the chosen assignee; the text, if
/// any; the number without leading `#`, if anything is left of it.
pub open spec fn filter_from(assignee: Option<String>, text: Seq<char>, number: Seq<char>) -> (
    Option<String>,
    Option<Seq<char>>,
    Option<Seq<char>>,
) {
    (
        assignee,
        if text.len() == 0 {
            None
        } else {
            Some(text)
        },
        if without_hashes(number).len() == 0 {
            None
        } else {
            Some(without_hashes(number))
        },
    )
}

/// The view of a filter's fields.
pub open spec fn filter_fields(f: BoardFilter) -> (Option<String>, Option<Seq<char>>, Option<Seq<char>>) {
    (
        f.assignee,
        match f.text {
            Some(t) => Some(t@),
            None => None,
        },
        match f.number {
            Some(n) => Some(n@),
            None => None,
        },
    )
}

/// Build the active filter from the filter bar's values.
pub fn board_filter_from(assignee: Option<String>, text: String, number: &str) -> (f: BoardFilter)
    ensures
        filter_fields(f) == filter_from(assignee, text@, number@),
{
    let cs = crate::text::chars_of(number);
    let mut start: usize = 0;
    assert(number@.skip(0) =~= number@);
    while start < cs.len() && cs[start] == '#'
        invariant
            start <= cs.len(),
            cs@ == number@,
            without_hashes(number@) == without_hashes(number@.skip(start as int)),
        decreases cs.len() - start,
    {
        assert(number@.skip(start as int).drop_first() =~= number@.skip(start + 1));
        start = start + 1;
    }
    assert(number@.skip(start as int).len() == 0 || number@.skip(start as int)[0] != '#');
    let mut rest = String::new();
    let mut k: usize = start;
    while k < cs.len()
        invariant
            start <= k <= cs.len(),
            cs@ == number@,
            rest@ == number@.subrange(start as int, k as int),
        decreases cs.len() - k,
    {
        crate::text::push_char(&mut rest, cs[k]);
        assert(number@.subrange(start as int, k + 1) =~= number@.subrange(start as int, k as int).push(
            cs@[k as int],
        ));
        k = k + 1;
    }
    assert(rest@ =~= number@.skip(start as int));
    let text_field = if text.unicode_len() == 0 {
        None
    } else {
        Some(text)
    };
    let number_field = if rest.unicode_len() == 0 {
        None
    } else {
        Some(rest)
    };
    BoardFilter { assignee, text: text_field, number: number_field }
}

// ── Detail panel ────────────────────────────────────────────────────

/// Map CI status to CSS class.
pub fn ci_class(status: CiStatus) -> (s: &'static str)
    ensures
        s@ == match status {
            CiStatus::Success => "ci-success"@,
            CiStatus::Failure => "ci-failure"@,
            CiStatus::Pending => "ci-pending"@,
        },
{
    match status {
        CiStatus::Success => "ci-success",
        CiStatus::Failure => "ci-failure",
        CiStatus::Pending => "ci-pending",
    }
}

/// Map CI status to display label.
pub fn ci_label(status: CiStatus) -> (s: &'static str)
    ensures
        s@ == match status {
            CiStatus::Success => "✅ Passing"@,
            CiStatus::Failure => "❌ Failed"@,
            CiStatus::Pending => "⏳ Pending"@,
        },
{
    match status {
        CiStatus::Success => "✅ Passing",
        CiStatus::Failure => "❌ Failed",
        CiStatus::Pending => "⏳ Pending",
    }
}

/// The position of the first member with the login `login`.
pub open spec fn member_position(members: Seq<User>, login: Seq<char>) -> Option<int>
    decreases members.len(),
{
    if members.len() == 0 {
        None
    } else {
        match member_position(members.drop_last(), login) {
            Some(i) => Some(i),
            None => if members.last().login@ == login {
                Some(members.len() - 1)
            } else {
                None
            },
        }
    }
}

proof fn lemma_member_position_prefix(members: Seq<User>, login: Seq<char>, n: int)
    requires
        0 <= n <= members.len(),
        member_position(members.take(n), login) is Some,
    ensures
        member_position(members, login) == member_position(members.take(n), login),
    decreases members.len() - n,
{
    if n < members.len() {
        assert(members.take(n + 1).drop_last() =~= members.take(n));
        lemma_member_position_prefix(members, login, n + 1);
    } else {
        assert(members.take(n) =~= members);
    }
}

/// Resolve a login string to a `User` from the members list: the first
/// member with that login, else a user with that login and no avatar.
pub fn resolve_login(login: &str, members: &Vec<User>) -> (u: User)
    ensures
        match member_position(members@, login@) {
            Some(i) => u == members@[i],
            None => u.login@ == login@ && u.avatar_url@.len() == 0,
        },
{
    let mut i: usize = 0;
    while i < members.len()
        invariant
            i <= members.len(),
            member_position(members@.take(i as int), login@) is None,
        decreases members.len() - i,
    {
        assert(members@.take(i + 1).drop_last() =~= members@.take(i as int));
        if str_eq(members[i].login.as_str(), login) {
            proof {
                assert(members@.take(i + 1).last() == members@[i as int]);
                lemma_member_position_prefix(members@, login@, i + 1);
            }
            return User { login: members[i].login.clone(), avatar_url: members[i].avatar_url.clone() };
        }
        i = i + 1;
    }
    assert(members@.take(members.len() as int) =~= members@);
    User { login: copy_str(login), avatar_url: String::new() }
}

/// The state of the last review by `login`, if any.
pub open spec fn last_review_state(reviews: Seq<Review>, login: Seq<char>) -> Option<ReviewState>
    decreases reviews.len(),
{
    if reviews.len() == 0 {
        None
    } else if reviews.last().user.login@ == login {
        Some(reviews.last().state)
    } else {
        last_review_state(reviews.drop_last(), login)
    }
}

/// The badge shown beside a user asked for a review.
#[derive(Debug, Clone, Copy, PartialEq, Eq)]
pub enum ReviewBadge {
    /// Their last review approved.
    Approved,
    /// Their last review requested changes.
    ChangesRequested,
    /// Their last review only commented.
    Commented,
    /// No verdict yet (no review, or a pending or dismissed one).
    Pending,
}

/// The badge for the state of a user's last review.
pub open spec fn badge_for(state: Option<ReviewState>) -> ReviewBadge {
    match state {
        Some(ReviewState::Approved) => ReviewBadge::Approved,
        Some(ReviewState::ChangesRequested) => ReviewBadge::ChangesRequested,
        Some(ReviewState::Commented) => ReviewBadge::Commented,
        _ => ReviewBadge::Pending,
    }
}

/// The badge of the user `login`, from the last review that user submitted.
pub fn review_badge(login: &str, reviews: &Vec<Review>) -> (b: ReviewBadge)
    ensures
        b == badge_for(last_review_state(reviews@, login@)),
{
    let mut found: Option<ReviewState> = None;
    let mut i: usize = reviews.len();
    assert(reviews@.take(i as int) =~= reviews@);
    while i > 0 && found.is_none()
        invariant
            i <= reviews.len(),
            found is None ==> last_review_state(reviews@, login@) == last_review_state(
                reviews@.take(i as int),
                login@,
            ),
            found matches Some(s) ==> last_review_state(reviews@, login@) == Some(s),
        decreases i,
    {
        assert(reviews@.take(i as int).drop_last() =~= reviews@.take(i - 1));
        assert(reviews@.take(i as int).last() == reviews@[i - 1]);
        if str_eq(reviews[i - 1].user.login.as_str(), login) {
            found = Some(reviews[i - 1].state);
        }
        i = i - 1;
    }
    proof {
        if found is None && i == 0 {
            assert(reviews@.take(0) =~= Seq::<Review>::empty());
        }
    }
    match found {
        Some(ReviewState::Approved) => ReviewBadge::Approved,
        Some(ReviewState::ChangesRequested) => ReviewBadge::ChangesRequested,
        Some(ReviewState::Commented) => ReviewBadge::Commented,
        _ => ReviewBadge::Pending,
    }
}

/// The relative form of an elapsed time of `secs` seconds: `just now`
/// under a minute, then whole minutes, hours (under a day), days (under 30
/// days), 30-day months (under 12) and 365-day years.
pub open spec fn relative_label(secs: int) -> Seq<char> {
    if secs < 60 {
        "just now"@
    } else if secs / 60 < 60 {
        decimal((secs / 60) as nat) + "m ago"@
    } else if secs / 3600 < 24 {
        decimal((secs / 3600) as nat) + "h ago"@
    } else if secs / 86400 < 30 {
        decimal((secs / 86400) as nat) + "d ago"@
    } else if secs / 86400 / 30 < 12 {
        decimal((secs / 86400 / 30) as nat) + "mo ago"@
    } else {
        decimal((secs / 86400 / 365) as nat) + "y ago"@
    }
}

/// Format an elapsed time, in seconds, as a relative time string
/// (e.g. "2h ago", "3d ago").
pub fn relative_time(elapsed_secs: i64) -> (s: String)
    ensures
        s@ == relative_label(elapsed_secs as int),
{
    if elapsed_secs < 60 {
        return copy_str("just now");
    }
    let secs = elapsed_secs as u64;
    let minutes = secs / 60;
    if minutes < 60 {
        let n = u64_to_decimal(minutes);
        return concat_str(n.as_str(), "m ago");
    }
    let hours = secs / 3600;
    if hours < 24 {
        let n = u64_to_decimal(hours);
        return concat_str(n.as_str(), "h ago");
    }
    let days = secs / 86400;
    if days < 30 {
        let n = u64_to_decimal(days);
        return concat_str(n.as_str(), "d ago");
    }
    let months = days / 30;
    if months < 12 {
        let n = u64_to_decimal(months);
        return concat_str(n.as_str(), "mo ago");
    }
    let years = days / 365;
    let n = u64_to_decimal(years);
    concat_str(n.as_str(), "y ago")
}

// ── Sidebar ─────────────────────────────────────────────────────────

/// A repository of the sidebar, by position, with what it is ordered by.
#[derive(Debug, Clone)]
pub struct SidebarSlot {
    /// Position of the repository in the sidebar's list.
    pub index: usize,
    /// Its cached card count.
    pub count: usize,
    /// Its name, lower-cased.
    pub lower: String,
}

impl SortKey for SidebarSlot {
    /// Repositories with cards come first, more cards first; then those
    /// without, by lower-cased name.
    open spec fn key_le(self, other: Self) -> bool {
        if self.count > 0 && other.count > 0 {
            self.count >= other.count
        } else if self.count > 0 {
            true
        } else if other.count > 0 {
            false
        } else {
            !lex_lt(other.lower@, self.lower@)
        }
    }

    proof fn lemma_key_total(a: Self, b: Self) {
        lemma_lex_total(a.lower@, b.lower@);
        lemma_lex_irreflexive(a.lower@);
    }

    proof fn lemma_key_transitive(a: Self, b: Self, c: Self) {
        if a.count == 0 && b.count == 0 && c.count == 0 {
            lemma_lex_total(a.lower@, b.lower@);
            if lex_lt(c.lower@, a.lower@) {
                if a.lower@ == b.lower@ {
                } else if lex_lt(a.lower@, b.lower@) {
                    lemma_lex_transitive(c.lower@, a.lower@, b.lower@);
                }
            }
        }
    }

    fn key_le_exec(&self, other: &Self) -> (r: bool) {
        if self.count > 0 && other.count > 0 {
            self.count >= other.count
        } else if self.count > 0 {
            true
        } else if other.count > 0 {
            false
        } else {
            !str_lt(other.lower.as_str(), self.lower.as_str())
        }
    }
}

/// The slots of the sidebar's repositories describe them in order.
pub open spec fn slots_of(slots: Seq<SidebarSlot>, repos: Seq<RepoEntry>) -> bool {
    &&& slots.len() == repos.len()
    &&& forall|i: int|
        0 <= i < repos.len() ==> (#[trigger] slots[i]).index == i && slots[i].count == repos[i].card_count
            && slots[i].lower@ == unicode_lowercase(repos[i].name@)
}

/// The order in which the sidebar lists its repositories: those with
/// cached cards first, by count descending, then the others by lower-cased
/// name; ties keep their order.
pub fn sidebar_order(repos: &Vec<RepoEntry>) -> (order: Vec<usize>)
    ensures
        exists|slots: Seq<SidebarSlot>|
            #![trigger slots_of(slots, repos@)]
            slots_of(slots, repos@) && order@.len() == slots.len() && forall|k: int|
                0 <= k < order@.len() ==> #[trigger] order@[k] == stable_sorted(slots)[k].index,
{
    let mut slots: Vec<SidebarSlot> = Vec::new();
    let mut i: usize = 0;
    while i < repos.len()
        invariant
            i <= repos.len(),
            slots@.len() == i,
            forall|k: int|
                0 <= k < i ==> (#[trigger] slots@[k]).index == k && slots@[k].count == repos@[k].card_count
                    && slots@[k].lower@ == unicode_lowercase(repos@[k].name@),
        decreases repos.len() - i,
    {
        let lower = to_lowercase(repos[i].name.as_str());
        slots.push(SidebarSlot { index: i, count: repos[i].card_count, lower });
        i = i + 1;
    }
    let ghost all = slots@;
    assert(slots_of(all, repos@));
    let sorted = sort_by_key(slots);
    proof {
        crate::stable_sort::law_stable_sorted(all);
    }
    let mut order: Vec<usize> = Vec::new();
    let mut j: usize = 0;
    while j < sorted.len()
        invariant
            j <= sorted.len(),
            sorted@ == stable_sorted(all),
            sorted@.len() == all.len(),
            order@.len() == j,
            forall|k: int| 0 <= k < j ==> #[trigger] order@[k] == sorted@[k].index,
        decreases sorted.len() - j,
    {
        order.push(sorted[j].index);
        j = j + 1;
    }
    order
}

/// An organization of the sidebar's picker with its lower-cased login.
#[derive(Debug, Clone)]
pub struct OrgSlot {
    /// The organization's login.
    pub name: String,
    /// The login, lower-cased.
    pub lower: String,
}

impl SortKey for OrgSlot {
    /// By lower-cased login.
    open spec fn key_le(self, other: Self) -> bool {
        !lex_lt(other.lower@, self.lower@)
    }

    proof fn lemma_key_total(a: Self, b: Self) {
        lemma_lex_total(a.lower@, b.lower@);
        lemma_lex_irreflexive(a.lower@);
    }

    proof fn lemma_key_transitive(a: Self, b: Self, c: Self) {
        lemma_lex_total(a.lower@, b.lower@);
        if lex_lt(c.lower@, a.lower@) {
            if a.lower@ == b.lower@ {
            } else if lex_lt(a.lower@, b.lower@) {
                lemma_lex_transitive(c.lower@, a.lower@, b.lower@);
            }
        }
    }

    fn key_le_exec(&self, other: &Self) -> (r: bool) {
        !str_lt(other.lower.as_str(), self.lower.as_str())
    }
}

/// The slots of the picker's organizations describe them in order.
pub open spec fn org_slots_of(slots: Seq<OrgSlot>, orgs: Seq<String>) -> bool {
    &&& slots.len() == orgs.len()
    &&& forall|i: int|
        0 <= i < orgs.len() ==> (#[trigger] slots[i]).name == orgs[i] && slots[i].lower@ == unicode_lowercase(
            orgs[i]@,
        )
}

/// The organizations of the picker, ordered by lower-cased login (stable).
pub fn orgs_by_lowercase(orgs: &Vec<String>) -> (out: Vec<String>)
    ensures
        exists|slots: Seq<OrgSlot>|
            #![trigger org_slots_of(slots, orgs@)]
            org_slots_of(slots, orgs@) && out@.len() == slots.len() && forall|k: int|
                0 <= k < out@.len() ==> #[trigger] out@[k] == stable_sorted(slots)[k].name,
{
    let mut slots: Vec<OrgSlot> = Vec::new();
    let mut i: usize = 0;
    while i < orgs.len()
        invariant
            i <= orgs.len(),
            slots@.len() == i,
            forall|k: int|
                0 <= k < i ==> (#[trigger] slots@[k]).name == orgs@[k] && slots@[k].lower@
                    == unicode_lowercase(orgs@[k]@),
        decreases orgs.len() - i,
    {
        let lower = to_lowercase(orgs[i].as_str());
        slots.push(OrgSlot { name: orgs[i].clone(), lower });
        i = i + 1;
    }
    let ghost all = slots@;
    assert(org_slots_of(all, orgs@));
    let sorted = sort_by_key(slots);
    proof {
        crate::stable_sort::law_stable_sorted(all);
    }
    let mut out: Vec<String> = Vec::new();
    let mut j: usize = 0;
    while j < sorted.len()
        invariant
            j <= sorted.len(),
            sorted@ == stable_sorted(all),
            sorted@.len() == all.len(),
            out@.len() == j,
            forall|k: int| 0 <= k < j ==> #[trigger] out@[k] == sorted@[k].name,
        decreases sorted.len() - j,
    {
        out.push(sorted[j].name.clone());
        j = j + 1;
    }
    out
}

} // verus!
