//! Client-side board filters for narrowing displayed Kanban cards.
//!
//! All matching is performed in-memory on already-fetched cards. The
//! filter uses `AND` semantics: every non-`None` field must match for
//! a card to be included.
use vstd::prelude::*;

use crate::kardhub::models::{Card, CardSource};
use crate::text::{contains_seq, contains_str, decimal, to_lowercase, u64_to_decimal, unicode_lowercase};

verus! {

/// Criteria for filtering cards on the Kanban board.
///
/// All fields use `Option` — a `None` field is ignored (matches everything).
/// When multiple fields are set, they combine with `AND` semantics.
#[derive(Debug, Clone, PartialEq, Eq)]
pub struct BoardFilter {
    /// Case-insensitive substring match against any assignee login.
    pub assignee: Option<String>,
    /// Case-insensitive substring match against title **or** body.
    pub text: Option<String>,
    /// Substring match on issue/PR number (e.g. "4" matches #4, #42, #142).
    pub number: Option<String>,
}

impl Default for BoardFilter {
    /// No criterion.
    fn default() -> (f: Self)
        ensures
            f.assignee is None,
            f.text is None,
            f.number is None,
    {
        BoardFilter { assignee: None, text: None, number: None }
    }
}

impl BoardFilter {
    /// Returns `true` when no filter field is set.
    pub fn is_empty(&self) -> (b: bool)
        ensures
            b == (self.assignee is None && self.text is None && self.number is None),
    {
        self.assignee.is_none() && self.text.is_none() && self.number.is_none()
    }
}

// ── Specification ───────────────────────────────────────────────────

/// The number of a card's issue or PR.
pub open spec fn card_number(card: Card) -> u64 {
    match card.source {
        CardSource::Issue(i) => i.number,
        CardSource::PullRequest(pr) => pr.number,
    }
}

/// The title of a card's issue or PR.
pub open spec fn card_title(card: Card) -> Seq<char> {
    match card.source {
        CardSource::Issue(i) => i.title@,
        CardSource::PullRequest(pr) => pr.title@,
    }
}

/// The body of a card's issue or PR.
pub open spec fn card_body(card: Card) -> Option<String> {
    match card.source {
        CardSource::Issue(i) => i.body,
        CardSource::PullRequest(pr) => pr.body,
    }
}

/// The assignee logins of a card's issue or PR.
pub open spec fn card_assignees(card: Card) -> Seq<String> {
    match card.source {
        CardSource::Issue(i) => i.assignees@,
        CardSource::PullRequest(pr) => pr.assignees@,
    }
}

/// Some assignee's lower-cased login contains the lower-cased pattern.
pub open spec fn assignee_matches(card: Card, pattern: Seq<char>) -> bool {
    exists|i: int|
        0 <= i < card_assignees(card).len() && contains_seq(
            unicode_lowercase(#[trigger] card_assignees(card)[i]@),
            unicode_lowercase(pattern),
        )
}

/// The lower-cased title, or the lower-cased body when there is one,
/// contains the lower-cased pattern.
pub open spec fn text_matches(card: Card, pattern: Seq<char>) -> bool {
    ||| contains_seq(unicode_lowercase(card_title(card)), unicode_lowercase(pattern))
    ||| (card_body(card) matches Some(b) && contains_seq(
        unicode_lowercase(b@),
        unicode_lowercase(pattern),
    ))
}

/// The decimal number of the card, or of one of its linked PRs, contains
/// the pattern.
pub open spec fn number_matches(card: Card, pattern: Seq<char>) -> bool {
    ||| contains_seq(decimal(card_number(card) as nat), pattern)
    ||| exists|k: int|
        0 <= k < card.linked_prs@.len() && contains_seq(
            decimal(#[trigger] card.linked_prs@[k].number as nat),
            pattern,
        )
}

/// The card satisfies every field that the filter sets.
pub open spec fn filter_accepts(card: Card, filter: BoardFilter) -> bool {
    &&& (filter.assignee matches Some(p) ==> assignee_matches(card, p@))
    &&& (filter.text matches Some(p) ==> text_matches(card, p@))
    &&& (filter.number matches Some(p) ==> number_matches(card, p@))
}

// ── Matching ────────────────────────────────────────────────────────

/// Whether some login, lower-cased, contains `pat_lower`.
fn any_login_contains(logins: &Vec<String>, pat_lower: &String, Ghost(pattern): Ghost<Seq<char>>) -> (b: bool)
    requires
        pat_lower@ == unicode_lowercase(pattern),
    ensures
        b == exists|i: int|
            0 <= i < logins@.len() && contains_seq(
                unicode_lowercase(#[trigger] logins@[i]@),
                unicode_lowercase(pattern),
            ),
{
    let mut i: usize = 0;
    while i < logins.len()
        invariant
            i <= logins.len(),
            pat_lower@ == unicode_lowercase(pattern),
            forall|a: int|
                0 <= a < i ==> !contains_seq(
                    unicode_lowercase(#[trigger] logins@[a]@),
                    unicode_lowercase(pattern),
                ),
        decreases logins.len() - i,
    {
        let lower = to_lowercase(logins[i].as_str());
        if contains_str(lower.as_str(), pat_lower.as_str()) {
            return true;
        }
        i = i + 1;
    }
    false
}

/// Whether the number of some linked PR contains `pattern` in decimal.
fn any_linked_number_contains(card: &Card, pattern: &String) -> (b: bool)
    ensures
        b == exists|k: int|
            0 <= k < card.linked_prs@.len() && contains_seq(
                decimal(#[trigger] card.linked_prs@[k].number as nat),
                pattern@,
            ),
{
    let mut k: usize = 0;
    while k < card.linked_prs.len()
        invariant
            k <= card.linked_prs.len(),
            forall|a: int|
                0 <= a < k ==> !contains_seq(
                    decimal(#[trigger] card.linked_prs@[a].number as nat),
                    pattern@,
                ),
        decreases card.linked_prs.len() - k,
    {
        let s = u64_to_decimal(card.linked_prs[k].number);
        if contains_str(s.as_str(), pattern.as_str()) {
            return true;
        }
        k = k + 1;
    }
    false
}

/// Whether some assignee login contains the pattern, without case.
fn assignee_ok(card: &Card, pattern: &String) -> (b: bool)
    ensures
        b == assignee_matches(*card, pattern@),
{
    let pat = to_lowercase(pattern.as_str());
    let logins = match &card.source {
        CardSource::Issue(issue) => &issue.assignees,
        CardSource::PullRequest(pr) => &pr.assignees,
    };
    assert(logins@ == card_assignees(*card));
    any_login_contains(logins, &pat, Ghost(pattern@))
}

/// Whether the text contains the pattern, without case.
fn lower_contains(text: &String, pat_lower: &String, Ghost(pattern): Ghost<Seq<char>>) -> (b: bool)
    requires
        pat_lower@ == unicode_lowercase(pattern),
    ensures
        b == contains_seq(unicode_lowercase(text@), unicode_lowercase(pattern)),
{
    let lower = to_lowercase(text.as_str());
    contains_str(lower.as_str(), pat_lower.as_str())
}

/// Whether the title or the body contains the pattern, without case.
fn text_ok(card: &Card, pattern: &String) -> (b: bool)
    ensures
        b == text_matches(*card, pattern@),
{
    let pat = to_lowercase(pattern.as_str());
    let (title, body) = match &card.source {
        CardSource::Issue(issue) => (&issue.title, &issue.body),
        CardSource::PullRequest(pr) => (&pr.title, &pr.body),
    };
    assert(title@ == card_title(*card));
    assert(*body == card_body(*card));
    let title_match = lower_contains(title, &pat, Ghost(pattern@));
    let body_match = match body {
        Some(b) => lower_contains(b, &pat, Ghost(pattern@)),
        None => false,
    };
    title_match || body_match
}

/// Whether the card's number or a linked PR's number contains the pattern.
fn number_ok(card: &Card, pattern: &String) -> (b: bool)
    ensures
        b == number_matches(*card, pattern@),
{
    let number = match &card.source {
        CardSource::Issue(issue) => issue.number,
        CardSource::PullRequest(pr) => pr.number,
    };
    let num_str = u64_to_decimal(number);
    let card_match = contains_str(num_str.as_str(), pattern.as_str());
    let linked_match = any_linked_number_contains(card, pattern);
    card_match || linked_match
}

/// Check whether a [`Card`] satisfies the given [`BoardFilter`].
///
/// Returns `true` when **all** non-`None` filter fields match the card.
/// An empty filter (all `None`) matches every card.
pub fn matches_filter(card: &Card, filter: &BoardFilter) -> (b: bool)
    ensures
        b == filter_accepts(*card, *filter),
{
    if filter.is_empty() {
        return true;
    }
    // Assignee filter: any login must contain the substring (case-insensitive).
    match &filter.assignee {
        Some(pattern) => if !assignee_ok(card, pattern) {
            return false;
        },
        None => {},
    }
    // Text filter: title or body must contain the substring (case-insensitive).
    match &filter.text {
        Some(pattern) => if !text_ok(card, pattern) {
            return false;
        },
        None => {},
    }
    // Number filter: substring match against the card number **or** any linked PR number.
    match &filter.number {
        Some(pattern) => if !number_ok(card, pattern) {
            return false;
        },
        None => {},
    }
    true
}

// ── Properties ──────────────────────────────────────────────────────

/// The empty filter accepts every card.
pub proof fn law_empty_filter_accepts_all(card: Card, filter: BoardFilter)
    requires
        filter.assignee is None,
        filter.text is None,
        filter.number is None,
    ensures
        filter_accepts(card, filter),
{
}

/// A filter accepts a card exactly when each of its fields, set alone,
/// accepts the card (`AND` semantics).
pub proof fn law_filter_fields_combine_with_and(card: Card, filter: BoardFilter)
    ensures
        filter_accepts(card, filter) == (filter_accepts(
            card,
            BoardFilter { assignee: filter.assignee, text: None, number: None },
        ) && filter_accepts(card, BoardFilter { assignee: None, text: filter.text, number: None })
            && filter_accepts(
            card,
            BoardFilter { assignee: None, text: None, number: filter.number },
        )),
{
}

/// The number filter also finds an issue card by the number of a PR
/// linked to it.
pub proof fn law_number_filter_sees_linked_prs(card: Card, pattern: Seq<char>, k: int)
    requires
        0 <= k < card.linked_prs@.len(),
        contains_seq(decimal(card.linked_prs@[k].number as nat), pattern),
    ensures
        number_matches(card, pattern),
{
}

} // verus!
