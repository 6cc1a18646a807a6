//! PR ↔ Issue linking engine.
//!
//! Parses full GitHub issue URLs, closing keywords and `Issue:` link lines
//! from PR bodies, then post-processes mapped cards to embed linked PR summaries in issue
//! cards and override the issue's column with the least-advanced PR's.
use vstd::prelude::*;

use crate::kardhub::models::{Card, CardSource, Column, LinkedPr};
use crate::text::{copy_str, parse_u64, parse_u64_spec, str_eq};

verus! {

// ── Patterns ────────────────────────────────────────────────────────

/// Full GitHub issue URL: `https://github.com/owner/repo/issues/N`.
/// Groups 1, 2 and 3 are the owner, the repository and the number.
pub const GITHUB_URL_PATTERN: &'static str =
    r"(?mi)https?://github\.com/(?P<owner>[a-zA-Z0-9_.-]+)/(?P<repo>[a-zA-Z0-9_.-]+)/issues/(?P<num>\d+)";

/// Closing keyword with a cross-repository reference: `Closes owner/repo#N`.
/// Groups 1, 2 and 3 are the owner, the repository and the number.
pub const CLOSE_CROSS_PATTERN: &'static str =
    r"(?mi)(?:close[sd]?|fix(?:e[sd])?|resolve[sd]?)\s+(?P<owner>[a-zA-Z0-9_.-]+)/(?P<repo>[a-zA-Z0-9_.-]+)#(?P<num>\d+)";

/// Non-closing link line: `Issue: owner/repo#N`.
/// Groups 1, 2 and 3 are the owner, the repository and the number.
pub const ISSUE_LINE_PATTERN: &'static str =
    r"(?mi)\bissue:\s*(?P<owner>[a-zA-Z0-9_.-]+)/(?P<repo>[a-zA-Z0-9_.-]+)#(?P<num>\d+)";

/// Closing keyword with a same-repository reference: `Closes #N`.
/// Group 1 is the number.
pub const CLOSE_SAME_PATTERN: &'static str =
    r"(?mi)(?:close[sd]?|fix(?:e[sd])?|resolve[sd]?)\s+#(?P<num>\d+)";

// ── Regular-expression search (trusted) ─────────────────────────────

/// The matches of `pattern` in `haystack`, as the `regex` crate finds them
/// (successive non-overlapping matches, left to right); each match is the
/// list of its capture groups, group 0 being the whole match and an absent
/// group `None`. For a pattern the crate refuses, no match.
pub uninterp spec fn regex_captures(pattern: Seq<char>, haystack: Seq<char>) -> Seq<
    Seq<Option<Seq<char>>>,
>;

/// The view of the capture groups of one match.
pub open spec fn group_views(g: Seq<Option<String>>) -> Seq<Option<Seq<char>>> {
    g.map_values(
        |o: Option<String>|
            match o {
                Some(s) => Some(s@),
                None => None,
            },
    )
}

/// The view of a list of matches.
pub open spec fn captures_views(v: Seq<Vec<Option<String>>>) -> Seq<Seq<Option<Seq<char>>>> {
    v.map_values(|m: Vec<Option<String>>| group_views(m@))
}

/// Every match of `pattern` in `haystack` with its capture groups: a wrapper
/// around `regex::Regex::new` and `Regex::captures_iter`, where each
/// `Captures` is turned into the list of its groups (`Captures::iter`,
/// `Match::as_str`). The result is named by [`regex_captures`]; nothing is
/// claimed of what the matches are.
#[verifier::external_body]
fn captures_all(pattern: &str, haystack: &str) -> (out: Vec<Vec<Option<String>>>)
    ensures
        captures_views(out@) == regex_captures(pattern@, haystack@),
{
    match regex::Regex::new(pattern) {
        Ok(re) => re.captures_iter(haystack).map(
            |caps| caps.iter().map(|m| m.map(|m| m.as_str().to_string())).collect(),
        ).collect(),
        Err(_) => Vec::new(),
    }
}

// ── Public types ────────────────────────────────────────────────────

/// An issue reference parsed from a PR body (ephemeral, not serialized).
#[derive(Debug, Clone, PartialEq, Eq)]
pub struct IssueRef {
    /// Repository owner.
    pub owner: String,
    /// Repository name.
    pub repo: String,
    /// Issue number.
    pub number: u64,
}

/// An issue reference as plain values: owner, repository, number.
pub type RefView = (Seq<char>, Seq<char>, u64);

/// The plain values of a reference.
pub open spec fn ref_view(r: IssueRef) -> RefView {
    (r.owner@, r.repo@, r.number)
}

/// The plain values of a list of references.
pub open spec fn ref_views(s: Seq<IssueRef>) -> Seq<RefView> {
    s.map_values(|r: IssueRef| ref_view(r))
}

// ── Parsing specification ───────────────────────────────────────────

/// The reference a match with owner, repository and number groups (1, 2, 3)
/// stands for, when the number parses as a `u64`.
pub open spec fn owner_repo_ref(g: Seq<Option<Seq<char>>>) -> Option<RefView> {
    if g.len() > 3 && g[1] is Some && g[2] is Some && g[3] is Some && parse_u64_spec(
        g[3]->0,
    ) is Some {
        Some((g[1]->0, g[2]->0, parse_u64_spec(g[3]->0)->0))
    } else {
        None
    }
}

/// The reference a match with a number group (1) stands for in the
/// repository `owner/repo`, when the number parses as a `u64`.
pub open spec fn same_repo_ref(g: Seq<Option<Seq<char>>>, owner: Seq<char>, repo: Seq<char>) -> Option<
    RefView,
> {
    if g.len() > 1 && g[1] is Some && parse_u64_spec(g[1]->0) is Some {
        Some((owner, repo, parse_u64_spec(g[1]->0)->0))
    } else {
        None
    }
}

/// The references of a list of owner/repository/number matches, in order.
pub open spec fn owner_repo_refs(ms: Seq<Seq<Option<Seq<char>>>>) -> Seq<RefView>
    decreases ms.len(),
{
    if ms.len() == 0 {
        Seq::empty()
    } else {
        let r = owner_repo_refs(ms.drop_last());
        match owner_repo_ref(ms.last()) {
            Some(x) => r.push(x),
            None => r,
        }
    }
}

/// The references of a list of number-only matches, in order.
pub open spec fn same_repo_refs(ms: Seq<Seq<Option<Seq<char>>>>, owner: Seq<char>, repo: Seq<char>) -> Seq<
    RefView,
>
    decreases ms.len(),
{
    if ms.len() == 0 {
        Seq::empty()
    } else {
        let r = same_repo_refs(ms.drop_last(), owner, repo);
        match same_repo_ref(ms.last(), owner, repo) {
            Some(x) => r.push(x),
            None => r,
        }
    }
}

/// `s` without repetitions, each element kept at its first occurrence.
pub open spec fn dedup(s: Seq<RefView>) -> Seq<RefView>
    decreases s.len(),
{
    if s.len() == 0 {
        Seq::empty()
    } else {
        let d = dedup(s.drop_last());
        if d.contains(s.last()) {
            d
        } else {
            d.push(s.last())
        }
    }
}

/// The references that the four kinds of matches stand for, in order:
/// issue URLs, cross-repository closing keywords, `Issue: owner/repo#N`
/// lines, then same-repository closing keywords (which take `owner/repo`).
pub open spec fn match_refs(
    url: Seq<Seq<Option<Seq<char>>>>,
    cross: Seq<Seq<Option<Seq<char>>>>,
    line: Seq<Seq<Option<Seq<char>>>>,
    same: Seq<Seq<Option<Seq<char>>>>,
    owner: Seq<char>,
    repo: Seq<char>,
) -> Seq<RefView> {
    owner_repo_refs(url) + owner_repo_refs(cross) + owner_repo_refs(line) + same_repo_refs(same, owner, repo)
}

/// Every reference found in a PR body: full issue URLs first, then
/// cross-repository closing keywords, then `Issue: owner/repo#N` lines, then
/// same-repository closing keywords (which take `owner/repo`), without
/// repetitions.
pub open spec fn issue_refs_of(body: Seq<char>, owner: Seq<char>, repo: Seq<char>) -> Seq<RefView> {
    dedup(
        match_refs(
            regex_captures(GITHUB_URL_PATTERN@, body),
            regex_captures(CLOSE_CROSS_PATTERN@, body),
            regex_captures(ISSUE_LINE_PATTERN@, body),
            regex_captures(CLOSE_SAME_PATTERN@, body),
            owner,
            repo,
        ),
    )
}

// ── Parsing ─────────────────────────────────────────────────────────

/// The plain values of an optional reference.
pub open spec fn opt_ref_view(r: Option<IssueRef>) -> Option<RefView> {
    match r {
        Some(x) => Some(ref_view(x)),
        None => None,
    }
}

/// The reference of an owner/repository/number match.
fn owner_repo_from_groups(g: &Vec<Option<String>>) -> (r: Option<IssueRef>)
    ensures
        opt_ref_view(r) == owner_repo_ref(group_views(g@)),
{
    if g.len() <= 3 {
        return None;
    }
    match (&g[1], &g[2], &g[3]) {
        (Some(o), Some(rp), Some(n)) => match parse_u64(n.as_str()) {
            Some(num) => Some(IssueRef { owner: o.clone(), repo: rp.clone(), number: num }),
            None => None,
        },
        _ => None,
    }
}

/// The reference of a number-only match in `owner/repo`.
fn same_repo_from_groups(g: &Vec<Option<String>>, owner: &str, repo: &str) -> (r: Option<IssueRef>)
    ensures
        opt_ref_view(r) == same_repo_ref(group_views(g@), owner@, repo@),
{
    if g.len() <= 1 {
        return None;
    }
    match &g[1] {
        Some(n) => match parse_u64(n.as_str()) {
            Some(num) => Some(IssueRef { owner: copy_str(owner), repo: copy_str(repo), number: num }),
            None => None,
        },
        None => None,
    }
}

/// Whether `r` stands for the same reference as `x`.
fn same_ref(r: &IssueRef, x: &IssueRef) -> (b: bool)
    ensures
        b == (ref_view(*r) == ref_view(*x)),
{
    r.number == x.number && str_eq(r.owner.as_str(), x.owner.as_str()) && str_eq(
        r.repo.as_str(),
        x.repo.as_str(),
    )
}

/// Appends `x` unless an equal reference is already present.
fn push_unique(refs: &mut Vec<IssueRef>, x: IssueRef)
    ensures
        ref_views(final(refs)@) == (if ref_views(old(refs)@).contains(ref_view(x)) {
            ref_views(old(refs)@)
        } else {
            ref_views(old(refs)@).push(ref_view(x))
        }),
{
    let mut i: usize = 0;
    while i < refs.len()
        invariant
            i <= refs.len(),
            forall|k: int| 0 <= k < i ==> ref_view(refs@[k]) != ref_view(x),
        decreases refs.len() - i,
    {
        if same_ref(&refs[i], &x) {
            assert(ref_views(refs@)[i as int] == ref_view(x));
            return;
        }
        i = i + 1;
    }
    assert(!ref_views(refs@).contains(ref_view(x))) by {
        if ref_views(refs@).contains(ref_view(x)) {
            let k = choose|k: int| 0 <= k < ref_views(refs@).len() && ref_views(refs@)[k] == ref_view(x);
            assert(ref_view(refs@[k]) != ref_view(x));
        }
    }
    let ghost before = refs@;
    refs.push(x);
    assert(ref_views(refs@) =~= ref_views(before).push(ref_view(x)));
}

/// Adds the references of owner/repository/number matches, skipping repeats.
fn add_owner_repo_refs(ms: &Vec<Vec<Option<String>>>, refs: &mut Vec<IssueRef>, Ghost(cands): Ghost<Seq<RefView>>)
    requires
        ref_views(old(refs)@) == dedup(cands),
    ensures
        ref_views(final(refs)@) == dedup(cands + owner_repo_refs(captures_views(ms@))),
{
    let ghost mv = captures_views(ms@);
    let mut i: usize = 0;
    while i < ms.len()
        invariant
            i <= ms.len(),
            mv == captures_views(ms@),
            ref_views(refs@) == dedup(cands + owner_repo_refs(mv.take(i as int))),
        decreases ms.len() - i,
    {
        let ghost prev = cands + owner_repo_refs(mv.take(i as int));
        assert(mv.take(i + 1).drop_last() =~= mv.take(i as int));
        assert(mv.take(i + 1).last() == group_views(ms@[i as int]@));
        match owner_repo_from_groups(&ms[i]) {
            Some(x) => {
                assert(prev.push(ref_view(x)).drop_last() =~= prev);
                assert(cands + owner_repo_refs(mv.take(i + 1)) =~= prev.push(ref_view(x)));
                push_unique(refs, x);
            },
            None => {
                assert(cands + owner_repo_refs(mv.take(i + 1)) =~= prev);
            },
        }
        i = i + 1;
    }
    assert(mv.take(ms.len() as int) =~= mv);
}

/// Adds the references of number-only matches in `owner/repo`, skipping repeats.
fn add_same_repo_refs(
    ms: &Vec<Vec<Option<String>>>,
    owner: &str,
    repo: &str,
    refs: &mut Vec<IssueRef>,
    Ghost(cands): Ghost<Seq<RefView>>,
)
    requires
        ref_views(old(refs)@) == dedup(cands),
    ensures
        ref_views(final(refs)@) == dedup(cands + same_repo_refs(captures_views(ms@), owner@, repo@)),
{
    let ghost mv = captures_views(ms@);
    let mut i: usize = 0;
    while i < ms.len()
        invariant
            i <= ms.len(),
            mv == captures_views(ms@),
            ref_views(refs@) == dedup(cands + same_repo_refs(mv.take(i as int), owner@, repo@)),
        decreases ms.len() - i,
    {
        let ghost prev = cands + same_repo_refs(mv.take(i as int), owner@, repo@);
        assert(mv.take(i + 1).drop_last() =~= mv.take(i as int));
        assert(mv.take(i + 1).last() == group_views(ms@[i as int]@));
        match same_repo_from_groups(&ms[i], owner, repo) {
            Some(x) => {
                assert(prev.push(ref_view(x)).drop_last() =~= prev);
                assert(cands + same_repo_refs(mv.take(i + 1), owner@, repo@) =~= prev.push(
                    ref_view(x),
                ));
                push_unique(refs, x);
            },
            None => {
                assert(cands + same_repo_refs(mv.take(i + 1), owner@, repo@) =~= prev);
            },
        }
        i = i + 1;
    }
    assert(mv.take(ms.len() as int) =~= mv);
}

/// The references of the four kinds of matches, without repetitions: the
/// part of parsing that follows the regular-expression search. `url`,
/// `cross` and `line` are matches with owner, repository and number groups;
/// `same` are matches with a number group, taken in `owner/repo`.
pub fn refs_from_matches(
    url: &Vec<Vec<Option<String>>>,
    cross: &Vec<Vec<Option<String>>>,
    line: &Vec<Vec<Option<String>>>,
    same: &Vec<Vec<Option<String>>>,
    owner: &str,
    repo: &str,
) -> (refs: Vec<IssueRef>)
    ensures
        ref_views(refs@) == dedup(
            match_refs(
                captures_views(url@),
                captures_views(cross@),
                captures_views(line@),
                captures_views(same@),
                owner@,
                repo@,
            ),
        ),
{
    let mut refs: Vec<IssueRef> = Vec::new();
    assert(ref_views(refs@) =~= dedup(Seq::<RefView>::empty()));
    add_owner_repo_refs(url, &mut refs, Ghost(Seq::empty()));
    let ghost a = owner_repo_refs(captures_views(url@));
    assert(Seq::<RefView>::empty() + a =~= a);
    add_owner_repo_refs(cross, &mut refs, Ghost(a));
    let ghost b = a + owner_repo_refs(captures_views(cross@));
    add_owner_repo_refs(line, &mut refs, Ghost(b));
    let ghost c = b + owner_repo_refs(captures_views(line@));
    add_same_repo_refs(same, owner, repo, &mut refs, Ghost(c));
    refs
}

/// Parse issue references from a PR body.
///
/// Recognises:
/// - `https://github.com/owner/repo/issues/N` (full GitHub issue URL)
/// - `Closes owner/repo#N`, `Fixes owner/repo#N`, `Resolves owner/repo#N`
/// - `Issue: owner/repo#N` (the non-closing link line)
/// - `Closes #N`, `Fixes #N`, `Resolves #N` (same-repo, uses defaults)
///
/// `default_owner` and `default_repo` are used for same-repo `#N` refs.
pub fn parse_issue_refs(body: &str, default_owner: &str, default_repo: &str) -> (refs: Vec<IssueRef>)
    ensures
        ref_views(refs@) == issue_refs_of(body@, default_owner@, default_repo@),
{
    let url = captures_all(GITHUB_URL_PATTERN, body);
    let cross = captures_all(CLOSE_CROSS_PATTERN, body);
    let line = captures_all(ISSUE_LINE_PATTERN, body);
    let same = captures_all(CLOSE_SAME_PATTERN, body);
    refs_from_matches(&url, &cross, &line, &same, default_owner, default_repo)
}

// ── Properties of parsing ───────────────────────────────────────────

/// Removing repetitions keeps exactly the elements of `s`.
pub proof fn lemma_dedup_contains(s: Seq<RefView>, x: RefView)
    ensures
        dedup(s).contains(x) <==> s.contains(x),
    decreases s.len(),
{
    if s.len() > 0 {
        lemma_dedup_contains(s.drop_last(), x);
        if s.contains(x) && !s.drop_last().contains(x) {
            assert(x == s.last()) by {
                let k = choose|k: int| 0 <= k < s.len() && s[k] == x;
                if k < s.len() - 1 {
                    assert(s.drop_last()[k] == x);
                }
            }
        }
        if s.drop_last().contains(x) {
            let k = choose|k: int| 0 <= k < s.drop_last().len() && s.drop_last()[k] == x;
            assert(s[k] == x);
        }
        if !dedup(s.drop_last()).contains(s.last()) {
            let d = dedup(s.drop_last());
            if d.push(s.last()).contains(x) && x != s.last() {
                let k = choose|k: int| 0 <= k < d.push(s.last()).len() && d.push(s.last())[k] == x;
                assert(d[k] == x);
            }
            if d.contains(x) {
                let k = choose|k: int| 0 <= k < d.len() && d[k] == x;
                assert(d.push(s.last())[k] == x);
            }
            assert(d.push(s.last())[d.len() as int] == s.last());
        }
    }
}

/// Removing repetitions leaves none.
pub proof fn lemma_dedup_no_duplicates(s: Seq<RefView>)
    ensures
        dedup(s).no_duplicates(),
    decreases s.len(),
{
    if s.len() > 0 {
        lemma_dedup_no_duplicates(s.drop_last());
    }
}

/// Parsing a PR body never yields the same reference twice, and yields
/// every reference that one of the four kinds of matches stands for.
pub proof fn law_parsed_refs_unique_and_complete(body: Seq<char>, owner: Seq<char>, repo: Seq<char>, x: RefView)
    ensures
        issue_refs_of(body, owner, repo).no_duplicates(),
        issue_refs_of(body, owner, repo).contains(x) <==> (owner_repo_refs(
            regex_captures(GITHUB_URL_PATTERN@, body),
        ) + owner_repo_refs(regex_captures(CLOSE_CROSS_PATTERN@, body)) + owner_repo_refs(
            regex_captures(ISSUE_LINE_PATTERN@, body),
        ) + same_repo_refs(regex_captures(CLOSE_SAME_PATTERN@, body), owner, repo)).contains(x),
{
    let all = match_refs(
        regex_captures(GITHUB_URL_PATTERN@, body),
        regex_captures(CLOSE_CROSS_PATTERN@, body),
        regex_captures(ISSUE_LINE_PATTERN@, body),
        regex_captures(CLOSE_SAME_PATTERN@, body),
        owner,
        repo,
    );
    lemma_dedup_no_duplicates(all);
    lemma_dedup_contains(all, x);
}

// ── Card linking specification ──────────────────────────────────────

/// The text of an optional PR body (empty when absent).
pub open spec fn body_view(b: Option<String>) -> Seq<char> {
    match b {
        Some(s) => s@,
        None => Seq::empty(),
    }
}

/// Whether `c` is the card of the issue that `r` names.
pub open spec fn is_issue_card_for(c: Card, r: RefView) -> bool {
    &&& c.owner@ == r.0
    &&& c.repo@ == r.1
    &&& match c.source {
        CardSource::Issue(i) => i.number == r.2,
        CardSource::PullRequest(_) => false,
    }
}

/// The first index of a card of the issue that `r` names.
pub open spec fn first_issue_card(cards: Seq<Card>, r: RefView) -> Option<int>
    decreases cards.len(),
{
    if cards.len() == 0 {
        None
    } else {
        match first_issue_card(cards.drop_last(), r) {
            Some(i) => Some(i),
            None => if is_issue_card_for(cards.last(), r) {
                Some(cards.len() - 1)
            } else {
                None
            },
        }
    }
}

/// The references a card's body makes: those of a PR card's body, read in
/// the card's own repository; none for an issue card.
pub open spec fn card_refs(c: Card) -> Seq<RefView> {
    match c.source {
        CardSource::PullRequest(pr) => issue_refs_of(body_view(pr.body), c.owner@, c.repo@),
        CardSource::Issue(_) => Seq::empty(),
    }
}

/// The links `(issue card index, PR card index)` that the references
/// `refs` of the PR card `p` make, in order; references to issues without a
/// card make none.
pub open spec fn ref_links(cards: Seq<Card>, refs: Seq<RefView>, p: int) -> Seq<(int, int)>
    decreases refs.len(),
{
    if refs.len() == 0 {
        Seq::empty()
    } else {
        let l = ref_links(cards, refs.drop_last(), p);
        match first_issue_card(cards, refs.last()) {
            Some(i) => l.push((i, p)),
            None => l,
        }
    }
}

/// All links made by the cards before index `n`, in card order.
pub open spec fn all_links(cards: Seq<Card>, n: int) -> Seq<(int, int)>
    decreases n,
{
    if n <= 0 {
        Seq::empty()
    } else {
        all_links(cards, n - 1) + ref_links(cards, card_refs(cards[n - 1]), n - 1)
    }
}

/// The PR card indices of the links to card `i`, in order.
pub open spec fn links_to(ls: Seq<(int, int)>, i: int) -> Seq<int>
    decreases ls.len(),
{
    if ls.len() == 0 {
        Seq::empty()
    } else {
        let r = links_to(ls.drop_last(), i);
        if ls.last().0 == i {
            r.push(ls.last().1)
        } else {
            r
        }
    }
}

/// The first PR card among `prs` whose column has the smallest sort order.
pub open spec fn best_pr(cards: Seq<Card>, prs: Seq<int>) -> int
    decreases prs.len(),
{
    if prs.len() <= 1 {
        prs[0]
    } else {
        let b = best_pr(cards, prs.drop_last());
        if cards[prs.last()].column.sort_order < cards[b].column.sort_order {
            prs.last()
        } else {
            b
        }
    }
}

/// `lp` summarises the PR card `c`.
pub open spec fn summarises(lp: LinkedPr, c: Card) -> bool {
    match c.source {
        CardSource::PullRequest(pr) => {
            &&& lp.owner == c.owner
            &&& lp.repo == c.repo
            &&& lp.number == pr.number
            &&& lp.title == pr.title
            &&& lp.column == c.column
            &&& lp.merged == pr.merged
            &&& lp.closed == pr.closed
            &&& lp.draft == pr.draft
            &&& lp.assignees@ == pr.assignees@
        },
        CardSource::Issue(_) => false,
    }
}

/// `new` is what linking makes of `old`: every card keeps its repository,
/// source and priority and is shown; it carries a summary of each PR that
/// references it, in the order the PRs and their references come; and a
/// card that some PR references takes the column of the least advanced of
/// those PRs (the first one on ties), while any other card keeps its column.
pub open spec fn linked_from(old: Seq<Card>, new: Seq<Card>) -> bool {
    let ls = all_links(old, old.len() as int);
    &&& new.len() == old.len()
    &&& forall|i: int|
        #![trigger new[i]]
        0 <= i < old.len() ==> {
            let prs = links_to(ls, i);
            &&& new[i].owner == old[i].owner
            &&& new[i].repo == old[i].repo
            &&& new[i].source == old[i].source
            &&& new[i].priority == old[i].priority
            &&& !new[i].hidden
            &&& new[i].linked_prs@.len() == prs.len()
            &&& forall|k: int|
                0 <= k < prs.len() ==> #[trigger] summarises(new[i].linked_prs@[k], old[prs[k]])
            &&& new[i].column == (if prs.len() > 0 {
                old[best_pr(old, prs)].column
            } else {
                old[i].column
            })
        }
}

/// The PR chosen among `prs` is one of them, has the smallest sort order,
/// and every PR listed before it has a larger one.
proof fn lemma_best_pr_is_first_least(cards: Seq<Card>, prs: Seq<int>)
    requires
        prs.len() > 0,
    ensures
        exists|j: int|
            0 <= j < prs.len() && prs[j] == best_pr(cards, prs) && forall|m: int|
                0 <= m < j ==> cards[#[trigger] prs[m]].column.sort_order > cards[best_pr(
                    cards,
                    prs,
                )].column.sort_order,
        forall|k: int|
            0 <= k < prs.len() ==> cards[best_pr(cards, prs)].column.sort_order <= cards[#[trigger] prs[k]].column.sort_order,
    decreases prs.len(),
{
    if prs.len() > 1 {
        let d = prs.drop_last();
        lemma_best_pr_is_first_least(cards, d);
        let b = best_pr(cards, d);
        let j0 = choose|j: int|
            0 <= j < d.len() && d[j] == b && forall|m: int|
                0 <= m < j ==> cards[#[trigger] d[m]].column.sort_order > cards[b].column.sort_order;
        assert forall|k: int| 0 <= k < prs.len() implies cards[best_pr(cards, prs)].column.sort_order
            <= cards[#[trigger] prs[k]].column.sort_order by {
            if k < d.len() {
                assert(prs[k] == d[k]);
            }
        }
        if cards[prs.last()].column.sort_order < cards[b].column.sort_order {
            let j = prs.len() - 1;
            assert forall|m: int| 0 <= m < j implies cards[#[trigger] prs[m]].column.sort_order
                > cards[best_pr(cards, prs)].column.sort_order by {
                assert(prs[m] == d[m]);
            }
            assert(prs[j] == best_pr(cards, prs));
        } else {
            assert(prs[j0] == d[j0]);
            assert forall|m: int| 0 <= m < j0 implies cards[#[trigger] prs[m]].column.sort_order
                > cards[best_pr(cards, prs)].column.sort_order by {
                assert(prs[m] == d[m]);
            }
        }
    } else {
        assert forall|k: int| 0 <= k < prs.len() implies cards[best_pr(cards, prs)].column.sort_order
            <= cards[#[trigger] prs[k]].column.sort_order by {}
    }
}

/// An issue card that PRs link to takes the column of its least advanced
/// linked PR: its new column's sort order is no larger than that of any PR
/// summarised on it, and it is the column of one of them, the first such
/// on ties. A card no PR links to keeps its column.
pub proof fn law_issue_takes_least_advanced_pr_column(old: Seq<Card>, new: Seq<Card>, i: int)
    requires
        linked_from(old, new),
        0 <= i < new.len(),
    ensures
        forall|k: int|
            0 <= k < new[i].linked_prs@.len() ==> new[i].column.sort_order
                <= (#[trigger] new[i].linked_prs@[k]).column.sort_order,
        new[i].linked_prs@.len() > 0 ==> exists|k: int|
            0 <= k < new[i].linked_prs@.len() && new[i].column == (#[trigger] new[i].linked_prs@[k]).column
                && forall|m: int|
                0 <= m < k ==> (#[trigger] new[i].linked_prs@[m]).column.sort_order
                    > new[i].column.sort_order,
        new[i].linked_prs@.len() == 0 ==> new[i].column == old[i].column,
{
    let ls = all_links(old, old.len() as int);
    let prs = links_to(ls, i);
    let lp = new[i].linked_prs@;
    assert(lp.len() == prs.len());
    assert forall|k: int| 0 <= k < prs.len() implies (#[trigger] lp[k]).column == old[prs[k]].column by {
        assert(summarises(lp[k], old[prs[k]]));
    }
    if prs.len() > 0 {
        lemma_best_pr_is_first_least(old, prs);
        let b = best_pr(old, prs);
        assert(new[i].column == old[b].column);
        assert forall|k: int| 0 <= k < lp.len() implies new[i].column.sort_order
            <= (#[trigger] lp[k]).column.sort_order by {
            assert(lp[k].column == old[prs[k]].column);
        }
        let j = choose|j: int|
            0 <= j < prs.len() && prs[j] == b && forall|m: int|
                0 <= m < j ==> old[#[trigger] prs[m]].column.sort_order > old[b].column.sort_order;
        assert(lp[j].column == old[prs[j]].column);
        assert forall|m: int| 0 <= m < j implies (#[trigger] lp[m]).column.sort_order
            > new[i].column.sort_order by {
            assert(lp[m].column == old[prs[m]].column);
        }
    }
}

// ── Card linking ────────────────────────────────────────────────────

impl LinkedPr {
    /// A copy of this summary.
    pub fn copy(&self) -> (c: LinkedPr)
        ensures
            c.owner == self.owner,
            c.repo == self.repo,
            c.number == self.number,
            c.title == self.title,
            c.column == self.column,
            c.merged == self.merged,
            c.closed == self.closed,
            c.draft == self.draft,
            c.assignees@ == self.assignees@,
    {
        LinkedPr {
            owner: self.owner.clone(),
            repo: self.repo.clone(),
            number: self.number,
            title: self.title.clone(),
            column: self.column.copy(),
            merged: self.merged,
            closed: self.closed,
            draft: self.draft,
            assignees: crate::kardhub::models::copy_logins(&self.assignees),
        }
    }
}

/// The index of the first card of the issue that `r` names.
fn find_issue_card(cards: &Vec<Card>, r: &IssueRef) -> (res: Option<usize>)
    ensures
        match res {
            Some(i) => first_issue_card(cards@, ref_view(*r)) == Some(i as int),
            None => first_issue_card(cards@, ref_view(*r)) is None,
        },
{
    let mut i: usize = 0;
    while i < cards.len()
        invariant
            i <= cards.len(),
            first_issue_card(cards@.take(i as int), ref_view(*r)) is None,
        decreases cards.len() - i,
    {
        let c = &cards[i];
        let hit = match &c.source {
            CardSource::Issue(issue) => issue.number == r.number && str_eq(
                c.owner.as_str(),
                r.owner.as_str(),
            ) && str_eq(c.repo.as_str(), r.repo.as_str()),
            CardSource::PullRequest(_) => false,
        };
        assert(cards@.take(i + 1).drop_last() =~= cards@.take(i as int));
        if hit {
            proof {
                assert(is_issue_card_for(cards@.take(i + 1).last(), ref_view(*r)));
                assert(first_issue_card(cards@.take(i + 1), ref_view(*r)) == Some(i as int));
                lemma_first_issue_card_prefix(cards@, ref_view(*r), i + 1);
            }
            return Some(i);
        }
        i = i + 1;
    }
    assert(cards@.take(cards.len() as int) =~= cards@);
    None
}

/// A match found in a prefix is the match of the whole sequence.
proof fn lemma_first_issue_card_prefix(cards: Seq<Card>, r: RefView, n: int)
    requires
        0 <= n <= cards.len(),
        first_issue_card(cards.take(n), r) is Some,
    ensures
        first_issue_card(cards, r) == first_issue_card(cards.take(n), r),
    decreases cards.len() - n,
{
    if n < cards.len() {
        assert(cards.take(n + 1).drop_last() =~= cards.take(n));
        lemma_first_issue_card_prefix(cards, r, n + 1);
    } else {
        assert(cards.take(n) =~= cards);
    }
}

/// The links the PR card `p` makes, added to `targets` and `summaries`.
fn add_card_links(
    cards: &Vec<Card>,
    p: usize,
    targets: &mut Vec<usize>,
    summaries: &mut Vec<LinkedPr>,
    Ghost(before): Ghost<Seq<(int, int)>>,
)
    requires
        p < cards.len(),
        old(targets)@.len() == before.len(),
        old(summaries)@.len() == before.len(),
        forall|k: int|
            0 <= k < before.len() ==> #[trigger] old(targets)@[k] == before[k].0,
            forall|k: int| 0 <= k < before.len() ==> #[trigger] summarises(
                old(summaries)@[k],
                cards@[before[k].1],
            ),
    ensures
        ({
            let after = before + ref_links(cards@, card_refs(cards@[p as int]), p as int);
            &&& final(targets)@.len() == after.len()
            &&& final(summaries)@.len() == after.len()
            &&& forall|k: int|
                0 <= k < after.len() ==> #[trigger] final(targets)@[k] == after[k].0
            &&& forall|k: int| 0 <= k < after.len() ==> #[trigger] summarises(
                    final(summaries)@[k],
                    cards@[after[k].1],
                )
        }),
{
    let c = &cards[p];
    match &c.source {
        CardSource::Issue(_) => {
            assert(before + ref_links(cards@, card_refs(cards@[p as int]), p as int) =~= before);
        },
        CardSource::PullRequest(pr) => {
            let body = match &pr.body {
                Some(b) => b.clone(),
                None => String::new(),
            };
            let refs = parse_issue_refs(body.as_str(), c.owner.as_str(), c.repo.as_str());
            let ghost rv = ref_views(refs@);
            assert(rv == card_refs(cards@[p as int]));
            assert(rv.take(0) =~= Seq::<RefView>::empty());
            assert(before + ref_links(cards@, rv.take(0), p as int) =~= before);
            let mut j: usize = 0;
            while j < refs.len()
                invariant
                    j <= refs.len(),
                    p < cards.len(),
                    c == cards@[p as int],
                    c.source == CardSource::PullRequest(*pr),
                    rv == ref_views(refs@),
                    ({
                        let after = before + ref_links(cards@, rv.take(j as int), p as int);
                        &&& targets@.len() == after.len()
                        &&& summaries@.len() == after.len()
                        &&& forall|k: int|
                            0 <= k < after.len() ==> #[trigger] targets@[k] == after[k].0
                        &&& forall|k: int| 0 <= k < after.len() ==> #[trigger] summarises(
                                summaries@[k],
                                cards@[after[k].1],
                            )
                    }),
                decreases refs.len() - j,
            {
                let ghost prev = before + ref_links(cards@, rv.take(j as int), p as int);
                assert(rv.take(j + 1).drop_last() =~= rv.take(j as int));
                assert(rv.take(j + 1).last() == ref_view(refs@[j as int]));
                match find_issue_card(cards, &refs[j]) {
                    Some(i) => {
                        let lp = LinkedPr {
                            owner: c.owner.clone(),
                            repo: c.repo.clone(),
                            number: pr.number,
                            title: pr.title.clone(),
                            column: c.column.copy(),
                            merged: pr.merged,
                            closed: pr.closed,
                            draft: pr.draft,
                            assignees: crate::kardhub::models::copy_logins(&pr.assignees),
                        };
                        targets.push(i);
                        summaries.push(lp);
                        assert(ref_links(cards@, rv.take(j + 1), p as int) == ref_links(
                            cards@,
                            rv.take(j as int),
                            p as int,
                        ).push((i as int, p as int)));
                        assert(before + ref_links(cards@, rv.take(j + 1), p as int) =~= prev.push(
                            (i as int, p as int),
                        ));
                        assert forall|k: int|
                            0 <= k < prev.len() + 1 implies #[trigger] targets@[k] == prev.push(
                                (i as int, p as int),
                            )[k].0 by {
                            if k < prev.len() {
                                assert(prev.push((i as int, p as int))[k] == prev[k]);
                            }
                        }
                        assert forall|k: int|
                            0 <= k < prev.len() + 1 implies #[trigger] summarises(
                                summaries@[k],
                                cards@[prev.push((i as int, p as int))[k].1],
                            ) by {
                            if k < prev.len() {
                                assert(prev.push((i as int, p as int))[k] == prev[k]);
                            }
                        }
                    },
                    None => {
                        assert(before + ref_links(cards@, rv.take(j + 1), p as int) =~= prev);
                    },
                }
                j = j + 1;
            }
            assert(rv.take(refs.len() as int) =~= rv);
        },
    }
}

/// Post-process mapped cards to establish PR → Issue links.
///
/// For each PR card whose body contains issue references, the matching
/// issue card gains:
/// 1. A [`LinkedPr`] entry for display.
/// 2. A column override: the issue adopts the **lowest-progress**
///    (smallest `sort_order`) linked PR column. When multiple PRs link
///    to the same issue, the least-advanced PR determines the column.
pub fn link_cards(cards: &mut Vec<Card>)
    ensures
        linked_from(old(cards)@, final(cards)@),
        forall|i: int, k: int|
            0 <= i < final(cards)@.len() && 0 <= k < final(cards)@[i].linked_prs@.len()
                ==> (#[trigger] final(cards)@[i]).column.sort_order <= (
            #[trigger] final(cards)@[i].linked_prs@[k]).column.sort_order,
        forall|i: int|
            0 <= i < final(cards)@.len() && (#[trigger] final(cards)@[i]).linked_prs@.len() > 0
                ==> exists|k: int|
                0 <= k < final(cards)@[i].linked_prs@.len() && final(cards)@[i].column == (
                #[trigger] final(cards)@[i].linked_prs@[k]).column,
{
    let ghost old_cards = cards@;
    let n = cards.len();
    let ghost ls = all_links(old_cards, n as int);

    // Phase 1: scan PRs, parse refs, resolve against issue cards.
    let mut targets: Vec<usize> = Vec::new();
    let mut summaries: Vec<LinkedPr> = Vec::new();
    let mut p: usize = 0;
    while p < n
        invariant
            p <= n,
            n == cards.len(),
            cards@ == old_cards,
            targets@.len() == all_links(old_cards, p as int).len(),
            summaries@.len() == all_links(old_cards, p as int).len(),
            forall|k: int|
                0 <= k < all_links(old_cards, p as int).len() ==> #[trigger] targets@[k] == all_links(
                    old_cards,
                    p as int,
                )[k].0,
            forall|k: int| 0 <= k < all_links(old_cards, p as int).len() ==> #[trigger] summarises(
                    summaries@[k],
                    old_cards[all_links(old_cards, p as int)[k].1],
                ),
        decreases n - p,
    {
        add_card_links(cards, p, &mut targets, &mut summaries, Ghost(all_links(old_cards, p as int)));
        p = p + 1;
    }

    // Reset previous linking state so the function is idempotent.
    let mut i: usize = 0;
    while i < n
        invariant
            i <= n,
            n == cards.len(),
            n == old_cards.len(),
            forall|j: int|
                #![trigger cards@[j]]
                0 <= j < n ==> {
                    &&& cards@[j].owner == old_cards[j].owner
                    &&& cards@[j].repo == old_cards[j].repo
                    &&& cards@[j].source == old_cards[j].source
                    &&& cards@[j].priority == old_cards[j].priority
                    &&& cards@[j].column == old_cards[j].column
                    &&& (j < i ==> !cards@[j].hidden && cards@[j].linked_prs@.len() == 0)
                },
        decreases n - i,
    {
        cards[i].linked_prs = Vec::new();
        cards[i].hidden = false;
        i = i + 1;
    }

    // Phase 2: apply linked PR entries and track the best link per card.
    let mut best: Vec<Option<usize>> = Vec::new();
    let mut j: usize = 0;
    while j < n
        invariant
            j <= n,
            best@.len() == j,
            forall|q: int| 0 <= q < j ==> best@[q] is None,
        decreases n - j,
    {
        best.push(None);
        j = j + 1;
    }
    let total = targets.len();
    proof {
        lemma_links_in_range(old_cards, n as int);
    }
    let mut k: usize = 0;
    while k < total
        invariant
            k <= total,
            total == targets@.len(),
            total == summaries@.len(),
            total == ls.len(),
            ls == all_links(old_cards, n as int),
            n == cards.len(),
            n == old_cards.len(),
            best@.len() == n,
            forall|q: int|
                0 <= q < total ==> #[trigger] targets@[q] == ls[q].0,
            forall|q: int| 0 <= q < total ==> #[trigger] summarises(
                    summaries@[q],
                    old_cards[ls[q].1],
                ),
            forall|q: int| 0 <= q < total ==> 0 <= #[trigger] ls[q].0 < n && 0 <= ls[q].1 < n,
            forall|j: int|
                #![trigger cards@[j]]
                0 <= j < n ==> {
                    let prs = links_to(ls.take(k as int), j);
                    &&& cards@[j].owner == old_cards[j].owner
                    &&& cards@[j].repo == old_cards[j].repo
                    &&& cards@[j].source == old_cards[j].source
                    &&& cards@[j].priority == old_cards[j].priority
                    &&& cards@[j].column == old_cards[j].column
                    &&& !cards@[j].hidden
                    &&& cards@[j].linked_prs@.len() == prs.len()
                    &&& forall|m: int|
                        0 <= m < prs.len() ==> #[trigger] summarises(
                            cards@[j].linked_prs@[m],
                            old_cards[prs[m]],
                        )
                },
            forall|j: int|
                #![trigger best@[j]]
                0 <= j < n ==> {
                    let prs = links_to(ls.take(k as int), j);
                    &&& (best@[j] is None <==> prs.len() == 0)
                    &&& (best@[j] matches Some(b) ==> b < total && ls[b as int].1 == best_pr(
                        old_cards,
                        prs,
                    ))
                },
        decreases total - k,
    {
        let t = targets[k];
        let lp = summaries[k].copy();
        let ghost before = cards@;
        proof {
            assert(summarises(summaries@[k as int], old_cards[ls[k as int].1]));
            assert(targets@[k as int] == ls[k as int].0);
            assert(0 <= ls[k as int].0 < n);
            assert(summarises(lp, old_cards[ls[k as int].1]));
        }
        cards[t].linked_prs.push(lp);
        assert(cards@[t as int].linked_prs@ == before[t as int].linked_prs@.push(lp));
        assert(forall|j: int| 0 <= j < n && j != t ==> cards@[j] == before[j]);
        let ghost step = ls.take(k + 1);
        assert(step.drop_last() =~= ls.take(k as int));
        assert(step.last() == ls[k as int]);
        let ghost old_best = best@;
        let better = match best[t] {
            None => true,
            Some(b) => {
                proof {
                    assert(summarises(summaries@[b as int], old_cards[ls[b as int].1]));
                }
                summaries[k].column.sort_order < summaries[b].column.sort_order
            },
        };
        if better {
            best.set(t, Some(k));
        }
        assert forall|j: int|
            #![trigger cards@[j]]
            0 <= j < n implies {
                let prs = links_to(step, j);
                &&& cards@[j].owner == old_cards[j].owner
                &&& cards@[j].repo == old_cards[j].repo
                &&& cards@[j].source == old_cards[j].source
                &&& cards@[j].priority == old_cards[j].priority
                &&& cards@[j].column == old_cards[j].column
                &&& !cards@[j].hidden
                &&& cards@[j].linked_prs@.len() == prs.len()
                &&& forall|m: int|
                    0 <= m < prs.len() ==> #[trigger] summarises(
                        cards@[j].linked_prs@[m],
                        old_cards[prs[m]],
                    )
            } by {
            let prs0 = links_to(ls.take(k as int), j);
            if j == t {
                assert(links_to(step, j) =~= prs0.push(ls[k as int].1));
                assert forall|m: int| 0 <= m < prs0.len() + 1 implies #[trigger] summarises(
                    cards@[j].linked_prs@[m],
                    old_cards[prs0.push(ls[k as int].1)[m]],
                ) by {
                    if m < prs0.len() {
                        assert(cards@[j].linked_prs@[m] == before[j].linked_prs@[m]);
                    }
                }
            } else {
                assert(links_to(step, j) == prs0);
                assert(cards@[j] == before[j]);
            }
        }
        assert forall|j: int|
            #![trigger best@[j]]
            0 <= j < n implies {
                let prs = links_to(step, j);
                &&& (best@[j] is None <==> prs.len() == 0)
                &&& (best@[j] matches Some(b) ==> b < total && ls[b as int].1 == best_pr(
                    old_cards,
                    prs,
                ))
            } by {
            let prs0 = links_to(ls.take(k as int), j);
            if j == t {
                let prs1 = prs0.push(ls[k as int].1);
                assert(links_to(step, j) =~= prs1);
                assert(prs1.drop_last() =~= prs0);
                assert(prs1.last() == ls[k as int].1);
                if prs0.len() == 0 {
                    assert(old_best[j] is None);
                    assert(best_pr(old_cards, prs1) == prs1[0]);
                } else {
                    let b = old_best[j]->0;
                    assert(ls[b as int].1 == best_pr(old_cards, prs0));
                    assert(best_pr(old_cards, prs1) == (if old_cards[prs1.last()].column.sort_order
                        < old_cards[best_pr(old_cards, prs0)].column.sort_order {
                        prs1.last()
                    } else {
                        best_pr(old_cards, prs0)
                    }));
                }
            } else {
                assert(step.last().0 != j);
                assert(links_to(step, j) == prs0);
                assert(best@[j] == old_best[j]);
            }
        }
        k = k + 1;
    }
    assert(ls.take(total as int) =~= ls);

    // Phase 3: apply column overrides — the issue adopts the
    // lowest-progress PR column.
    let mut i: usize = 0;
    while i < n
        invariant
            i <= n,
            n == cards.len(),
            n == old_cards.len(),
            best@.len() == n,
            total == summaries@.len(),
            total == ls.len(),
            ls == all_links(old_cards, n as int),
            forall|q: int|
                0 <= q < total ==> #[trigger] summarises(summaries@[q], old_cards[ls[q].1]),
            forall|j: int|
                #![trigger best@[j]]
                0 <= j < n ==> {
                    let prs = links_to(ls, j);
                    &&& (best@[j] is None <==> prs.len() == 0)
                    &&& (best@[j] matches Some(b) ==> b < total && ls[b as int].1 == best_pr(
                        old_cards,
                        prs,
                    ))
                },
            forall|j: int|
                #![trigger cards@[j]]
                0 <= j < n ==> {
                    let prs = links_to(ls, j);
                    &&& cards@[j].owner == old_cards[j].owner
                    &&& cards@[j].repo == old_cards[j].repo
                    &&& cards@[j].source == old_cards[j].source
                    &&& cards@[j].priority == old_cards[j].priority
                    &&& !cards@[j].hidden
                    &&& cards@[j].linked_prs@.len() == prs.len()
                    &&& forall|m: int|
                        0 <= m < prs.len() ==> #[trigger] summarises(
                            cards@[j].linked_prs@[m],
                            old_cards[prs[m]],
                        )
                    &&& cards@[j].column == (if j < i && prs.len() > 0 {
                        old_cards[best_pr(old_cards, prs)].column
                    } else {
                        old_cards[j].column
                    })
                },
        decreases n - i,
    {
        match best[i] {
            Some(b) => {
                let col = summaries[b].column.copy();
                let ghost before = cards@;
                cards[i].column = col;
                assert(best@[i as int] == Some(b));
                assert(summarises(summaries@[b as int], old_cards[ls[b as int].1]));
                assert forall|j: int| #![trigger cards@[j]] 0 <= j < n && j != i implies cards@[j]
                    == before[j] by {}
            },
            None => {},
        }
        i = i + 1;
    }
    proof {
        let fin = cards@;
        assert forall|i: int, k: int|
            0 <= i < fin.len() && 0 <= k < fin[i].linked_prs@.len() implies (#[trigger] fin[i]).column.sort_order
                <= (#[trigger] fin[i].linked_prs@[k]).column.sort_order by {
            law_issue_takes_least_advanced_pr_column(old_cards, fin, i);
        }
        assert forall|i: int|
            0 <= i < fin.len() && (#[trigger] fin[i]).linked_prs@.len() > 0 implies exists|k: int|
                0 <= k < fin[i].linked_prs@.len() && fin[i].column == (
                #[trigger] fin[i].linked_prs@[k]).column by {
            law_issue_takes_least_advanced_pr_column(old_cards, fin, i);
        }
    }
}

/// Every link joins two cards of the sequence.
proof fn lemma_links_in_range(cards: Seq<Card>, n: int)
    requires
        0 <= n <= cards.len(),
    ensures
        forall|q: int|
            0 <= q < all_links(cards, n).len() ==> 0 <= #[trigger] all_links(cards, n)[q].0
                < cards.len() && 0 <= all_links(cards, n)[q].1 < cards.len(),
    decreases n,
{
    if n > 0 {
        lemma_links_in_range(cards, n - 1);
        lemma_ref_links_in_range(cards, card_refs(cards[n - 1]), n - 1);
        let a = all_links(cards, n - 1);
        let b = ref_links(cards, card_refs(cards[n - 1]), n - 1);
        assert(all_links(cards, n) == a + b);
        assert forall|q: int| 0 <= q < (a + b).len() implies 0 <= #[trigger] (a + b)[q].0
            < cards.len() && 0 <= (a + b)[q].1 < cards.len() by {
            if q < a.len() {
                assert((a + b)[q] == a[q]);
            } else {
                assert((a + b)[q] == b[q - a.len()]);
            }
        }
    }
}

/// The links of one PR card join cards of the sequence.
proof fn lemma_ref_links_in_range(cards: Seq<Card>, refs: Seq<RefView>, p: int)
    requires
        0 <= p < cards.len(),
    ensures
        forall|q: int|
            0 <= q < ref_links(cards, refs, p).len() ==> 0 <= #[trigger] ref_links(cards, refs, p)[q].0
                < cards.len() && ref_links(cards, refs, p)[q].1 == p,
    decreases refs.len(),
{
    if refs.len() > 0 {
        lemma_ref_links_in_range(cards, refs.drop_last(), p);
        lemma_first_issue_card_found(cards, refs.last());
        let l = ref_links(cards, refs.drop_last(), p);
        match first_issue_card(cards, refs.last()) {
            Some(i) => {
                assert(ref_links(cards, refs, p) == l.push((i, p)));
                assert forall|q: int| 0 <= q < l.len() + 1 implies 0 <= #[trigger] l.push((i, p))[q].0
                    < cards.len() && l.push((i, p))[q].1 == p by {
                    if q < l.len() {
                        assert(l.push((i, p))[q] == l[q]);
                    }
                }
            },
            None => {},
        }
    }
}

/// The card found for a reference is a card of that issue.
proof fn lemma_first_issue_card_found(cards: Seq<Card>, r: RefView)
    ensures
        first_issue_card(cards, r) matches Some(i) ==> 0 <= i < cards.len() && is_issue_card_for(
            cards[i],
            r,
        ),
    decreases cards.len(),
{
    if cards.len() > 0 {
        lemma_first_issue_card_found(cards.drop_last(), r);
    }
}

// ── Idempotence ─────────────────────────────────────────────────────

/// Two card sequences agree on what linking reads to find links: the
/// repository and the source of each card.
pub open spec fn same_identity(a: Seq<Card>, b: Seq<Card>) -> bool {
    &&& a.len() == b.len()
    &&& forall|i: int|
        0 <= i < a.len() ==> #[trigger] a[i].owner == b[i].owner && a[i].repo == b[i].repo
            && a[i].source == b[i].source
}

proof fn lemma_first_issue_card_same(a: Seq<Card>, b: Seq<Card>, r: RefView)
    requires
        same_identity(a, b),
    ensures
        first_issue_card(a, r) == first_issue_card(b, r),
    decreases a.len(),
{
    if a.len() > 0 {
        assert(same_identity(a.drop_last(), b.drop_last())) by {
            assert forall|i: int| 0 <= i < a.drop_last().len() implies #[trigger] a.drop_last()[i].owner
                == b.drop_last()[i].owner && a.drop_last()[i].repo == b.drop_last()[i].repo
                && a.drop_last()[i].source == b.drop_last()[i].source by {
                assert(a[i].owner == b[i].owner);
            }
        }
        lemma_first_issue_card_same(a.drop_last(), b.drop_last(), r);
        assert(a[a.len() - 1].owner == b[a.len() - 1].owner);
    }
}

proof fn lemma_ref_links_same(a: Seq<Card>, b: Seq<Card>, refs: Seq<RefView>, p: int)
    requires
        same_identity(a, b),
    ensures
        ref_links(a, refs, p) == ref_links(b, refs, p),
    decreases refs.len(),
{
    if refs.len() > 0 {
        lemma_ref_links_same(a, b, refs.drop_last(), p);
        lemma_first_issue_card_same(a, b, refs.last());
    }
}

proof fn lemma_all_links_same(a: Seq<Card>, b: Seq<Card>, n: int)
    requires
        same_identity(a, b),
        n <= a.len(),
    ensures
        all_links(a, n) == all_links(b, n),
    decreases n,
{
    if n > 0 {
        lemma_all_links_same(a, b, n - 1);
        assert(a[n - 1].owner == b[n - 1].owner);
        assert(card_refs(a[n - 1]) == card_refs(b[n - 1]));
        lemma_ref_links_same(a, b, card_refs(a[n - 1]), n - 1);
    }
}

/// Every link goes from a PR card to an issue card.
proof fn lemma_links_kinds(cards: Seq<Card>, n: int)
    requires
        0 <= n <= cards.len(),
    ensures
        forall|q: int|
            0 <= q < all_links(cards, n).len() ==> (#[trigger] cards[all_links(cards, n)[q].0].source
                is Issue) && (cards[all_links(cards, n)[q].1].source is PullRequest),
    decreases n,
{
    if n > 0 {
        lemma_links_kinds(cards, n - 1);
        lemma_links_in_range(cards, n);
        let a = all_links(cards, n - 1);
        let refs = card_refs(cards[n - 1]);
        let b = ref_links(cards, refs, n - 1);
        lemma_ref_links_kinds(cards, refs, n - 1);
        if cards[n - 1].source is Issue {
            assert(refs.len() == 0);
            assert(b =~= Seq::<(int, int)>::empty());
        }
        assert forall|q: int| 0 <= q < (a + b).len() implies (#[trigger] cards[(a + b)[q].0].source
            is Issue) && (cards[(a + b)[q].1].source is PullRequest) by {
            if q < a.len() {
                assert((a + b)[q] == a[q]);
            } else {
                assert((a + b)[q] == b[q - a.len()]);
            }
        }
    }
}

proof fn lemma_ref_links_kinds(cards: Seq<Card>, refs: Seq<RefView>, p: int)
    requires
        0 <= p < cards.len(),
    ensures
        forall|q: int|
            0 <= q < ref_links(cards, refs, p).len() ==> (#[trigger] cards[ref_links(
                cards,
                refs,
                p,
            )[q].0].source is Issue) && ref_links(cards, refs, p)[q].1 == p,
    decreases refs.len(),
{
    if refs.len() > 0 {
        lemma_ref_links_kinds(cards, refs.drop_last(), p);
        lemma_first_issue_card_found(cards, refs.last());
        let l = ref_links(cards, refs.drop_last(), p);
        match first_issue_card(cards, refs.last()) {
            Some(i) => {
                assert forall|q: int| 0 <= q < l.len() + 1 implies (#[trigger] cards[l.push(
                    (i, p),
                )[q].0].source is Issue) && l.push((i, p))[q].1 == p by {
                    if q < l.len() {
                        assert(l.push((i, p))[q] == l[q]);
                    }
                }
            },
            None => {},
        }
    }
}

/// The PRs linked to card `i` are among the links' PR ends, and a card that
/// no link targets has none.
proof fn lemma_links_to_members(ls: Seq<(int, int)>, i: int)
    ensures
        forall|m: int|
            0 <= m < links_to(ls, i).len() ==> exists|q: int|
                0 <= q < ls.len() && #[trigger] ls[q] == (i, #[trigger] links_to(ls, i)[m]),
    decreases ls.len(),
{
    if ls.len() > 0 {
        lemma_links_to_members(ls.drop_last(), i);
        let r = links_to(ls.drop_last(), i);
        assert forall|m: int| 0 <= m < links_to(ls, i).len() implies exists|q: int|
            0 <= q < ls.len() && #[trigger] ls[q] == (i, #[trigger] links_to(ls, i)[m]) by {
            if m < r.len() {
                let q = choose|q: int| 0 <= q < ls.drop_last().len() && #[trigger] ls.drop_last()[q] == (i, r[m]);
                if ls.last().0 == i {
                    assert(links_to(ls, i)[m] == r[m]);
                }
                assert(ls[q] == ls.drop_last()[q]);
            } else {
                assert(ls[ls.len() - 1] == ls.last());
            }
        }
    }
}

/// The best PR is one of the PRs, and it is decided by their columns' sort
/// orders alone.
proof fn lemma_best_pr(a: Seq<Card>, b: Seq<Card>, prs: Seq<int>)
    requires
        prs.len() > 0,
        forall|m: int|
            0 <= m < prs.len() ==> a[#[trigger] prs[m]].column.sort_order == b[prs[m]].column.sort_order,
    ensures
        best_pr(a, prs) == best_pr(b, prs),
        exists|m: int| 0 <= m < prs.len() && prs[m] == best_pr(a, prs),
    decreases prs.len(),
{
    if prs.len() > 1 {
        assert forall|m: int| 0 <= m < prs.drop_last().len() implies a[#[trigger] prs.drop_last()[m]].column.sort_order
            == b[prs.drop_last()[m]].column.sort_order by {
            assert(prs.drop_last()[m] == prs[m]);
        }
        lemma_best_pr(a, b, prs.drop_last());
        let m0 = choose|m: int| 0 <= m < prs.drop_last().len() && prs.drop_last()[m] == best_pr(a, prs.drop_last());
        assert(prs[m0] == prs.drop_last()[m0]);
        assert(a[prs[m0]].column.sort_order == b[prs[m0]].column.sort_order);
        assert(a[prs[prs.len() - 1]].column.sort_order == b[prs[prs.len() - 1]].column.sort_order);
    } else {
        assert(prs[0] == best_pr(a, prs));
    }
}

/// Linking is idempotent: linking the cards that linking produced gives
/// what linking the input cards gives.
pub proof fn law_link_cards_idempotent(old: Seq<Card>, mid: Seq<Card>, new: Seq<Card>)
    requires
        linked_from(old, mid),
        linked_from(mid, new),
    ensures
        linked_from(old, new),
{
    let n = old.len() as int;
    assert(same_identity(old, mid)) by {
        assert forall|i: int| 0 <= i < old.len() implies #[trigger] old[i].owner == mid[i].owner
            && old[i].repo == mid[i].repo && old[i].source == mid[i].source by {
            assert(mid[i].owner == old[i].owner);
        }
    }
    lemma_all_links_same(old, mid, n);
    let ls = all_links(old, n);
    lemma_links_kinds(old, n);
    lemma_links_in_range(old, n);
    // A PR card is never linked to, so linking keeps its column.
    assert forall|p: int| 0 <= p < n && (#[trigger] old[p].source is PullRequest) implies mid[p].column
        == old[p].column by {
        assert(mid[p].owner == old[p].owner);
        if links_to(ls, p).len() > 0 {
            lemma_links_to_members(ls, p);
            let q = choose|q: int| 0 <= q < ls.len() && #[trigger] ls[q] == (p, links_to(ls, p)[0]);
            assert(old[ls[q].0].source is Issue);
        }
    }
    assert forall|i: int| #![trigger new[i]] 0 <= i < old.len() implies {
        let prs = links_to(ls, i);
        &&& new[i].owner == old[i].owner
        &&& new[i].repo == old[i].repo
        &&& new[i].source == old[i].source
        &&& new[i].priority == old[i].priority
        &&& !new[i].hidden
        &&& new[i].linked_prs@.len() == prs.len()
        &&& forall|k: int| 0 <= k < prs.len() ==> #[trigger] summarises(new[i].linked_prs@[k], old[prs[k]])
        &&& new[i].column == (if prs.len() > 0 {
            old[best_pr(old, prs)].column
        } else {
            old[i].column
        })
    } by {
        let prs = links_to(ls, i);
        assert(mid[i].owner == old[i].owner);
        lemma_links_to_members(ls, i);
        assert forall|m: int| 0 <= m < prs.len() implies (#[trigger] old[prs[m]].source is PullRequest)
            && 0 <= prs[m] < n && mid[prs[m]].column == old[prs[m]].column by {
            let q = choose|q: int| 0 <= q < ls.len() && #[trigger] ls[q] == (i, prs[m]);
            assert(0 <= ls[q].0 < n);
            assert(old[ls[q].0].source is Issue);
            assert(old[ls[q].1].source is PullRequest);
            assert(0 <= ls[q].1 < n);
        }
        assert forall|k: int| 0 <= k < prs.len() implies #[trigger] summarises(new[i].linked_prs@[k], old[prs[k]]) by {
            assert(summarises(new[i].linked_prs@[k], mid[prs[k]]));
            assert(old[prs[k]].source is PullRequest);
            assert(mid[prs[k]].owner == old[prs[k]].owner);
        }
        if prs.len() > 0 {
            assert forall|m: int| 0 <= m < prs.len() implies mid[#[trigger] prs[m]].column.sort_order
                == old[prs[m]].column.sort_order by {
                assert(old[prs[m]].source is PullRequest);
            }
            lemma_best_pr(mid, old, prs);
            let m0 = choose|m: int| 0 <= m < prs.len() && prs[m] == best_pr(mid, prs);
            assert(old[prs[m0]].source is PullRequest);
        }
    }
}

} // verus!
