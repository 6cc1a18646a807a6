//! What the detail panel and the new-issue panel decide: whether an item
//! can be edited, its GitHub address, which labels are priorities, the
//! label list a new priority leaves, the review requests still open, and
//! which labels and assignees the new-issue panel offers.
use vstd::prelude::*;

use crate::kardhub::extension::has_content;
use crate::kardhub::models::{Card, CardSource, IssueState, Label, Priority, PullRequest, Review, ReviewState};
use crate::labels::priority_of_label;
use crate::text::{
    concat_str, contains_seq, contains_str, copy_str, decimal, is_whitespace, str_eq, to_lowercase,
    u64_to_decimal, unicode_lowercase, unicode_whitespace, views,
};

verus! {

// ── The item ────────────────────────────────────────────────────────

/// The item is open: an open issue, or a pull request neither merged nor
/// closed.
pub open spec fn item_open(card: Card) -> bool {
    match card.source {
        CardSource::Issue(i) => i.state == IssueState::Open,
        CardSource::PullRequest(p) => !p.merged && !p.closed,
    }
}

/// Determine if the item is open (editable).
pub fn is_open(card: &Card) -> (b: bool)
    ensures
        b == item_open(*card),
{
    match &card.source {
        CardSource::Issue(i) => match i.state {
            IssueState::Open => true,
            IssueState::Closed => false,
        },
        CardSource::PullRequest(pr) => !pr.merged && !pr.closed,
    }
}

/// The user may edit the body: the item is open and is an issue, or a pull
/// request the user wrote or is assigned to.
pub open spec fn body_editable(card: Card, user: Seq<char>) -> bool {
    item_open(card) && match card.source {
        CardSource::Issue(_) => true,
        CardSource::PullRequest(p) => p.author@ == user || views(p.assignees@).contains(user),
    }
}

/// Permission: can the user edit the body?
pub fn can_edit_body(card: &Card, user_login: &str) -> (b: bool)
    ensures
        b == body_editable(*card, user_login@),
{
    if !is_open(card) {
        return false;
    }
    match &card.source {
        CardSource::Issue(_) => true,
        CardSource::PullRequest(pr) => {
            if str_eq(pr.author.as_str(), user_login) {
                return true;
            }
            let mut i: usize = 0;
            while i < pr.assignees.len()
                invariant
                    i <= pr.assignees.len(),
                    item_open(*card),
                    card.source == CardSource::PullRequest(*pr),
                    forall|k: int| 0 <= k < i ==> (#[trigger] pr.assignees@[k])@ != user_login@,
                decreases pr.assignees.len() - i,
            {
                if str_eq(pr.assignees[i].as_str(), user_login) {
                    assert(views(pr.assignees@).len() == pr.assignees@.len());
                    assert(views(pr.assignees@)[i as int] == user_login@);
                    assert(views(pr.assignees@).contains(user_login@));
                    return true;
                }
                i = i + 1;
            }
            assert forall|k: int| 0 <= k < views(pr.assignees@).len() implies views(pr.assignees@)[k]
                != user_login@ by {
                assert(views(pr.assignees@)[k] == pr.assignees@[k]@);
            }
            false
        },
    }
}

/// The panel's heading for the item's kind.
pub fn type_label(card: &Card) -> (s: &'static str)
    ensures
        s@ == match card.source {
            CardSource::Issue(_) => "Issue"@,
            CardSource::PullRequest(_) => "Pull Request"@,
        },
{
    match &card.source {
        CardSource::Issue(_) => "Issue",
        CardSource::PullRequest(_) => "Pull Request",
    }
}

/// The GitHub address of the item:
/// `https://github.com/{owner}/{repo}/{issues|pull}/{number}`.
pub open spec fn item_url(owner: Seq<char>, repo: Seq<char>, is_pr: bool, number: u64) -> Seq<char> {
    "https://github.com/"@ + owner + "/"@ + repo + "/"@ + (if is_pr {
        "pull"@
    } else {
        "issues"@
    }) + "/"@ + decimal(number as nat)
}

/// GitHub URL for an issue or PR.
pub fn github_url(owner: &str, repo: &str, is_pr: bool, number: u64) -> (url: String)
    ensures
        url@ == item_url(owner@, repo@, is_pr, number),
{
    let a = concat_str("https://github.com/", owner);
    let b = concat_str(a.as_str(), "/");
    let c = concat_str(b.as_str(), repo);
    let d = concat_str(c.as_str(), "/");
    let e = concat_str(d.as_str(), if is_pr { "pull" } else { "issues" });
    let f = concat_str(e.as_str(), "/");
    let n = u64_to_decimal(number);
    concat_str(f.as_str(), n.as_str())
}

// ── Labels ──────────────────────────────────────────────────────────

/// The labels that are not priority labels, in order.
pub open spec fn non_priority_labels(labels: Seq<Label>) -> Seq<Label> {
    labels.filter(|l: Label| priority_of_label(l.name@) is None)
}

/// The names of the priority labels, in order.
pub open spec fn priority_label_names(labels: Seq<Label>) -> Seq<Seq<char>> {
    labels.filter(|l: Label| priority_of_label(l.name@) is Some).map_values(|l: Label| l.name@)
}

/// Filter out priority labels for display.
pub fn display_labels(labels: &Vec<Label>) -> (out: Vec<Label>)
    ensures
        out@ == non_priority_labels(labels@),
{
    let ghost pred = |l: Label| priority_of_label(l.name@) is None;
    let mut out: Vec<Label> = Vec::new();
    let mut i: usize = 0;
    proof {
        reveal(Seq::filter);
        assert(labels@.take(0) =~= Seq::<Label>::empty());
    }
    while i < labels.len()
        invariant
            i <= labels.len(),
            pred == (|l: Label| priority_of_label(l.name@) is None),
            out@ == labels@.take(i as int).filter(pred),
        decreases labels.len() - i,
    {
        assert(labels@.take(i + 1) =~= labels@.take(i as int).push(labels@[i as int]));
        proof {
            labels@.take(i as int).lemma_filter_push(labels@[i as int], pred);
        }
        if Priority::from_label(labels[i].name.as_str()).is_none() {
            out.push(Label { name: labels[i].name.clone(), color: labels[i].color.clone() });
        }
        i = i + 1;
    }
    assert(labels@.take(labels.len() as int) =~= labels@);
    out
}

/// The names of the priority labels (kept when the labels are saved).
pub fn priority_names(labels: &Vec<Label>) -> (out: Vec<String>)
    ensures
        views(out@) == priority_label_names(labels@),
{
    let ghost pred = |l: Label| priority_of_label(l.name@) is Some;
    let mut out: Vec<String> = Vec::new();
    let mut i: usize = 0;
    proof {
        reveal(Seq::filter);
        assert(labels@.take(0) =~= Seq::<Label>::empty());
        assert(views(out@) =~= Seq::<Seq<char>>::empty());
    }
    while i < labels.len()
        invariant
            i <= labels.len(),
            pred == (|l: Label| priority_of_label(l.name@) is Some),
            views(out@) == labels@.take(i as int).filter(pred).map_values(|l: Label| l.name@),
        decreases labels.len() - i,
    {
        assert(labels@.take(i + 1) =~= labels@.take(i as int).push(labels@[i as int]));
        proof {
            labels@.take(i as int).lemma_filter_push(labels@[i as int], pred);
        }
        let ghost before = out@;
        if Priority::from_label(labels[i].name.as_str()).is_some() {
            out.push(labels[i].name.clone());
            assert(views(out@) =~= views(before).push(labels@[i as int].name@));
            assert(labels@.take(i as int).filter(pred).push(labels@[i as int]).map_values(|l: Label| l.name@)
                =~= labels@.take(i as int).filter(pred).map_values(|l: Label| l.name@).push(
                labels@[i as int].name@,
            ));
        }
        i = i + 1;
    }
    assert(labels@.take(labels.len() as int) =~= labels@);
    out
}

/// `s` without adjacent repeats (`Vec::dedup`): each run of equal items
/// keeps its first.
pub open spec fn dedup_adjacent(s: Seq<Seq<char>>) -> Seq<Seq<char>>
    decreases s.len(),
{
    if s.len() <= 1 {
        s
    } else {
        let r = dedup_adjacent(s.drop_last());
        if s.last() == s[s.len() - 2] {
            r
        } else {
            r.push(s.last())
        }
    }
}

/// The label list saved when the priority is set to `#p`: the selected
/// labels and `#p`, without any of the old priority labels, then `#p`
/// again, with adjacent repeats removed.
pub open spec fn relabelled(selected: Seq<Seq<char>>, old_priorities: Seq<Seq<char>>, p: u8) -> Seq<Seq<char>> {
    let tag = "#"@ + decimal(p as nat);
    let kept = selected.push(tag).filter(|l: Seq<char>| !old_priorities.contains(l));
    dedup_adjacent(kept.push(tag))
}

/// Build the updated label list for a new priority: remove the old
/// priority labels, add the new one.
pub fn labels_with_priority(selected: &Vec<String>, old_priorities: &Vec<String>, p: u8) -> (out: Vec<String>)
    ensures
        views(out@) == relabelled(views(selected@), views(old_priorities@), p),
{
    let n = u64_to_decimal(p as u64);
    let tag = concat_str("#", n.as_str());
    let ghost all = views(selected@).push(tag@);
    let ghost olds = views(old_priorities@);
    let ghost pred = |l: Seq<char>| !olds.contains(l);
    let mut items: Vec<String> = crate::text::copy_strings(selected);
    items.push(tag.clone());
    assert(views(items@) =~= all);
    // Keep the labels that are none of the old priorities.
    let mut kept: Vec<String> = Vec::new();
    let mut i: usize = 0;
    proof {
        reveal(Seq::filter);
        assert(all.take(0) =~= Seq::<Seq<char>>::empty());
        assert(views(kept@) =~= Seq::<Seq<char>>::empty());
    }
    while i < items.len()
        invariant
            i <= items.len(),
            views(items@) == all,
            olds == views(old_priorities@),
            pred == (|l: Seq<char>| !olds.contains(l)),
            views(kept@) == all.take(i as int).filter(pred),
        decreases items.len() - i,
    {
        assert(all.take(i + 1) =~= all.take(i as int).push(all[i as int]));
        assert(all[i as int] == items@[i as int]@);
        proof {
            all.take(i as int).lemma_filter_push(all[i as int], pred);
        }
        let mut is_old = false;
        let mut j: usize = 0;
        while j < old_priorities.len()
            invariant
                j <= old_priorities.len(),
                olds == views(old_priorities@),
                i < items.len(),
                is_old == exists|k: int| 0 <= k < j && (#[trigger] olds[k]) == items@[i as int]@,
            decreases old_priorities.len() - j,
        {
            if str_eq(old_priorities[j].as_str(), items[i].as_str()) {
                is_old = true;
            }
            assert(olds[j as int] == old_priorities@[j as int]@);
            j = j + 1;
        }
        let ghost before = kept@;
        if !is_old {
            kept.push(items[i].clone());
            assert(views(kept@) =~= views(before).push(items@[i as int]@));
        }
        i = i + 1;
    }
    assert(all.take(all.len() as int) =~= all);
    let ghost pushed = all.filter(pred).push(tag@);
    kept.push(tag);
    assert(views(kept@) =~= pushed);
    // Remove adjacent repeats.
    let mut out: Vec<String> = Vec::new();
    let mut k: usize = 0;
    assert(pushed.take(0) =~= Seq::<Seq<char>>::empty());
    assert(views(out@) =~= Seq::<Seq<char>>::empty());
    while k < kept.len()
        invariant
            k <= kept.len(),
            views(kept@) == pushed,
            views(out@) == dedup_adjacent(pushed.take(k as int)),
            k > 0 ==> views(out@).len() > 0 && views(out@).last() == pushed[k - 1],
        decreases kept.len() - k,
    {
        assert(pushed.take(k + 1).drop_last() =~= pushed.take(k as int));
        assert(pushed.take(k + 1).last() == kept@[k as int]@);
        let ghost before = out@;
        if k == 0 || !str_eq(kept[k].as_str(), kept[k - 1].as_str()) {
            out.push(kept[k].clone());
            assert(views(out@) =~= views(before).push(kept@[k as int]@));
        } else {
            assert(pushed.take(k + 1)[k - 1] == pushed[k - 1]);
        }
        proof {
            lemma_dedup_nonempty_last(pushed.take(k + 1));
        }
        k = k + 1;
    }
    assert(pushed.take(kept.len() as int) =~= pushed);
    out
}

/// The last item survives adjacent deduplication.
proof fn lemma_dedup_nonempty_last(s: Seq<Seq<char>>)
    requires
        s.len() > 0,
    ensures
        dedup_adjacent(s).len() > 0,
        dedup_adjacent(s).last() == s.last(),
    decreases s.len(),
{
    if s.len() > 1 {
        lemma_dedup_nonempty_last(s.drop_last());
        assert(s.drop_last().last() == s[s.len() - 2]);
    }
}

// ── Review requests ──────────────────────────────────────────────────────

/// Some review was submitted by `login`.
pub open spec fn reviewed_by(reviews: Seq<Review>, login: Seq<char>) -> bool {
    exists|i: int| 0 <= i < reviews.len() && (#[trigger] reviews[i]).user.login@ == login
}

/// The users asked for a review who have not submitted one yet, in order.
pub open spec fn pending_reviewer_list(pr: PullRequest) -> Seq<String> {
    pr.requested_reviewers@.filter(|l: String| !reviewed_by(pr.reviews@, l@))
}

/// Review requests still open (requested, not yet submitted).
pub fn pending_reviewers(pr: &PullRequest) -> (out: Vec<String>)
    ensures
        out@ == pending_reviewer_list(*pr),
{
    let ghost pred = |l: String| !reviewed_by(pr.reviews@, l@);
    let ghost req = pr.requested_reviewers@;
    let mut out: Vec<String> = Vec::new();
    let mut i: usize = 0;
    proof {
        reveal(Seq::filter);
        assert(req.take(0) =~= Seq::<String>::empty());
    }
    while i < pr.requested_reviewers.len()
        invariant
            i <= req.len(),
            req == pr.requested_reviewers@,
            pred == (|l: String| !reviewed_by(pr.reviews@, l@)),
            out@ == req.take(i as int).filter(pred),
        decreases req.len() - i,
    {
        assert(req.take(i + 1) =~= req.take(i as int).push(req[i as int]));
        proof {
            req.take(i as int).lemma_filter_push(req[i as int], pred);
        }
        let login = &pr.requested_reviewers[i];
        let mut seen = false;
        let mut j: usize = 0;
        while j < pr.reviews.len()
            invariant
                j <= pr.reviews.len(),
                seen == exists|k: int| 0 <= k < j && (#[trigger] pr.reviews@[k]).user.login@ == login@,
            decreases pr.reviews.len() - j,
        {
            if str_eq(pr.reviews[j].user.login.as_str(), login.as_str()) {
                seen = true;
            }
            j = j + 1;
        }
        if !seen {
            out.push(login.clone());
        }
        i = i + 1;
    }
    assert(req.take(req.len() as int) =~= req);
    out
}

/// Every review approves, and there is at least one.
pub open spec fn approved_by_all(reviews: Seq<Review>) -> bool {
    reviews.len() > 0 && forall|i: int| 0 <= i < reviews.len() ==> (#[trigger] reviews[i]).state == ReviewState::Approved
}

/// Whether the CI status is shown: every review approves.
pub fn all_approved(reviews: &Vec<Review>) -> (b: bool)
    ensures
        b == approved_by_all(reviews@),
{
    if reviews.len() == 0 {
        return false;
    }
    let mut i: usize = 0;
    while i < reviews.len()
        invariant
            i <= reviews.len(),
            forall|k: int| 0 <= k < i ==> (#[trigger] reviews@[k]).state == ReviewState::Approved,
        decreases reviews.len() - i,
    {
        match reviews[i].state {
            ReviewState::Approved => {},
            _ => {
                return false;
            },
        }
        i = i + 1;
    }
    true
}

// ── New-issue panel ─────────────────────────────────────────────────

/// The number of leading white-space characters of `s`.
pub open spec fn leading_ws(s: Seq<char>) -> nat
    decreases s.len(),
{
    if s.len() > 0 && unicode_whitespace(s[0]) {
        1 + leading_ws(s.drop_first())
    } else {
        0
    }
}

/// The number of trailing white-space characters of `s`.
pub open spec fn trailing_ws(s: Seq<char>) -> nat
    decreases s.len(),
{
    if s.len() > 0 && unicode_whitespace(s.last()) {
        1 + trailing_ws(s.drop_last())
    } else {
        0
    }
}

/// `s` without leading and trailing white space (`str::trim`).
pub open spec fn trimmed(s: Seq<char>) -> Seq<char> {
    let t = s.skip(leading_ws(s) as int);
    t.take(t.len() - trailing_ws(t))
}

/// A label name that reads as a priority: once trimmed, `#` followed by
/// ASCII digits only.
pub open spec fn priority_like(name: Seq<char>) -> bool {
    let t = trimmed(name);
    t.len() > 0 && t[0] == '#' && forall|i: int| 1 <= i < t.len() ==> '0' <= #[trigger] t[i] && t[i] <= '9'
}

proof fn lemma_leading_ws(s: Seq<char>)
    ensures
        leading_ws(s) <= s.len(),
        forall|i: int| 0 <= i < leading_ws(s) ==> unicode_whitespace(#[trigger] s[i]),
        leading_ws(s) < s.len() ==> !unicode_whitespace(s[leading_ws(s) as int]),
    decreases s.len(),
{
    if s.len() > 0 && unicode_whitespace(s[0]) {
        lemma_leading_ws(s.drop_first());
        assert forall|i: int| 0 <= i < leading_ws(s) implies unicode_whitespace(#[trigger] s[i]) by {
            if i > 0 {
                assert(s[i] == s.drop_first()[i - 1]);
            }
        }
    }
}

proof fn lemma_trailing_ws(s: Seq<char>)
    ensures
        trailing_ws(s) <= s.len(),
        forall|i: int| s.len() - trailing_ws(s) <= i < s.len() ==> unicode_whitespace(#[trigger] s[i]),
        trailing_ws(s) < s.len() ==> !unicode_whitespace(s[s.len() - trailing_ws(s) - 1]),
    decreases s.len(),
{
    if s.len() > 0 && unicode_whitespace(s.last()) {
        lemma_trailing_ws(s.drop_last());
        assert forall|i: int| s.len() - trailing_ws(s) <= i < s.len() implies unicode_whitespace(
            #[trigger] s[i],
        ) by {
            if i < s.len() - 1 {
                assert(s[i] == s.drop_last()[i]);
            }
        }
    }
}

/// Characterizes the number of leading white-space characters.
proof fn lemma_leading_ws_is(s: Seq<char>, n: int)
    requires
        0 <= n <= s.len(),
        forall|i: int| 0 <= i < n ==> unicode_whitespace(#[trigger] s[i]),
        n < s.len() ==> !unicode_whitespace(s[n]),
    ensures
        leading_ws(s) == n,
    decreases n,
{
    if n > 0 {
        assert(unicode_whitespace(s[0]));
        assert forall|i: int| 0 <= i < n - 1 implies unicode_whitespace(#[trigger] s.drop_first()[i]) by {
            assert(s.drop_first()[i] == s[i + 1]);
        }
        if n - 1 < s.len() - 1 {
            assert(s.drop_first()[n - 1] == s[n]);
        }
        lemma_leading_ws_is(s.drop_first(), n - 1);
    }
}

/// Characterizes the number of trailing white-space characters.
proof fn lemma_trailing_ws_is(s: Seq<char>, n: int)
    requires
        0 <= n <= s.len(),
        forall|i: int| s.len() - n <= i < s.len() ==> unicode_whitespace(#[trigger] s[i]),
        n < s.len() ==> !unicode_whitespace(s[s.len() - n - 1]),
    ensures
        trailing_ws(s) == n,
    decreases n,
{
    if n > 0 {
        assert(unicode_whitespace(s[s.len() - 1]));
        assert forall|i: int| s.drop_last().len() - (n - 1) <= i < s.drop_last().len() implies unicode_whitespace(
            #[trigger] s.drop_last()[i],
        ) by {
            assert(s.drop_last()[i] == s[i]);
        }
        if n - 1 < s.len() - 1 {
            assert(s.drop_last()[s.drop_last().len() - (n - 1) - 1] == s[s.len() - n - 1]);
        }
        lemma_trailing_ws_is(s.drop_last(), n - 1);
    }
}

/// Whether a label name reads as a priority label (`#N` once trimmed).
pub fn is_priority_like(name: &str) -> (b: bool)
    ensures
        b == priority_like(name@),
{
    let cs = crate::text::chars_of(name);
    let mut a: usize = 0;
    while a < cs.len() && is_whitespace(cs[a])
        invariant
            a <= cs.len(),
            cs@ == name@,
            forall|i: int| 0 <= i < a ==> unicode_whitespace(#[trigger] name@[i]),
        decreases cs.len() - a,
    {
        a = a + 1;
    }
    proof {
        lemma_leading_ws_is(name@, a as int);
    }
    let ghost t = name@.skip(a as int);
    let mut b: usize = cs.len();
    while b > a && is_whitespace(cs[b - 1])
        invariant
            a <= b <= cs.len(),
            cs@ == name@,
            t == name@.skip(a as int),
            forall|i: int| b <= i < cs.len() ==> unicode_whitespace(#[trigger] name@[i]),
        decreases b - a,
    {
        b = b - 1;
    }
    proof {
        assert forall|i: int| t.len() - (cs.len() - b) <= i < t.len() implies unicode_whitespace(#[trigger] t[i]) by {
            assert(t[i] == name@[i + a]);
        }
        if b > a {
            assert(t[t.len() - (cs.len() - b) - 1] == name@[b - 1]);
        }
        lemma_trailing_ws_is(t, cs.len() - b);
    }
    let ghost tt = trimmed(name@);
    assert(tt =~= name@.subrange(a as int, b as int));
    if b > a {
        assert(tt[0] == cs@[a as int]);
    }
    if b == a || cs[a] != '#' {
        return false;
    }
    let mut i: usize = a + 1;
    while i < b
        invariant
            a < i <= b <= cs.len(),
            cs@ == name@,
            tt == trimmed(name@),
            tt.len() > 0 && tt[0] == '#',
            tt =~= name@.subrange(a as int, b as int),
            forall|k: int| 1 <= k < i - a ==> '0' <= #[trigger] tt[k] && tt[k] <= '9',
        decreases b - i,
    {
        if !('0' <= cs[i] && cs[i] <= '9') {
            assert(tt[i - a] == cs@[i as int]);
            return false;
        }
        assert(tt[i - a] == cs@[i as int]);
        i = i + 1;
    }
    true
}

/// The labels the new-issue panel offers: those that do not read as
/// priorities, in order.
pub open spec fn offered_labels(labels: Seq<Label>) -> Seq<Label> {
    labels.filter(|l: Label| !priority_like(l.name@))
}

/// Filter labels: exclude `#N` priority labels.
pub fn visible_labels(labels: &Vec<Label>) -> (out: Vec<Label>)
    ensures
        out@ == offered_labels(labels@),
{
    let ghost pred = |l: Label| !priority_like(l.name@);
    let mut out: Vec<Label> = Vec::new();
    let mut i: usize = 0;
    proof {
        reveal(Seq::filter);
        assert(labels@.take(0) =~= Seq::<Label>::empty());
    }
    while i < labels.len()
        invariant
            i <= labels.len(),
            pred == (|l: Label| !priority_like(l.name@)),
            out@ == labels@.take(i as int).filter(pred),
        decreases labels.len() - i,
    {
        assert(labels@.take(i + 1) =~= labels@.take(i as int).push(labels@[i as int]));
        proof {
            labels@.take(i as int).lemma_filter_push(labels@[i as int], pred);
        }
        if !is_priority_like(labels[i].name.as_str()) {
            out.push(Label { name: labels[i].name.clone(), color: labels[i].color.clone() });
        }
        i = i + 1;
    }
    assert(labels@.take(labels.len() as int) =~= labels@);
    out
}

/// The labels still offered once some are chosen: those not chosen whose
/// lower-cased name holds the lower-cased filter (any, for an empty one).
pub open spec fn available_label_list(visible: Seq<Label>, chosen: Seq<Seq<char>>, filter: Seq<char>) -> Seq<Label> {
    visible.filter(
        |l: Label|
            !chosen.contains(l.name@) && (unicode_lowercase(filter).len() == 0 || contains_seq(
                unicode_lowercase(l.name@),
                unicode_lowercase(filter),
            )),
    )
}

/// Compute available (unselected) labels, filtered by the search input.
pub fn available_labels(visible: &Vec<Label>, chosen: &Vec<String>, filter: &str) -> (out: Vec<Label>)
    ensures
        out@ == available_label_list(visible@, views(chosen@), filter@),
{
    let ghost ch = views(chosen@);
    let ghost f = filter@;
    let ghost pred = |l: Label|
        !ch.contains(l.name@) && (unicode_lowercase(f).len() == 0 || contains_seq(
            unicode_lowercase(l.name@),
            unicode_lowercase(f),
        ));
    let filter_lower = to_lowercase(filter);
    let mut out: Vec<Label> = Vec::new();
    let mut i: usize = 0;
    proof {
        reveal(Seq::filter);
        assert(visible@.take(0) =~= Seq::<Label>::empty());
    }
    while i < visible.len()
        invariant
            i <= visible.len(),
            ch == views(chosen@),
            f == filter@,
            filter_lower@ == unicode_lowercase(f),
            pred == (|l: Label|
                !ch.contains(l.name@) && (unicode_lowercase(f).len() == 0 || contains_seq(
                    unicode_lowercase(l.name@),
                    unicode_lowercase(f),
                ))),
            out@ == visible@.take(i as int).filter(pred),
        decreases visible.len() - i,
    {
        assert(visible@.take(i + 1) =~= visible@.take(i as int).push(visible@[i as int]));
        proof {
            visible@.take(i as int).lemma_filter_push(visible@[i as int], pred);
        }
        let label = &visible[i];
        let mut taken = false;
        let mut j: usize = 0;
        while j < chosen.len()
            invariant
                j <= chosen.len(),
                ch == views(chosen@),
                taken == exists|k: int| 0 <= k < j && (#[trigger] ch[k]) == label.name@,
            decreases chosen.len() - j,
        {
            if str_eq(chosen[j].as_str(), label.name.as_str()) {
                taken = true;
            }
            assert(ch[j as int] == chosen@[j as int]@);
            j = j + 1;
        }
        let matches = if filter_lower.unicode_len() == 0 {
            true
        } else {
            let name_lower = to_lowercase(label.name.as_str());
            contains_str(name_lower.as_str(), filter_lower.as_str())
        };
        if !taken && matches {
            out.push(Label { name: label.name.clone(), color: label.color.clone() });
        }
        i = i + 1;
    }
    assert(visible@.take(visible.len() as int) =~= visible@);
    out
}

/// The new issue can be saved: a title that is not blank, a priority, and
/// no save under way.
pub fn can_save(title: &str, priority: Option<u8>, saving: bool) -> (b: bool)
    ensures
        b == (has_content(title@) && priority is Some && !saving),
{
    if saving || priority.is_none() {
        return false;
    }
    let cs = crate::text::chars_of(title);
    let mut i: usize = 0;
    while i < cs.len()
        invariant
            i <= cs.len(),
            cs@ == title@,
            !saving,
            priority is Some,
            forall|k: int| 0 <= k < i ==> unicode_whitespace(#[trigger] title@[k]),
        decreases cs.len() - i,
    {
        if !is_whitespace(cs[i]) {
            assert(!unicode_whitespace(title@[i as int]));
            return true;
        }
        i = i + 1;
    }
    false
}


/// The member logins not chosen yet whose lower-cased form holds the
/// lower-cased input, in member order.
pub open spec fn unchosen_matches(members: Seq<String>, chosen: Seq<Seq<char>>, input: Seq<char>) -> Seq<String>
    decreases members.len(),
{
    if members.len() == 0 {
        Seq::empty()
    } else {
        let r = unchosen_matches(members.drop_last(), chosen, input);
        if !chosen.contains(members.last()@) && contains_seq(
            unicode_lowercase(members.last()@),
            unicode_lowercase(input),
        ) {
            r.push(members.last())
        } else {
            r
        }
    }
}

/// The assignees the new-issue panel suggests: while the box is shown and
/// the input is not empty once lower-cased, the first six matching logins
/// not chosen yet.
pub open spec fn issue_suggestions_for(members: Seq<String>, chosen: Seq<Seq<char>>, input: Seq<char>, show: bool) -> Seq<String> {
    if show && unicode_lowercase(input).len() > 0 {
        let m = unchosen_matches(members, chosen, input);
        if m.len() <= 6 {
            m
        } else {
            m.take(6)
        }
    } else {
        Seq::empty()
    }
}

proof fn lemma_unchosen_prefix(members: Seq<String>, chosen: Seq<Seq<char>>, input: Seq<char>, n: int)
    requires
        0 <= n <= members.len(),
    ensures
        unchosen_matches(members, chosen, input).len() >= unchosen_matches(members.take(n), chosen, input).len(),
        unchosen_matches(members, chosen, input).take(unchosen_matches(members.take(n), chosen, input).len() as int)
            == unchosen_matches(members.take(n), chosen, input),
    decreases members.len() - n,
{
    let a = unchosen_matches(members.take(n), chosen, input);
    if n < members.len() {
        lemma_unchosen_prefix(members, chosen, input, n + 1);
        assert(members.take(n + 1).drop_last() =~= members.take(n));
        let b = unchosen_matches(members.take(n + 1), chosen, input);
        let c = unchosen_matches(members, chosen, input);
        assert(b.take(a.len() as int) =~= a);
        assert(c.take(a.len() as int) =~= b.take(b.len() as int).take(a.len() as int));
    } else {
        assert(members.take(n) =~= members);
        assert(a.take(a.len() as int) =~= a);
    }
}

/// Compute assignee suggestions for the new issue.
pub fn issue_assignee_suggestions(members: &Vec<String>, chosen: &Vec<String>, input: &str, show: bool) -> (out: Vec<String>)
    ensures
        out@ == issue_suggestions_for(members@, views(chosen@), input@, show),
{
    let ghost ch = views(chosen@);
    let input_lower = to_lowercase(input);
    if !(show && input_lower.unicode_len() > 0) {
        return Vec::new();
    }
    let mut out: Vec<String> = Vec::new();
    let mut i: usize = 0;
    while i < members.len() && out.len() < 6
        invariant
            i <= members.len(),
            ch == views(chosen@),
            input_lower@ == unicode_lowercase(input@),
            out@ == unchosen_matches(members@.take(i as int), ch, input@),
            out@.len() <= 6,
        decreases members.len() - i,
    {
        assert(members@.take(i + 1).drop_last() =~= members@.take(i as int));
        assert(members@.take(i + 1).last() == members@[i as int]);
        let login = &members[i];
        let mut taken = false;
        let mut j: usize = 0;
        while j < chosen.len()
            invariant
                j <= chosen.len(),
                ch == views(chosen@),
                taken == exists|k: int| 0 <= k < j && (#[trigger] ch[k]) == login@,
            decreases chosen.len() - j,
        {
            if str_eq(chosen[j].as_str(), login.as_str()) {
                taken = true;
            }
            assert(ch[j as int] == chosen@[j as int]@);
            j = j + 1;
        }
        if !taken {
            let lower = to_lowercase(login.as_str());
            if contains_str(lower.as_str(), input_lower.as_str()) {
                out.push(login.clone());
            }
        }
        i = i + 1;
    }
    proof {
        lemma_unchosen_prefix(members@, ch, input@, i as int);
        if i == members.len() {
            assert(members@.take(i as int) =~= members@);
        }
    }
    out
}


/// The position of the first occurrence of `login`.
pub open spec fn login_position(list: Seq<String>, login: Seq<char>) -> Option<int>
    decreases list.len(),
{
    if list.len() == 0 {
        None
    } else {
        match login_position(list.drop_last(), login) {
            Some(i) => Some(i),
            None => if list.last()@ == login {
                Some(list.len() - 1)
            } else {
                None
            },
        }
    }
}

proof fn lemma_login_position_prefix(list: Seq<String>, login: Seq<char>, n: int)
    requires
        0 <= n <= list.len(),
        login_position(list.take(n), login) is Some,
    ensures
        login_position(list, login) == login_position(list.take(n), login),
    decreases list.len() - n,
{
    if n < list.len() {
        assert(list.take(n + 1).drop_last() =~= list.take(n));
        lemma_login_position_prefix(list, login, n + 1);
    } else {
        assert(list.take(n) =~= list);
    }
}

/// Toggles a name in a multi-select (assignees, labels): removes its first
/// occurrence where it is chosen, else appends it. Returns whether it is
/// chosen now.
pub fn toggle_choice(chosen: &mut Vec<String>, name: String) -> (on: bool)
    ensures
        match login_position(old(chosen)@, name@) {
            Some(p) => !on && final(chosen)@ == old(chosen)@.remove(p),
            None => on && final(chosen)@ == old(chosen)@.push(name),
        },
{
    let mut i: usize = 0;
    while i < chosen.len()
        invariant
            i <= chosen.len(),
            chosen@ == old(chosen)@,
            login_position(chosen@.take(i as int), name@) is None,
        decreases chosen.len() - i,
    {
        assert(chosen@.take(i + 1).drop_last() =~= chosen@.take(i as int));
        if str_eq(chosen[i].as_str(), name.as_str()) {
            proof {
                assert(chosen@.take(i + 1).last() == chosen@[i as int]);
                lemma_login_position_prefix(chosen@, name@, i + 1);
            }
            chosen.remove(i);
            return false;
        }
        i = i + 1;
    }
    assert(chosen@.take(chosen.len() as int) =~= chosen@);
    chosen.push(name);
    true
}

} // verus!
