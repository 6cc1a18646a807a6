//! The order of strings (`String`'s `Ord`: lexicographic by character,
//! which is the byte order of their UTF-8 forms) and sorting by it.
use vstd::prelude::*;

use crate::text::{chars_of, str_eq, views};

verus! {

broadcast use vstd::seq_lib::group_to_multiset_ensures;

/// `a` comes strictly before `b`: at the first position where they differ
/// `a` has the smaller character, or `a` is a proper prefix of `b`.
pub open spec fn lex_lt(a: Seq<char>, b: Seq<char>) -> bool
    decreases a.len(),
{
    if a.len() == 0 {
        b.len() > 0
    } else if b.len() == 0 {
        false
    } else if a[0] < b[0] {
        true
    } else if a[0] == b[0] {
        lex_lt(a.drop_first(), b.drop_first())
    } else {
        false
    }
}

/// No string comes before itself.
pub proof fn lemma_lex_irreflexive(a: Seq<char>)
    ensures
        !lex_lt(a, a),
    decreases a.len(),
{
    if a.len() > 0 {
        lemma_lex_irreflexive(a.drop_first());
    }
}

/// The order is transitive.
pub proof fn lemma_lex_transitive(a: Seq<char>, b: Seq<char>, c: Seq<char>)
    requires
        lex_lt(a, b),
        lex_lt(b, c),
    ensures
        lex_lt(a, c),
    decreases a.len(),
{
    if a.len() > 0 && b.len() > 0 && c.len() > 0 {
        if a[0] == b[0] && b[0] == c[0] {
            lemma_lex_transitive(a.drop_first(), b.drop_first(), c.drop_first());
        }
    }
}

/// Two different strings are ordered one way or the other, and never both.
pub proof fn lemma_lex_total(a: Seq<char>, b: Seq<char>)
    ensures
        a != b ==> lex_lt(a, b) || lex_lt(b, a),
        !(lex_lt(a, b) && lex_lt(b, a)),
    decreases a.len(),
{
    if a.len() > 0 && b.len() > 0 {
        lemma_lex_total(a.drop_first(), b.drop_first());
        if a[0] == b[0] && a.drop_first() == b.drop_first() {
            assert(a =~= seq![a[0]] + a.drop_first());
            assert(b =~= seq![b[0]] + b.drop_first());
        }
    } else if a.len() == 0 && b.len() == 0 {
        assert(a =~= b);
    }
}

/// Whether `a` comes strictly before `b`.
pub fn str_lt(a: &str, b: &str) -> (r: bool)
    ensures
        r == lex_lt(a@, b@),
{
    let x = chars_of(a);
    let y = chars_of(b);
    let mut i: usize = 0;
    assert(a@.skip(0) =~= a@);
    assert(b@.skip(0) =~= b@);
    while i < x.len() && i < y.len()
        invariant
            x@ == a@,
            y@ == b@,
            i <= x.len(),
            i <= y.len(),
            lex_lt(a@, b@) == lex_lt(a@.skip(i as int), b@.skip(i as int)),
        decreases x.len() - i,
    {
        let ghost sa = a@.skip(i as int);
        let ghost sb = b@.skip(i as int);
        assert(sa[0] == x@[i as int]);
        assert(sb[0] == y@[i as int]);
        if x[i] < y[i] {
            return true;
        }
        if x[i] != y[i] {
            return false;
        }
        assert(sa.drop_first() =~= a@.skip(i + 1));
        assert(sb.drop_first() =~= b@.skip(i + 1));
        i = i + 1;
    }
    i < y.len()
}

/// The strings are in ascending order (repeats allowed).
pub open spec fn sorted(s: Seq<Seq<char>>) -> bool {
    forall|i: int, j: int| 0 <= i < j < s.len() ==> !lex_lt(#[trigger] s[j], #[trigger] s[i])
}

/// The strings are in strictly ascending order (no repeats).
pub open spec fn strictly_sorted(s: Seq<Seq<char>>) -> bool {
    forall|i: int, j: int| 0 <= i < j < s.len() ==> lex_lt(#[trigger] s[i], #[trigger] s[j])
}

/// Inserts `x` after every element that does not come after it.
fn insert_sorted(v: &mut Vec<String>, x: String)
    requires
        sorted(views(old(v)@)),
    ensures
        sorted(views(final(v)@)),
        final(v)@.to_multiset() == old(v)@.to_multiset().insert(x),
{
    let ghost before = v@;
    let mut p: usize = 0;
    while p < v.len() && !str_lt(x.as_str(), v[p].as_str())
        invariant
            v@ == before,
            p <= v.len(),
            forall|k: int| 0 <= k < p ==> !lex_lt(x@, (#[trigger] v@[k])@),
        decreases v.len() - p,
    {
        p = p + 1;
    }
    v.insert(p, x);
    assert(v@ == before.insert(p as int, x));
    assert forall|i: int, j: int| 0 <= i < j < views(v@).len() implies !lex_lt(
        #[trigger] views(v@)[j],
        #[trigger] views(v@)[i],
    ) by {
        let n = p as int;
        if j < n {
            assert(views(before)[i] == views(v@)[i] && views(before)[j] == views(v@)[j]);
        } else if j == n {
            // v[i] does not come after x.
            assert(views(v@)[j] == x@);
            assert(views(v@)[i] == before[i]@);
            lemma_lex_total(x@, before[i]@);
        } else if i == n {
            // x comes before v[j] or equals it.
            assert(views(v@)[i] == x@);
            assert(views(v@)[j] == before[j - 1]@);
            assert(n < before.len());
            assert(lex_lt(x@, before[n]@));
            if lex_lt(before[j - 1]@, x@) {
                lemma_lex_transitive(before[j - 1]@, x@, before[n]@);
                if j - 1 > n {
                    assert(views(before)[n] == before[n]@);
                    assert(views(before)[j - 1] == before[j - 1]@);
                    assert(!lex_lt(views(before)[j - 1], views(before)[n]));
                } else {
                    lemma_lex_irreflexive(before[n]@);
                }
            }
        } else if i < n {
            assert(views(v@)[i] == views(before)[i]);
            assert(views(v@)[j] == views(before)[j - 1]);
        } else {
            assert(views(v@)[i] == views(before)[i - 1]);
            assert(views(v@)[j] == views(before)[j - 1]);
        }
    }
}

/// The strings of `v` in ascending order (`slice::sort`).
pub fn sort_strings(v: Vec<String>) -> (out: Vec<String>)
    ensures
        sorted(views(out@)),
        out@.to_multiset() == v@.to_multiset(),
{
    let ghost all = v@;
    let mut out: Vec<String> = Vec::new();
    for x in it: v.into_iter()
        invariant
            it.seq() == all,
            sorted(views(out@)),
            out@.to_multiset() == all.take(it.index() as int).to_multiset(),
    {
        let ghost k = it.index();
        assert(all.take(k + 1) =~= all.take(k as int).push(x));
        insert_sorted(&mut out, x);
    }
    assert(all.take(all.len() as int) =~= all);
    out
}

/// Inserts `x` into strictly ascending strings unless it is there already.
pub fn insert_unique(v: &mut Vec<String>, x: String)
    requires
        strictly_sorted(views(old(v)@)),
    ensures
        strictly_sorted(views(final(v)@)),
        forall|s: Seq<char>|
            #![trigger views(final(v)@).contains(s)]
            views(final(v)@).contains(s) <==> (views(old(v)@).contains(s) || s == x@),
{
    let ghost before = v@;
    let mut p: usize = 0;
    while p < v.len() && str_lt(v[p].as_str(), x.as_str())
        invariant
            v@ == before,
            p <= v.len(),
            forall|k: int| 0 <= k < p ==> lex_lt((#[trigger] v@[k])@, x@),
        decreases v.len() - p,
    {
        p = p + 1;
    }
    if p < v.len() && str_eq(v[p].as_str(), x.as_str()) {
        assert forall|s: Seq<char>|
            #![trigger views(v@).contains(s)]
            views(v@).contains(s) <==> (views(before).contains(s) || s == x@) by {
            if s == x@ {
                assert(views(v@)[p as int] == x@);
            }
        }
        return;
    }
    let ghost xv = x@;
    v.insert(p, x);
    let ghost n = p as int;
    assert(v@ == before.insert(n, v@[n]));
    assert forall|i: int, j: int| 0 <= i < j < views(v@).len() implies lex_lt(
        #[trigger] views(v@)[i],
        #[trigger] views(v@)[j],
    ) by {
        if j < n {
            assert(views(v@)[i] == views(before)[i] && views(v@)[j] == views(before)[j]);
        } else if j == n {
            assert(views(v@)[j] == xv);
            assert(views(v@)[i] == before[i]@);
        } else if i == n {
            assert(views(v@)[i] == xv);
            assert(views(v@)[j] == before[j - 1]@);
            // before[n] comes after x, and before[j - 1] is not before before[n].
            assert(n < before.len());
            lemma_lex_total(before[n]@, xv);
            if j - 1 > n {
                assert(views(before)[n] == before[n]@);
                assert(views(before)[j - 1] == before[j - 1]@);
                assert(lex_lt(views(before)[n], views(before)[j - 1]));
                lemma_lex_transitive(xv, before[n]@, before[j - 1]@);
            }
        } else if i < n {
            assert(views(v@)[i] == before[i]@);
            assert(views(v@)[j] == before[j - 1]@);
            assert(views(before)[i] == before[i]@);
            assert(views(before)[j - 1] == before[j - 1]@);
            if i < j - 1 {
                assert(lex_lt(views(before)[i], views(before)[j - 1]));
            } else {
                assert(lex_lt(before[i]@, xv));
                lemma_lex_total(before[n]@, xv);
                assert(lex_lt(xv, before[n]@));
                lemma_lex_transitive(before[i]@, xv, before[n]@);
            }
        } else {
            assert(views(v@)[i] == views(before)[i - 1]);
            assert(views(v@)[j] == views(before)[j - 1]);
        }
    }
    assert forall|s: Seq<char>|
        #![trigger views(v@).contains(s)]
        views(v@).contains(s) <==> (views(before).contains(s) || s == xv) by {
        if views(v@).contains(s) {
            let k = choose|k: int| 0 <= k < views(v@).len() && views(v@)[k] == s;
            if k < n {
                assert(views(before)[k] == s);
            } else if k > n {
                assert(views(before)[k - 1] == s);
            }
        }
        if views(before).contains(s) {
            let k = choose|k: int| 0 <= k < views(before).len() && views(before)[k] == s;
            if k < n {
                assert(views(v@)[k] == s);
            } else {
                assert(views(v@)[k + 1] == s);
            }
        }
        if s == xv {
            assert(views(v@)[n] == s);
        }
    }
}

} // verus!
