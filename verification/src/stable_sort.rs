//! Stable sorting by a key, as `sort_by` orders: items whose keys come
//! first go first, and items with equal keys stay in the order they came.
use vstd::prelude::*;

verus! {

/// Items compared by a key under a total preorder.
pub trait SortKey: Sized {
    /// The key of `self` comes no later than the key of `other`.
    spec fn key_le(self, other: Self) -> bool;

    /// Any two keys are comparable.
    proof fn lemma_key_total(a: Self, b: Self)
        ensures
            a.key_le(b) || b.key_le(a),
    ;

    /// The order of keys is transitive.
    proof fn lemma_key_transitive(a: Self, b: Self, c: Self)
        requires
            a.key_le(b),
            b.key_le(c),
        ensures
            a.key_le(c),
    ;

    /// Whether the key of `self` comes no later than the key of `other`.
    fn key_le_exec(&self, other: &Self) -> (r: bool)
        ensures
            r == self.key_le(*other),
    ;
}

/// Where `x` goes in `s`: after the last item whose key is not after its own.
pub open spec fn insert_pos<T: SortKey>(s: Seq<T>, x: T) -> int
    decreases s.len(),
{
    if s.len() == 0 {
        0
    } else if s.last().key_le(x) {
        s.len() as int
    } else {
        insert_pos(s.drop_last(), x)
    }
}

/// `s` sorted stably by key: each item is inserted, in turn, after the
/// items already placed whose key is not after its own.
pub open spec fn stable_sorted<T: SortKey>(s: Seq<T>) -> Seq<T>
    decreases s.len(),
{
    if s.len() == 0 {
        s
    } else {
        let r = stable_sorted(s.drop_last());
        r.insert(insert_pos(r, s.last()), s.last())
    }
}

/// Keys never go back along `s`.
pub open spec fn key_sorted<T: SortKey>(s: Seq<T>) -> bool {
    forall|i: int, j: int| 0 <= i <= j < s.len() ==> (#[trigger] s[i]).key_le(#[trigger] s[j])
}

/// The insertion point lies within `s`; in sorted `s` the items before it
/// have keys not after that of `x`, and the items from it on keys after it.
proof fn lemma_insert_pos<T: SortKey>(s: Seq<T>, x: T)
    requires
        key_sorted(s),
    ensures
        0 <= insert_pos(s, x) <= s.len(),
        forall|k: int| 0 <= k < insert_pos(s, x) ==> (#[trigger] s[k]).key_le(x),
        forall|k: int| insert_pos(s, x) <= k < s.len() ==> !(#[trigger] s[k]).key_le(x),
    decreases s.len(),
{
    if s.len() > 0 {
        let d = s.drop_last();
        assert(key_sorted(d)) by {
            assert forall|i: int, j: int| 0 <= i <= j < d.len() implies (#[trigger] d[i]).key_le(
                #[trigger] d[j],
            ) by {
                assert(d[i] == s[i] && d[j] == s[j]);
            }
        }
        lemma_insert_pos(d, x);
        if s.last().key_le(x) {
            assert forall|k: int| 0 <= k < s.len() implies (#[trigger] s[k]).key_le(x) by {
                assert(s[k].key_le(s[s.len() - 1]));
                T::lemma_key_transitive(s[k], s[s.len() - 1], x);
            }
        } else {
            assert forall|k: int| 0 <= k < insert_pos(s, x) implies (#[trigger] s[k]).key_le(x) by {
                assert(s[k] == d[k]);
            }
            assert forall|k: int| insert_pos(s, x) <= k < s.len() implies !(#[trigger] s[k]).key_le(x) by {
                if k < s.len() - 1 {
                    assert(s[k] == d[k]);
                }
            }
        }
    }
}

/// Inserting at the insertion point keeps keys sorted.
proof fn lemma_insert_sorted<T: SortKey>(s: Seq<T>, x: T)
    requires
        key_sorted(s),
    ensures
        key_sorted(s.insert(insert_pos(s, x), x)),
{
    let p = insert_pos(s, x);
    lemma_insert_pos(s, x);
    let r = s.insert(p, x);
    s.insert_ensures(p, x);
    assert forall|i: int, j: int| 0 <= i <= j < r.len() implies (#[trigger] r[i]).key_le(
        #[trigger] r[j],
    ) by {
        if i < p && j < p {
            assert(r[i] == s[i] && r[j] == s[j]);
        } else if i < p && j == p {
            assert(r[i] == s[i]);
        } else if i < p {
            assert(r[i] == s[i] && r[j] == s[j - 1]);
            T::lemma_key_total(s[j - 1], x);
            T::lemma_key_transitive(s[i], x, s[j - 1]);
        } else if i == p && j == p {
            T::lemma_key_total(x, x);
        } else if i == p {
            assert(r[j] == s[j - 1]);
            T::lemma_key_total(s[j - 1], x);
        } else {
            assert(r[i] == s[i - 1] && r[j] == s[j - 1]);
        }
    }
}

/// A stably sorted sequence is sorted by key and holds the same items.
pub proof fn law_stable_sorted<T: SortKey>(s: Seq<T>)
    ensures
        key_sorted(stable_sorted(s)),
        stable_sorted(s).to_multiset() == s.to_multiset(),
        stable_sorted(s).len() == s.len(),
    decreases s.len(),
{
    broadcast use vstd::seq_lib::group_to_multiset_ensures;

    if s.len() > 0 {
        let d = s.drop_last();
        law_stable_sorted(d);
        let r = stable_sorted(d);
        lemma_insert_pos(r, s.last());
        lemma_insert_sorted(r, s.last());
        vstd::seq_lib::to_multiset_insert(r, insert_pos(r, s.last()), s.last());
        vstd::seq_lib::to_multiset_build(d, s.last());
        assert(d.push(s.last()) =~= s);
    }
}

/// Inserts `x` into `v` at its insertion point.
fn insert_by_key<T: SortKey>(v: &mut Vec<T>, x: T)
    ensures
        final(v)@ == old(v)@.insert(insert_pos(old(v)@, x), x),
{
    let ghost s = v@;
    let mut p: usize = v.len();
    assert(s.take(p as int) =~= s);
    while p > 0 && !v[p - 1].key_le_exec(&x)
        invariant
            v@ == s,
            p <= s.len(),
            insert_pos(s, x) == insert_pos(s.take(p as int), x),
        decreases p,
    {
        assert(s.take(p as int).drop_last() =~= s.take(p - 1));
        p = p - 1;
    }
    if p > 0 {
        assert(s.take(p as int).last() == s[p - 1]);
    }
    v.insert(p, x);
}

/// The items of `v` sorted stably by key (`sort_by` on the key).
pub fn sort_by_key<T: SortKey>(v: Vec<T>) -> (out: Vec<T>)
    ensures
        out@ == stable_sorted(v@),
        key_sorted(out@),
        out@.to_multiset() == v@.to_multiset(),
{
    let ghost all = v@;
    let mut out: Vec<T> = Vec::new();
    for x in it: v.into_iter()
        invariant
            it.seq() == all,
            out@ == stable_sorted(all.take(it.index() as int)),
    {
        let ghost k = it.index();
        assert(all[k as int] == x);
        assert(all.take(k + 1).drop_last() =~= all.take(k as int));
        assert(all.take(k + 1).last() == x);
        insert_by_key(&mut out, x);
    }
    assert(all.take(all.len() as int) =~= all);
    proof {
        law_stable_sorted(all);
    }
    out
}

} // verus!
