//! A cache directory held in memory: named entries, each holding one entry.
//!
//! The entries are read and written by file key; reading a file gives back
//! what was last written to it, and writing or removing one file leaves the
//! others as they were. Moving the entries to and from disk is the caller's.
use vstd::prelude::*;

use crate::text::str_eq;

verus! {

/// A string-keyed map. Where two entries share a key, the first one counts.
#[derive(Debug, Clone)]
pub struct StrMap<E> {
    /// The entries, as (key, value) pairs.
    pub entries: Vec<(String, E)>,
}

/// The position of the first entry with key `key`.
pub open spec fn find_key<E>(entries: Seq<(String, E)>, key: Seq<char>) -> Option<int>
    decreases entries.len(),
{
    if entries.len() == 0 {
        None
    } else {
        match find_key(entries.drop_last(), key) {
            Some(i) => Some(i),
            None => if entries.last().0@ == key {
                Some(entries.len() - 1)
            } else {
                None
            },
        }
    }
}

/// The value under `key`, if there is one.
pub open spec fn lookup<E>(entries: Seq<(String, E)>, key: Seq<char>) -> Option<E> {
    match find_key(entries, key) {
        Some(i) => Some(entries[i].1),
        None => None,
    }
}

/// The entries with keys other than `key`, in order.
pub open spec fn without<E>(entries: Seq<(String, E)>, key: Seq<char>) -> Seq<(String, E)>
    decreases entries.len(),
{
    if entries.len() == 0 {
        Seq::empty()
    } else {
        let r = without(entries.drop_last(), key);
        if entries.last().0@ == key {
            r
        } else {
            r.push(entries.last())
        }
    }
}

/// A position found for a key holds an entry with that key.
pub proof fn lemma_find_key<E>(entries: Seq<(String, E)>, key: Seq<char>)
    ensures
        find_key(entries, key) matches Some(i) ==> 0 <= i < entries.len() && entries[i].0@ == key,
        find_key(entries, key) is None ==> forall|k: int|
            0 <= k < entries.len() ==> (#[trigger] entries[k]).0@ != key,
    decreases entries.len(),
{
    if entries.len() > 0 {
        lemma_find_key(entries.drop_last(), key);
        if find_key(entries, key) is None {
            assert forall|k: int| 0 <= k < entries.len() implies (#[trigger] entries[k]).0@ != key by {
                if k < entries.len() - 1 {
                    assert(entries[k] == entries.drop_last()[k]);
                }
            }
        }
    }
}

/// A match in a prefix is the match of the whole sequence.
proof fn lemma_find_key_prefix<E>(entries: Seq<(String, E)>, key: Seq<char>, n: int)
    requires
        0 <= n <= entries.len(),
        find_key(entries.take(n), key) is Some,
    ensures
        find_key(entries, key) == find_key(entries.take(n), key),
    decreases entries.len() - n,
{
    if n < entries.len() {
        assert(entries.take(n + 1).drop_last() =~= entries.take(n));
        lemma_find_key_prefix(entries, key, n + 1);
    } else {
        assert(entries.take(n) =~= entries);
    }
}

/// Replacing the entry at the position found for `key` changes the value
/// of `key` only.
proof fn lemma_lookup_update<E>(entries: Seq<(String, E)>, i: int, key: Seq<char>, f: (String, E), other: Seq<char>)
    requires
        find_key(entries, key) == Some(i),
        f.0@ == key,
    ensures
        lookup(entries.update(i, f), other) == (if other == key {
            Some(f.1)
        } else {
            lookup(entries, other)
        }),
    decreases entries.len(),
{
    lemma_find_key(entries, key);
    if i < entries.len() - 1 {
        let d = entries.drop_last();
        assert(entries.update(i, f).drop_last() =~= d.update(i, f));
        assert(find_key(d, key) == Some(i));
        lemma_lookup_update(d, i, key, f, other);
        lemma_find_key(d, other);
        lemma_find_key(d.update(i, f), other);
        assert(entries.update(i, f).last() == entries.last());
    } else {
        let d = entries.drop_last();
        assert(entries.update(i, f).drop_last() =~= d);
        lemma_find_key(d, other);
        lemma_find_key(d, key);
    }
}

/// Appending an entry with a key no entry has makes it that key's entry.
proof fn lemma_lookup_push<E>(entries: Seq<(String, E)>, f: (String, E), other: Seq<char>)
    requires
        find_key(entries, f.0@) is None,
    ensures
        lookup(entries.push(f), other) == (if other == f.0@ {
            Some(f.1)
        } else {
            lookup(entries, other)
        }),
{
    assert(entries.push(f).drop_last() =~= entries);
    lemma_find_key(entries, other);
}

/// Leaving out the entries of one key removes that key and keeps the others.
pub proof fn lemma_lookup_without<E>(entries: Seq<(String, E)>, key: Seq<char>, other: Seq<char>)
    ensures
        lookup(without(entries, key), other) == (if other == key {
            None
        } else {
            lookup(entries, other)
        }),
    decreases entries.len(),
{
    if entries.len() > 0 {
        let d = entries.drop_last();
        lemma_lookup_without(d, key, other);
        lemma_find_key(d, other);
        lemma_find_key(without(d, key), other);
        lemma_find_key(without(entries, key), other);
        lemma_find_key(entries, other);
        if entries.last().0@ != key {
            assert(without(entries, key).drop_last() =~= without(d, key));
        }
    }
}

impl<E> StrMap<E> {
    /// An empty map.
    pub fn new() -> (d: Self)
        ensures
            d.entries@.len() == 0,
            forall|key: Seq<char>| lookup(d.entries@, key) is None,
    {
        StrMap { entries: Vec::new() }
    }

    /// The position of the first entry with key `key`.
    fn position(&self, key: &str) -> (r: Option<usize>)
        ensures
            match r {
                Some(i) => i < self.entries@.len() && find_key(self.entries@, key@) == Some(i as int),
                None => find_key(self.entries@, key@) is None,
            },
    {
        let mut i: usize = 0;
        while i < self.entries.len()
            invariant
                i <= self.entries.len(),
                find_key(self.entries@.take(i as int), key@) is None,
            decreases self.entries.len() - i,
        {
            assert(self.entries@.take(i + 1).drop_last() =~= self.entries@.take(i as int));
            if str_eq(self.entries[i].0.as_str(), key) {
                proof {
                    assert(self.entries@.take(i + 1).last() == self.entries@[i as int]);
                    lemma_find_key_prefix(self.entries@, key@, i + 1);
                }
                return Some(i);
            }
            i = i + 1;
        }
        assert(self.entries@.take(self.entries.len() as int) =~= self.entries@);
        None
    }

    /// Whether `key` has a value.
    pub fn contains(&self, key: &str) -> (b: bool)
        ensures
            b == (lookup(self.entries@, key@) is Some),
    {
        self.position(key).is_some()
    }

    /// The value under `key`.
    pub fn get(&self, key: &str) -> (r: Option<&E>)
        ensures
            match r {
                Some(e) => lookup(self.entries@, key@) == Some(*e),
                None => lookup(self.entries@, key@) is None,
            },
    {
        match self.position(key) {
            Some(i) => Some(&self.entries[i].1),
            None => None,
        }
    }

    /// Writes `value` under `key`.
    pub fn put(&mut self, key: String, value: E)
        ensures
            forall|other: Seq<char>|
                #![trigger lookup(final(self).entries@, other)]
                lookup(final(self).entries@, other) == (if other == key@ {
                    Some(value)
                } else {
                    lookup(old(self).entries@, other)
                }),
    {
        let ghost before = self.entries@;
        let ghost k = key@;
        match self.position(key.as_str()) {
            Some(i) => {
                let ghost f = (key, value);
                self.entries.set(i, (key, value));
                assert(self.entries@ == before.update(i as int, f));
                assert forall|other: Seq<char>|
                    #![trigger lookup(self.entries@, other)]
                    lookup(self.entries@, other) == (if other == k {
                        Some(value)
                    } else {
                        lookup(before, other)
                    }) by {
                    lemma_lookup_update(before, i as int, k, f, other);
                }
            },
            None => {
                let ghost f = (key, value);
                self.entries.push((key, value));
                assert forall|other: Seq<char>|
                    #![trigger lookup(self.entries@, other)]
                    lookup(self.entries@, other) == (if other == k {
                        Some(value)
                    } else {
                        lookup(before, other)
                    }) by {
                    lemma_lookup_push(before, f, other);
                }
            },
        }
    }

    /// Removes every entry with key `key`, giving back the value it had.
    pub fn take(&mut self, key: &str) -> (r: Option<E>)
        ensures
            r == lookup(old(self).entries@, key@),
            forall|other: Seq<char>|
                #![trigger lookup(final(self).entries@, other)]
                lookup(final(self).entries@, other) == (if other == key@ {
                    None
                } else {
                    lookup(old(self).entries@, other)
                }),
    {
        let ghost before = self.entries@;
        let mut old_entries: Vec<(String, E)> = Vec::new();
        std::mem::swap(&mut old_entries, &mut self.entries);
        assert(old_entries@ == before);
        let mut kept: Vec<(String, E)> = Vec::new();
        let mut found: Option<E> = None;
        for f in it: old_entries.into_iter()
            invariant
                it.seq() == before,
                kept@ == without(before.take(it.index() as int), key@),
                found == lookup(before.take(it.index() as int), key@),
        {
            let ghost k = it.index();
            assert(before.take(k + 1).drop_last() =~= before.take(k as int));
            assert(before.take(k + 1).last() == f);
            assert(before[k as int] == f);
            proof {
                lemma_find_key(before.take(k as int), key@);
            }
            if str_eq(f.0.as_str(), key) {
                if found.is_none() {
                    found = Some(f.1);
                }
            } else {
                kept.push(f);
            }
        }
        assert(before.take(before.len() as int) =~= before);
        self.entries = kept;
        assert forall|other: Seq<char>|
            #![trigger lookup(self.entries@, other)]
            lookup(self.entries@, other) == (if other == key@ {
                None
            } else {
                lookup(before, other)
            }) by {
            lemma_lookup_without(before, key@, other);
        }
        found
    }

    /// Removes every entry.
    pub fn clear(&mut self)
        ensures
            final(self).entries@.len() == 0,
            forall|key: Seq<char>| lookup(final(self).entries@, key) is None,
    {
        self.entries = Vec::new();
    }
}

impl StrMap<String> {
    /// A copy of this map.
    pub fn copy(&self) -> (m: Self)
        ensures
            m.entries@ == self.entries@,
    {
        let mut entries: Vec<(String, String)> = Vec::new();
        let mut i: usize = 0;
        while i < self.entries.len()
            invariant
                i <= self.entries.len(),
                entries@ == self.entries@.take(i as int),
            decreases self.entries.len() - i,
        {
            let p = (self.entries[i].0.clone(), self.entries[i].1.clone());
            entries.push(p);
            assert(self.entries@.take(i + 1) =~= self.entries@.take(i as int).push(self.entries@[i as int]));
            i = i + 1;
        }
        assert(self.entries@.take(self.entries.len() as int) =~= self.entries@);
        StrMap { entries }
    }
}

} // verus!
