//! A byte-keyed association list with values of any type; the in-memory shape
//! behind the typed caches of the store. Its view is the finite map from key
//! bytes to the stored values.

use vstd::prelude::*;
use crate::codec::bytes_eq;

verus! {

/// The map denoted by an association list.
pub open spec fn assoc_map_of<V>(s: Seq<(Vec<u8>, V)>) -> Map<Seq<u8>, V>
    decreases s.len(),
{
    if s.len() == 0 {
        Map::empty()
    } else {
        assoc_map_of(s.drop_last()).insert(s.last().0@, s.last().1)
    }
}

/// No two entries share a key.
pub open spec fn assoc_unique_keys<V>(s: Seq<(Vec<u8>, V)>) -> bool {
    forall|i: int, j: int| 0 <= i < j < s.len() ==> s[i].0@ != s[j].0@
}

/// Membership in the map is existence of an entry with that key.
pub proof fn lemma_assoc_contains<V>(s: Seq<(Vec<u8>, V)>, k: Seq<u8>)
    ensures
        assoc_map_of(s).contains_key(k) <==> exists|i: int| 0 <= i < s.len() && s[i].0@ == k,
    decreases s.len(),
{
    if s.len() > 0 {
        lemma_assoc_contains(s.drop_last(), k);
        if s.last().0@ == k {
            assert(s[s.len() - 1].0@ == k);
        } else {
            if assoc_map_of(s).contains_key(k) {
                let i = choose|i: int| 0 <= i < s.drop_last().len() && s.drop_last()[i].0@ == k;
                assert(s[i].0@ == k);
            }
            if exists|i: int| 0 <= i < s.len() && s[i].0@ == k {
                let i = choose|i: int| 0 <= i < s.len() && s[i].0@ == k;
                assert(s.drop_last()[i].0@ == k);
            }
        }
    }
}

/// With unique keys, the map sends each entry's key to its value.
pub proof fn lemma_assoc_value<V>(s: Seq<(Vec<u8>, V)>, i: int)
    requires
        assoc_unique_keys(s),
        0 <= i < s.len(),
    ensures
        assoc_map_of(s).contains_key(s[i].0@),
        assoc_map_of(s)[s[i].0@] == s[i].1,
    decreases s.len(),
{
    lemma_assoc_contains(s, s[i].0@);
    if i < s.len() - 1 {
        assert(s.drop_last()[i] == s[i]);
        lemma_assoc_value(s.drop_last(), i);
        assert(s[i].0@ != s.last().0@);
    }
}

/// Updating the entry that holds a key is insertion in the map.
pub proof fn lemma_assoc_update<V>(s: Seq<(Vec<u8>, V)>, i: int, p: (Vec<u8>, V))
    requires
        assoc_unique_keys(s),
        0 <= i < s.len(),
        s[i].0@ == p.0@,
    ensures
        assoc_map_of(s.update(i, p)) == assoc_map_of(s).insert(p.0@, p.1),
    decreases s.len(),
{
    let t = s.update(i, p);
    if i == s.len() - 1 {
        assert(t.drop_last() =~= s.drop_last());
        assert(assoc_map_of(s.drop_last()).insert(s.last().0@, s.last().1).insert(p.0@, p.1)
            =~= assoc_map_of(s.drop_last()).insert(p.0@, p.1));
    } else {
        assert(t.drop_last() =~= s.drop_last().update(i, p));
        assert(s.drop_last()[i] == s[i]);
        lemma_assoc_update(s.drop_last(), i, p);
        assert(t.last() == s.last());
        assert(s[i].0@ != s.last().0@);
        assert(assoc_map_of(s.drop_last()).insert(p.0@, p.1).insert(s.last().0@, s.last().1)
            =~= assoc_map_of(s.drop_last()).insert(s.last().0@, s.last().1).insert(p.0@, p.1));
    }
}

/// Appending a fresh key is insertion in the map.
pub proof fn lemma_assoc_push<V>(s: Seq<(Vec<u8>, V)>, p: (Vec<u8>, V))
    ensures
        assoc_map_of(s.push(p)) == assoc_map_of(s).insert(p.0@, p.1),
{
    assert(s.push(p).drop_last() =~= s);
    assert(s.push(p).last() == p);
}

/// Removing the entry that holds a key is removal from the map.
pub proof fn lemma_assoc_remove<V>(s: Seq<(Vec<u8>, V)>, i: int)
    requires
        assoc_unique_keys(s),
        0 <= i < s.len(),
    ensures
        assoc_map_of(s.remove(i)) == assoc_map_of(s).remove(s[i].0@),
    decreases s.len(),
{
    let k = s[i].0@;
    if i == s.len() - 1 {
        assert(s.remove(i) =~= s.drop_last());
        lemma_assoc_contains(s.drop_last(), k);
        assert(forall|j: int| 0 <= j < s.drop_last().len() ==> s.drop_last()[j].0@ != k);
        assert(!assoc_map_of(s.drop_last()).contains_key(k));
        assert(assoc_map_of(s.drop_last()).insert(k, s.last().1).remove(k) =~= assoc_map_of(
            s.drop_last(),
        ));
    } else {
        let t = s.remove(i);
        assert(t.drop_last() =~= s.drop_last().remove(i));
        assert(s.drop_last()[i] == s[i]);
        lemma_assoc_remove(s.drop_last(), i);
        assert(t.last() == s.last());
        assert(s[i].0@ != s.last().0@);
        assert(assoc_map_of(s.drop_last()).remove(k).insert(s.last().0@, s.last().1)
            =~= assoc_map_of(s.drop_last()).insert(s.last().0@, s.last().1).remove(k));
    }
}

/// The map of an association list has a finite domain.
pub proof fn lemma_assoc_dom_finite<V>(s: Seq<(Vec<u8>, V)>)
    ensures
        assoc_map_of(s).dom().finite(),
    decreases s.len(),
{
    if s.len() > 0 {
        lemma_assoc_dom_finite(s.drop_last());
    }
}

/// A byte-keyed collection of typed values with unique keys.
#[derive(Debug)]
pub struct AssocStore<V> {
    entries: Vec<(Vec<u8>, V)>,
}

impl<V> View for AssocStore<V> {
    type V = Map<Seq<u8>, V>;

    closed spec fn view(&self) -> Map<Seq<u8>, V> {
        assoc_map_of(self.entries@)
    }
}

impl<V> AssocStore<V> {
    /// The underlying entry list, in insertion order.
    pub closed spec fn entry_seq(self) -> Seq<(Seq<u8>, V)> {
        self.entries@.map_values(|p: (Vec<u8>, V)| (p.0@, p.1))
    }

    /// The collection is well formed when its keys are unique.
    pub closed spec fn wf(self) -> bool {
        assoc_unique_keys(self.entries@)
    }

    /// Every entry is in the map view.
    pub proof fn lemma_entry_in_view(self, i: int)
        requires
            self.wf(),
            0 <= i < self.entry_seq().len(),
        ensures
            self@.contains_key(self.entry_seq()[i].0),
            self@[self.entry_seq()[i].0] == self.entry_seq()[i].1,
    {
        lemma_assoc_value(self.entries@, i);
        assert(self.entry_seq()[i].0 == self.entries@[i].0@);
    }

    /// Every key in the map view names some entry.
    pub proof fn lemma_view_in_entries(self, k: Seq<u8>)
        requires
            self@.contains_key(k),
        ensures
            exists|i: int| 0 <= i < self.entry_seq().len() && self.entry_seq()[i].0 == k,
    {
        lemma_assoc_contains(self.entries@, k);
        let i = choose|i: int| 0 <= i < self.entries@.len() && self.entries@[i].0@ == k;
        assert(self.entry_seq()[i].0 == k);
    }

    /// The key set is finite.
    pub proof fn lemma_dom_finite(self)
        ensures
            self@.dom().finite(),
    {
        lemma_assoc_dom_finite(self.entries@);
    }

    /// Constructs an empty collection.
    pub fn new() -> (r: Self)
        ensures
            r.wf(),
            r@ == Map::<Seq<u8>, V>::empty(),
            r.entry_seq().len() == 0,
    {
        AssocStore { entries: Vec::new() }
    }

    /// Number of entries.
    pub fn len(&self) -> (n: usize)
        ensures
            n == self.entry_seq().len(),
    {
        self.entries.len()
    }

    /// The position of the entry holding `key`, if any.
    fn find(&self, key: &[u8]) -> (r: Option<usize>)
        ensures
            match r {
                Some(i) => 0 <= i < self.entries@.len() && self.entries@[i as int].0@ == key@,
                None => forall|i: int| 0 <= i < self.entries@.len() ==> self.entries@[i].0@ != key@,
            },
    {
        let mut i: usize = 0;
        let n = self.entries.len();
        while i < n
            invariant
                i <= n,
                n == self.entries@.len(),
                forall|j: int| 0 <= j < i ==> self.entries@[j].0@ != key@,
            decreases n - i,
        {
            if bytes_eq(self.entries[i].0.as_slice(), key) {
                return Some(i);
            }
            i = i + 1;
        }
        None
    }

    /// Whether the collection holds `key`.
    pub fn contains(&self, key: &[u8]) -> (r: bool)
        ensures
            r <==> self@.contains_key(key@),
    {
        proof {
            lemma_assoc_contains(self.entries@, key@);
        }
        self.find(key).is_some()
    }

    /// The value stored under `key`, if any.
    pub fn get(&self, key: &[u8]) -> (r: Option<&V>)
        requires
            self.wf(),
        ensures
            match r {
                Some(v) => self@.contains_key(key@) && *v == self@[key@],
                None => !self@.contains_key(key@),
            },
    {
        proof {
            lemma_assoc_contains(self.entries@, key@);
        }
        match self.find(key) {
            Some(i) => {
                proof {
                    lemma_assoc_value(self.entries@, i as int);
                }
                Some(&self.entries[i].1)
            },
            None => None,
        }
    }

    /// Stores `value` under `key`, replacing any previous value.
    pub fn put(&mut self, key: Vec<u8>, value: V)
        requires
            old(self).wf(),
        ensures
            final(self).wf(),
            final(self)@ == old(self)@.insert(key@, value),
    {
        match self.find(key.as_slice()) {
            Some(i) => {
                proof {
                    lemma_assoc_update(self.entries@, i as int, (key, value));
                }
                self.entries.set(i, (key, value));
            },
            None => {
                proof {
                    lemma_assoc_push(self.entries@, (key, value));
                }
                self.entries.push((key, value));
            },
        }
    }

    /// Removes the value stored under `key`, if any.
    pub fn remove(&mut self, key: &[u8])
        requires
            old(self).wf(),
        ensures
            final(self).wf(),
            final(self)@ == old(self)@.remove(key@),
    {
        match self.find(key) {
            Some(i) => {
                proof {
                    lemma_assoc_remove(self.entries@, i as int);
                }
                self.entries.remove(i);
            },
            None => {
                proof {
                    lemma_assoc_contains(self.entries@, key@);
                    assert(old(self)@.remove(key@) =~= old(self)@);
                }
            },
        }
    }

    /// Removes and returns the value stored under `key`, if any.
    pub fn take(&mut self, key: &[u8]) -> (r: Option<V>)
        requires
            old(self).wf(),
        ensures
            final(self).wf(),
            final(self)@ == old(self)@.remove(key@),
            match r {
                Some(v) => old(self)@.contains_key(key@) && v == old(self)@[key@],
                None => !old(self)@.contains_key(key@),
            },
    {
        proof {
            lemma_assoc_contains(self.entries@, key@);
        }
        match self.find(key) {
            Some(i) => {
                proof {
                    lemma_assoc_value(self.entries@, i as int);
                    lemma_assoc_remove(self.entries@, i as int);
                }
                let p = self.entries.remove(i);
                Some(p.1)
            },
            None => {
                proof {
                    assert(old(self)@.remove(key@) =~= old(self)@);
                }
                None
            },
        }
    }

    /// The key of the entry at position `i`.
    pub fn key_at(&self, i: usize) -> (k: &Vec<u8>)
        requires
            i < self.entry_seq().len(),
        ensures
            k@ == self.entry_seq()[i as int].0,
    {
        &self.entries[i].0
    }

    /// The value of the entry at position `i`.
    pub fn value_at(&self, i: usize) -> (v: &V)
        requires
            i < self.entry_seq().len(),
        ensures
            *v == self.entry_seq()[i as int].1,
    {
        &self.entries[i].1
    }
}

} // verus!
