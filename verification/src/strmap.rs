//! A map from text keys to values, kept as a list of entries with distinct keys.

use vstd::prelude::*;
use crate::text::str_eq;

verus! {

/// The map that a list of entries describes; a later entry wins over an earlier one.
pub open spec fn map_of<V>(s: Seq<(String, V)>) -> Map<Seq<char>, V>
    decreases s.len(),
{
    if s.len() == 0 {
        Map::empty()
    } else {
        map_of(s.drop_last()).insert(s.last().0@, s.last().1)
    }
}

/// No two entries have the same key.
pub open spec fn distinct_keys<V>(s: Seq<(String, V)>) -> bool {
    forall|i: int, j: int|
        0 <= i < s.len() && 0 <= j < s.len() && i != j ==> (#[trigger] s[i]).0@ != (
        #[trigger] s[j]).0@
}

pub proof fn lemma_map_of_domain<V>(s: Seq<(String, V)>, k: Seq<char>)
    ensures
        map_of(s).contains_key(k) <==> exists|i: int| 0 <= i < s.len() && (#[trigger] s[i]).0@ == k,
    decreases s.len(),
{
    if s.len() > 0 {
        lemma_map_of_domain(s.drop_last(), k);
        if exists|i: int| 0 <= i < s.drop_last().len() && (#[trigger] s.drop_last()[i]).0@ == k {
            let i = choose|i: int| 0 <= i < s.drop_last().len() && (#[trigger] s.drop_last()[i]).0@ == k;
            assert(s[i] == s.drop_last()[i]);
        }
        if exists|i: int| 0 <= i < s.len() && (#[trigger] s[i]).0@ == k {
            let i = choose|i: int| 0 <= i < s.len() && (#[trigger] s[i]).0@ == k;
            if i < s.len() - 1 {
                assert(s.drop_last()[i] == s[i]);
            }
        }
    }
}

pub proof fn lemma_map_of_value<V>(s: Seq<(String, V)>, i: int)
    requires
        distinct_keys(s),
        0 <= i < s.len(),
    ensures
        map_of(s).contains_key(s[i].0@),
        map_of(s)[s[i].0@] == s[i].1,
    decreases s.len(),
{
    if i < s.len() - 1 {
        let d = s.drop_last();
        assert(d[i] == s[i]);
        assert(distinct_keys(d)) by {
            assert forall|a: int, b: int|
                0 <= a < d.len() && 0 <= b < d.len() && a != b implies (#[trigger] d[a]).0@ != (
            #[trigger] d[b]).0@ by {
                assert(d[a] == s[a] && d[b] == s[b]);
            }
        }
        lemma_map_of_value(d, i);
        assert(s[i].0@ != s[s.len() - 1].0@);
    }
}

pub proof fn lemma_distinct_drop_last<V>(s: Seq<(String, V)>)
    requires
        distinct_keys(s),
        s.len() > 0,
    ensures
        distinct_keys(s.drop_last()),
        !map_of(s.drop_last()).contains_key(s.last().0@),
{
    let d = s.drop_last();
    assert forall|a: int, b: int|
        0 <= a < d.len() && 0 <= b < d.len() && a != b implies (#[trigger] d[a]).0@ != (
    #[trigger] d[b]).0@ by {
        assert(d[a] == s[a] && d[b] == s[b]);
    }
    lemma_map_of_domain(d, s.last().0@);
    if map_of(d).contains_key(s.last().0@) {
        let i = choose|i: int| 0 <= i < d.len() && (#[trigger] d[i]).0@ == s.last().0@;
        assert(d[i] == s[i]);
    }
}

pub proof fn lemma_map_of_update<V>(s: Seq<(String, V)>, i: int, v: V)
    requires
        distinct_keys(s),
        0 <= i < s.len(),
    ensures
        map_of(s.update(i, (s[i].0, v))) == map_of(s).insert(s[i].0@, v),
        distinct_keys(s.update(i, (s[i].0, v))),
    decreases s.len(),
{
    let t = s.update(i, (s[i].0, v));
    assert forall|a: int, b: int|
        0 <= a < t.len() && 0 <= b < t.len() && a != b implies (#[trigger] t[a]).0@ != (
    #[trigger] t[b]).0@ by {
        assert(t[a].0 == s[a].0 && t[b].0 == s[b].0);
    }
    lemma_distinct_drop_last(s);
    if i == s.len() - 1 {
        assert(t.drop_last() == s.drop_last());
        assert(map_of(t) =~= map_of(s).insert(s[i].0@, v));
    } else {
        assert(t.drop_last() == s.drop_last().update(i, (s[i].0, v)));
        assert(s.drop_last()[i] == s[i]);
        lemma_map_of_update(s.drop_last(), i, v);
        assert(s[i].0@ != s.last().0@);
        assert(map_of(t) =~= map_of(s).insert(s[i].0@, v));
    }
}

pub proof fn lemma_map_of_remove<V>(s: Seq<(String, V)>, i: int)
    requires
        distinct_keys(s),
        0 <= i < s.len(),
    ensures
        map_of(s.remove(i)) == map_of(s).remove(s[i].0@),
        distinct_keys(s.remove(i)),
    decreases s.len(),
{
    let t = s.remove(i);
    assert forall|a: int, b: int|
        0 <= a < t.len() && 0 <= b < t.len() && a != b implies (#[trigger] t[a]).0@ != (
    #[trigger] t[b]).0@ by {
        let a2 = if a < i {
            a
        } else {
            a + 1
        };
        let b2 = if b < i {
            b
        } else {
            b + 1
        };
        assert(t[a] == s[a2] && t[b] == s[b2]);
    }
    lemma_distinct_drop_last(s);
    if i == s.len() - 1 {
        assert(t == s.drop_last());
        assert(map_of(t) =~= map_of(s).remove(s[i].0@));
    } else {
        assert(t.drop_last() == s.drop_last().remove(i));
        assert(t.last() == s.last());
        assert(s.drop_last()[i] == s[i]);
        lemma_map_of_remove(s.drop_last(), i);
        assert(s[i].0@ != s.last().0@);
        assert(map_of(t) =~= map_of(s).remove(s[i].0@));
    }
}

pub proof fn lemma_map_of_push<V>(s: Seq<(String, V)>, k: String, v: V)
    requires
        distinct_keys(s),
        !map_of(s).contains_key(k@),
    ensures
        map_of(s.push((k, v))) == map_of(s).insert(k@, v),
        distinct_keys(s.push((k, v))),
{
    let t = s.push((k, v));
    assert(t.drop_last() == s);
    lemma_map_of_domain(s, k@);
    assert forall|a: int, b: int|
        0 <= a < t.len() && 0 <= b < t.len() && a != b implies (#[trigger] t[a]).0@ != (
    #[trigger] t[b]).0@ by {
        if a < s.len() && b < s.len() {
            assert(t[a] == s[a] && t[b] == s[b]);
        } else if a < s.len() {
            assert(t[a] == s[a]);
        } else {
            assert(t[b] == s[b]);
        }
    }
}

/// A map from text keys to values.
#[derive(Debug)]
pub struct StrMap<V> {
    entries: Vec<(String, V)>,
}

impl<V> StrMap<V> {
    /// The entries, in the order they were added.
    pub closed spec fn entries_spec(&self) -> Seq<(String, V)> {
        self.entries@
    }

    /// The map that the entries describe.
    pub closed spec fn map(&self) -> Map<Seq<char>, V> {
        map_of(self.entries@)
    }

    /// The entries have distinct keys.
    pub closed spec fn wf(&self) -> bool {
        distinct_keys(self.entries@)
    }

    /// The map is the one its entries describe.
    pub proof fn lemma_map_is_entries(&self)
        ensures
            self.map() == map_of(self.entries_spec()),
            self.wf() == distinct_keys(self.entries_spec()),
    {
    }

    /// The empty map.
    pub fn new() -> (r: StrMap<V>)
        ensures
            r.wf(),
            r.map() == Map::<Seq<char>, V>::empty(),
            r.entries_spec() == Seq::<(String, V)>::empty(),
    {
        StrMap { entries: Vec::new() }
    }

    /// The number of keys.
    pub fn len(&self) -> (r: usize)
        requires
            self.wf(),
        ensures
            r == self.entries_spec().len(),
            r == self.map().dom().len(),
    {
        proof {
            self.lemma_dom_len();
        }
        self.entries.len()
    }

    proof fn lemma_dom_len(&self)
        requires
            self.wf(),
        ensures
            self.map().dom().len() == self.entries@.len(),
            self.map().dom().finite(),
        decreases self.entries@.len(),
    {
        lemma_dom_len_seq(self.entries@);
    }

    /// How many entries there are.
    pub fn entry_count(&self) -> (r: usize)
        ensures
            r == self.entries_spec().len(),
    {
        self.entries.len()
    }

    /// The key and value of entry `i`.
    pub fn entry(&self, i: usize) -> (r: (&String, &V))
        requires
            i < self.entries_spec().len(),
        ensures
            *r.0 == self.entries_spec()[i as int].0,
            *r.1 == self.entries_spec()[i as int].1,
    {
        (&self.entries[i].0, &self.entries[i].1)
    }

    /// The index of the entry for `key`.
    fn index_of(&self, key: &str) -> (r: Option<usize>)
        requires
            self.wf(),
        ensures
            r matches Some(i) ==> i < self.entries@.len() && self.entries@[i as int].0@ == key@,
            r is None <==> !self.map().contains_key(key@),
    {
        let mut i: usize = 0;
        while i < self.entries.len()
            invariant
                self.wf(),
                i <= self.entries@.len(),
                forall|j: int| 0 <= j < i ==> (#[trigger] self.entries@[j]).0@ != key@,
            decreases self.entries@.len() - i,
        {
            if str_eq(self.entries[i].0.as_str(), key) {
                proof {
                    lemma_map_of_value(self.entries@, i as int);
                }
                return Some(i);
            }
            i += 1;
        }
        proof {
            lemma_map_of_domain(self.entries@, key@);
        }
        None
    }

    /// Whether `key` has a value.
    pub fn contains_key(&self, key: &str) -> (r: bool)
        requires
            self.wf(),
        ensures
            r == self.map().contains_key(key@),
    {
        self.index_of(key).is_some()
    }

    /// The value of `key`.
    pub fn get(&self, key: &str) -> (r: Option<&V>)
        requires
            self.wf(),
        ensures
            r matches Some(v) ==> self.map().contains_key(key@) && *v == self.map()[key@],
            r is None <==> !self.map().contains_key(key@),
    {
        match self.index_of(key) {
            Some(i) => {
                proof {
                    lemma_map_of_value(self.entries@, i as int);
                }
                Some(&self.entries[i].1)
            },
            None => None,
        }
    }

    /// Sets the value of `key`; a new key goes after the existing ones.
    pub fn insert(&mut self, key: String, value: V)
        requires
            old(self).wf(),
        ensures
            final(self).wf(),
            final(self).map() == old(self).map().insert(key@, value),
    {
        match self.index_of(key.as_str()) {
            Some(i) => {
                proof {
                    lemma_map_of_update(self.entries@, i as int, value);
                }
                let k = self.entries[i].0.clone();
                self.entries.set(i, (k, value));
            },
            None => {
                proof {
                    lemma_map_of_push(self.entries@, key, value);
                }
                self.entries.push((key, value));
            },
        }
    }

    /// Removes `key` and hands back its value.
    pub fn remove(&mut self, key: &str) -> (r: Option<V>)
        requires
            old(self).wf(),
        ensures
            final(self).wf(),
            final(self).map() == old(self).map().remove(key@),
            r matches Some(v) ==> old(self).map().contains_key(key@) && v == old(self).map()[key@],
            r is None <==> !old(self).map().contains_key(key@),
    {
        match self.index_of(key) {
            Some(i) => {
                proof {
                    lemma_map_of_remove(self.entries@, i as int);
                    lemma_map_of_value(self.entries@, i as int);
                }
                let e = self.entries.remove(i);
                Some(e.1)
            },
            None => {
                proof {
                    assert(self.map().remove(key@) =~= self.map());
                }
                None
            },
        }
    }

    /// Replaces the value of entry `i`.
    pub fn set_value_at(&mut self, i: usize, value: V)
        requires
            old(self).wf(),
            i < old(self).entries_spec().len(),
        ensures
            final(self).wf(),
            final(self).entries_spec() == old(self).entries_spec().update(
                i as int,
                (old(self).entries_spec()[i as int].0, value),
            ),
            final(self).map() == old(self).map().insert(
                old(self).entries_spec()[i as int].0@,
                value,
            ),
    {
        proof {
            lemma_map_of_update(self.entries@, i as int, value);
        }
        let k = self.entries[i].0.clone();
        self.entries.set(i, (k, value));
    }
}

pub proof fn lemma_dom_len_seq<V>(s: Seq<(String, V)>)
    requires
        distinct_keys(s),
    ensures
        map_of(s).dom().len() == s.len(),
        map_of(s).dom().finite(),
    decreases s.len(),
{
    if s.len() > 0 {
        lemma_distinct_drop_last(s);
        lemma_dom_len_seq(s.drop_last());
    }
}

} // verus!
