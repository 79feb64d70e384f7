//! Small keyed tables.
//!
//! A [`Table`] holds key/value entries in the order in which their keys first
//! came, each key once.  Its view is the mathematical map from keys to values.

use vstd::prelude::*;

verus! {

/// A type whose values can serve as keys of a [`Table`].
///
/// Two keys are the same key exactly when their views are equal.
pub trait Key: View + Sized {
    fn same_key(&self, other: &Self) -> (r: bool)
        ensures
            r == (self@ == other@),
    ;
}

impl Key for String {
    fn same_key(&self, other: &Self) -> (r: bool) {
        *self == *other
    }
}

impl Key for u64 {
    fn same_key(&self, other: &Self) -> (r: bool) {
        *self == *other
    }
}

/// No key occurs twice in `entries`.
pub open spec fn distinct_keys<K: View, V>(entries: Seq<(K, V)>) -> bool {
    forall|i: int, j: int|
        #![trigger entries[i], entries[j]]
        0 <= i < j < entries.len() ==> entries[i].0@ != entries[j].0@
}

/// Some entry has the key `k`.
pub open spec fn has_key<K: View, V>(entries: Seq<(K, V)>, k: K::V) -> bool {
    exists|i: int| 0 <= i < entries.len() && (#[trigger] entries[i]).0@ == k
}

/// The position of the entry with key `k`, where there is one.
pub open spec fn position_of<K: View, V>(entries: Seq<(K, V)>, k: K::V) -> int {
    choose|i: int| 0 <= i < entries.len() && (#[trigger] entries[i]).0@ == k
}

/// The map that a sequence of entries with distinct keys stands for.
pub open spec fn as_map<K: View, V>(entries: Seq<(K, V)>) -> Map<K::V, V> {
    Map::new(|k: K::V| has_key(entries, k), |k: K::V| entries[position_of(entries, k)].1)
}

/// A table of entries with distinct keys.
pub struct Table<K: Key, V> {
    entries: Vec<(K, V)>,
}

impl<K: Key, V> View for Table<K, V> {
    type V = Map<K::V, V>;

    open spec fn view(&self) -> Map<K::V, V> {
        as_map(self.entries())
    }
}

impl<K: Key, V> Table<K, V> {
    #[verifier::type_invariant]
    spec fn well_formed(self) -> bool {
        distinct_keys(self.entries@)
    }

    /// The entries in their order.
    pub closed spec fn entries(&self) -> Seq<(K, V)> {
        self.entries@
    }

    /// An empty table.
    pub fn new() -> (t: Self)
        ensures
            t.entries() == Seq::<(K, V)>::empty(),
            t@ == Map::<K::V, V>::empty(),
    {
        let t = Table { entries: Vec::new() };
        assert(t@ =~= Map::<K::V, V>::empty());
        t
    }

    /// The number of entries.
    pub fn len(&self) -> (n: usize)
        ensures
            n == self.entries().len(),
            distinct_keys(self.entries()),
            self@.dom().finite(),
            n == self@.dom().len(),
    {
        proof {
            use_type_invariant(self);
            lemma_dom_len(self.entries@);
        }
        self.entries.len()
    }

    /// Whether the table has no entry.
    pub fn is_empty(&self) -> (r: bool)
        ensures
            r == (self@ =~= Map::<K::V, V>::empty()),
            r == (self.entries().len() == 0),
    {
        let r = self.entries.len() == 0;
        proof {
            if self.entries@.len() > 0 {
                assert(has_key(self.entries@, self.entries@[0].0@));
                assert(self@.contains_key(self.entries@[0].0@));
            }
        }
        r
    }

    /// The position of `key`, or `None` if the table does not hold it.
    fn find(&self, key: &K) -> (r: Option<usize>)
        ensures
            match r {
                Some(i) => i < self.entries().len() && self.entries()[i as int].0@ == key@,
                None => !has_key(self.entries(), key@),
            },
    {
        let mut i: usize = 0;
        while i < self.entries.len()
            invariant
                i <= self.entries@.len(),
                forall|j: int| 0 <= j < i ==> (#[trigger] self.entries@[j]).0@ != key@,
            decreases self.entries@.len() - i,
        {
            if self.entries[i].0.same_key(key) {
                return Some(i);
            }
            i = i + 1;
        }
        None
    }

    /// Whether the table holds `key`.
    pub fn contains_key(&self, key: &K) -> (r: bool)
        ensures
            r == self@.contains_key(key@),
    {
        match self.find(key) {
            Some(i) => {
                assert(has_key(self.entries@, self.entries@[i as int].0@));
                true
            },
            None => false,
        }
    }

    /// The value under `key`.
    pub fn get(&self, key: &K) -> (r: Option<&V>)
        ensures
            match r {
                Some(v) => self@.contains_key(key@) && *v == self@[key@],
                None => !self@.contains_key(key@),
            },
    {
        proof {
            use_type_invariant(self);
        }
        match self.find(key) {
            Some(i) => {
                proof {
                    lemma_position(self.entries@, i as int);
                }
                Some(&self.entries[i].1)
            },
            None => None,
        }
    }

    /// The key and the value of the entry at `i`.
    pub fn entry(&self, i: usize) -> (r: (&K, &V))
        requires
            i < self.entries().len(),
        ensures
            *r.0 == self.entries()[i as int].0,
            *r.1 == self.entries()[i as int].1,
            self@.contains_key(r.0@),
            self@[r.0@] == *r.1,
    {
        proof {
            use_type_invariant(self);
            lemma_position(self.entries@, i as int);
        }
        let e = &self.entries[i];
        (&e.0, &e.1)
    }

    /// Put `value` under `key`; a value that was there is replaced.
    pub fn insert(&mut self, key: K, value: V)
        ensures
            final(self)@ == old(self)@.insert(key@, value),
            !old(self)@.contains_key(key@) ==> final(self).entries() == old(
                self,
            ).entries().push((key, value)),
    {
        proof {
            use_type_invariant(&*self);
        }
        let found = self.find(&key);
        let mut entries: Vec<(K, V)> = Vec::new();
        std::mem::swap(&mut entries, &mut self.entries);
        let ghost before = entries@;
        match found {
            Some(i) => {
                proof {
                    assert(has_key(before, key@)) by {
                        assert(before[i as int].0@ == key@);
                    }
                    lemma_update(before, i as int, (key, value));
                }
                entries.set(i, (key, value));
            },
            None => {
                proof {
                    lemma_push(before, (key, value));
                }
                entries.push((key, value));
            },
        }
        self.entries = entries;
    }

    /// Take the entry of `key` out of the table.
    pub fn remove(&mut self, key: &K) -> (r: Option<V>)
        ensures
            final(self)@ == old(self)@.remove(key@),
            match r {
                Some(v) => old(self)@.contains_key(key@) && v == old(self)@[key@],
                None => !old(self)@.contains_key(key@),
            },
    {
        proof {
            use_type_invariant(&*self);
        }
        match self.find(key) {
            Some(i) => {
                let mut entries: Vec<(K, V)> = Vec::new();
                std::mem::swap(&mut entries, &mut self.entries);
                proof {
                    lemma_position(entries@, i as int);
                    lemma_remove(entries@, i as int);
                }
                let e = entries.remove(i);
                self.entries = entries;
                Some(e.1)
            },
            None => {
                assert(self@.remove(key@) =~= self@);
                None
            },
        }
    }

    /// Take in the entries of another table; its values replace those under the same
    /// keys.
    pub fn absorb(&mut self, other: Table<K, V>)
        ensures
            final(self)@ == old(self)@.union_prefer_right(other@),
    {
        proof {
            use_type_invariant(&other);
        }
        let ghost before = self@;
        let ghost all = other.entries@;
        let mut rest = other.entries;
        let ghost mut n: int = 0;
        proof {
            assert(all.take(0) =~= Seq::<(K, V)>::empty());
            assert(as_map(all.take(0)) =~= Map::<K::V, V>::empty());
            assert(before.union_prefer_right(as_map(all.take(0))) =~= before);
        }
        while rest.len() > 0
            invariant
                0 <= n <= all.len(),
                distinct_keys(all),
                rest@ == all.skip(n),
                self@ == before.union_prefer_right(as_map(all.take(n))),
            decreases rest@.len(),
        {
            let (key, value) = rest.remove(0);
            proof {
                let done = all.take(n);
                let e = (key, value);
                assert(e == all[n]);
                assert(all.take(n + 1) =~= done.push(e));
                assert(distinct_keys(done)) by {
                    assert forall|i: int, j: int|
                        #![trigger done[i], done[j]]
                        0 <= i < j < done.len() implies done[i].0@ != done[j].0@ by {
                        assert(all[i].0@ != all[j].0@);
                    }
                }
                assert(!has_key(done, e.0@)) by {
                    if has_key(done, e.0@) {
                        let i = choose|i: int|
                            0 <= i < done.len() && (#[trigger] done[i]).0@ == e.0@;
                        assert(all[i].0@ != all[n].0@);
                    }
                }
                lemma_push(done, e);
                assert(before.union_prefer_right(as_map(done)).insert(e.0@, e.1)
                    =~= before.union_prefer_right(as_map(done).insert(e.0@, e.1)));
                assert(rest@ =~= all.skip(n + 1));
                n = n + 1;
            }
            self.insert(key, value);
        }
        assert(all.take(n) =~= all);
    }
}

/// In a sequence of entries with distinct keys, an entry stands at the position
/// of its key.
pub proof fn lemma_position<K: View, V>(entries: Seq<(K, V)>, i: int)
    requires
        distinct_keys(entries),
        0 <= i < entries.len(),
    ensures
        position_of(entries, entries[i].0@) == i,
        as_map(entries).contains_key(entries[i].0@),
        as_map(entries)[entries[i].0@] == entries[i].1,
{
    let k = entries[i].0@;
    assert(has_key(entries, k));
    let p = position_of(entries, k);
    assert(0 <= p < entries.len() && entries[p].0@ == k);
    if p < i {
        assert(entries[p].0@ != entries[i].0@);
    } else if i < p {
        assert(entries[i].0@ != entries[p].0@);
    }
}

proof fn lemma_push<K: View, V>(entries: Seq<(K, V)>, e: (K, V))
    requires
        distinct_keys(entries),
        !has_key(entries, e.0@),
    ensures
        distinct_keys(entries.push(e)),
        as_map(entries.push(e)) == as_map(entries).insert(e.0@, e.1),
{
    let after = entries.push(e);
    assert forall|i: int, j: int|
        #![trigger after[i], after[j]]
        0 <= i < j < after.len() implies after[i].0@ != after[j].0@ by {
        assert(after[i] == entries[i]);
        if j < entries.len() {
            assert(after[j] == entries[j]);
        }
    }
    let m = as_map(entries).insert(e.0@, e.1);
    assert forall|j: int| 0 <= j < after.len() implies m.contains_key(
        (#[trigger] after[j]).0@,
    ) && m[after[j].0@] == after[j].1 by {
        if j < entries.len() {
            assert(after[j] == entries[j]);
            lemma_position(entries, j);
            assert(has_key(entries, entries[j].0@));
        }
    }
    assert forall|q: K::V| m.contains_key(q) implies has_key(after, q) by {
        if q == e.0@ {
            assert(after[entries.len() as int].0@ == q);
        } else {
            let p = position_of(entries, q);
            assert(0 <= p < entries.len() && entries[p].0@ == q);
            assert(after[p] == entries[p]);
        }
    }
    lemma_is_map(after, m);
}

proof fn lemma_update<K: View, V>(entries: Seq<(K, V)>, i: int, e: (K, V))
    requires
        distinct_keys(entries),
        0 <= i < entries.len(),
        entries[i].0@ == e.0@,
    ensures
        distinct_keys(entries.update(i, e)),
        as_map(entries.update(i, e)) == as_map(entries).insert(e.0@, e.1),
{
    let after = entries.update(i, e);
    assert forall|a: int, b: int|
        #![trigger after[a], after[b]]
        0 <= a < b < after.len() implies after[a].0@ != after[b].0@ by {
        assert(entries[a].0@ != entries[b].0@);
    }
    let m = as_map(entries).insert(e.0@, e.1);
    assert forall|j: int| 0 <= j < after.len() implies m.contains_key(
        (#[trigger] after[j]).0@,
    ) && m[after[j].0@] == after[j].1 by {
        if j != i {
            assert(after[j] == entries[j]);
            lemma_position(entries, j);
            lemma_position(entries, i);
        }
    }
    assert forall|q: K::V| m.contains_key(q) implies has_key(after, q) by {
        if q == e.0@ {
            assert(after[i].0@ == q);
        } else {
            let p = position_of(entries, q);
            assert(0 <= p < entries.len() && entries[p].0@ == q);
            assert(after[p] == entries[p]);
        }
    }
    lemma_is_map(after, m);
}

proof fn lemma_remove<K: View, V>(entries: Seq<(K, V)>, i: int)
    requires
        distinct_keys(entries),
        0 <= i < entries.len(),
    ensures
        distinct_keys(entries.remove(i)),
        as_map(entries.remove(i)) == as_map(entries).remove(entries[i].0@),
{
    let after = entries.remove(i);
    let k = entries[i].0@;
    assert forall|a: int, b: int|
        #![trigger after[a], after[b]]
        0 <= a < b < after.len() implies after[a].0@ != after[b].0@ by {
        let x = if a < i { a } else { a + 1 };
        let y = if b < i { b } else { b + 1 };
        assert(entries[x].0@ != entries[y].0@);
    }
    let m = as_map(entries).remove(k);
    assert forall|j: int| 0 <= j < after.len() implies m.contains_key(
        (#[trigger] after[j]).0@,
    ) && m[after[j].0@] == after[j].1 by {
        let x = if j < i { j } else { j + 1 };
        assert(after[j] == entries[x]);
        lemma_position(entries, x);
        if x < i {
            assert(entries[x].0@ != entries[i].0@);
        } else {
            assert(entries[i].0@ != entries[x].0@);
        }
    }
    assert forall|q: K::V| m.contains_key(q) implies has_key(after, q) by {
        let p = position_of(entries, q);
        assert(0 <= p < entries.len() && entries[p].0@ == q);
        let x = if p < i { p } else { p - 1 };
        assert(after[x] == entries[p]);
    }
    lemma_is_map(after, m);
}

/// A map that agrees with every entry, and has no other key, is the map of the
/// entries.
pub proof fn lemma_is_map<K: View, V>(entries: Seq<(K, V)>, m: Map<K::V, V>)
    requires
        distinct_keys(entries),
        forall|j: int|
            0 <= j < entries.len() ==> m.contains_key((#[trigger] entries[j]).0@)
                && m[entries[j].0@] == entries[j].1,
        forall|q: K::V| m.contains_key(q) ==> has_key(entries, q),
    ensures
        as_map(entries) == m,
{
    let a = as_map(entries);
    assert forall|q: K::V| a.contains_key(q) == m.contains_key(q) && (m.contains_key(q) ==> a[q]
        == m[q]) by {
        if has_key(entries, q) {
            let p = position_of(entries, q);
            assert(0 <= p < entries.len() && entries[p].0@ == q);
            assert(m.contains_key(entries[p].0@));
        }
    }
    assert(a =~= m);
}

proof fn lemma_dom_len<K: View, V>(entries: Seq<(K, V)>)
    requires
        distinct_keys(entries),
    ensures
        as_map(entries).dom().finite(),
        as_map(entries).dom().len() == entries.len(),
    decreases entries.len(),
{
    if entries.len() == 0 {
        assert(as_map(entries).dom() =~= Set::<K::V>::empty());
    } else {
        let front = entries.drop_last();
        let e = entries.last();
        assert(distinct_keys(front));
        lemma_dom_len(front);
        assert(!has_key(front, e.0@)) by {
            if has_key(front, e.0@) {
                let p = position_of(front, e.0@);
                assert(front[p] == entries[p]);
                assert(entries[p].0@ != entries[entries.len() - 1].0@);
            }
        }
        lemma_push(front, e);
        assert(front.push(e) =~= entries);
        assert(as_map(entries).dom() =~= as_map(front).dom().insert(e.0@));
    }
}

} // verus!
