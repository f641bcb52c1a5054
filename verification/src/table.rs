//! A small map from keys to values, kept as a list of entries.
//!
//! The registries of the engine are read by key, filled at startup and hold a
//! handful of entries. A `Table` keeps its entries in the order in which their
//! keys first came, each key once.

use vstd::prelude::*;

verus! {

/// A type that can key a `Table`: values with the same `key` are one key.
pub trait TableKey: Sized {
    /// What identifies a key.
    type Id;

    /// The identity of this key.
    spec fn key(&self) -> Self::Id;

    /// Whether the two are one key.
    fn same_key(&self, other: &Self) -> (r: bool)
        ensures
            r == (self.key() == other.key()),
    ;
}

/// Entries with distinct keys, oldest key first.
pub struct Table<K: TableKey, V> {
    keys: Vec<K>,
    values: Vec<V>,
}

/// The entries as a map.
pub open spec fn as_map<K: TableKey, V>(entries: Seq<(K, V)>) -> Map<K::Id, V>
    decreases entries.len(),
{
    if entries.len() == 0 {
        Map::empty()
    } else {
        as_map(entries.drop_last()).insert(entries.last().0.key(), entries.last().1)
    }
}

/// No two entries have the same key.
pub open spec fn distinct_keys<K: TableKey, V>(entries: Seq<(K, V)>) -> bool {
    forall|i: int, j: int|
        0 <= i < j < entries.len() ==> (#[trigger] entries[i]).0.key() != (
        #[trigger] entries[j]).0.key()
}

/// The entries after `value` was put at `key`: in the place of the key if it was
/// there, otherwise at the end.
pub open spec fn is_put<K: TableKey, V>(
    before: Seq<(K, V)>,
    after: Seq<(K, V)>,
    key: K,
    value: V,
) -> bool {
    if as_map(before).contains_key(key.key()) {
        exists|i: int|
            {
                &&& 0 <= i < before.len()
                &&& (#[trigger] before[i]).0.key() == key.key()
                &&& after == before.update(i, (before[i].0, value))
            }
    } else {
        after == before.push((key, value))
    }
}

/// The map holds exactly the entries, and as many keys as there are entries.
pub proof fn lemma_as_map<K: TableKey, V>(entries: Seq<(K, V)>)
    requires
        distinct_keys(entries),
    ensures
        as_map(entries).dom().finite(),
        as_map(entries).len() == entries.len(),
        forall|i: int|
            0 <= i < entries.len() ==> as_map(entries).contains_key(
                (#[trigger] entries[i]).0.key(),
            ) && as_map(entries)[entries[i].0.key()] == entries[i].1,
        forall|k: K::Id|
            as_map(entries).contains_key(k) ==> exists|i: int|
                0 <= i < entries.len() && (#[trigger] entries[i]).0.key() == k,
    decreases entries.len(),
{
    if entries.len() > 0 {
        let front = entries.drop_last();
        assert forall|i: int, j: int| 0 <= i < j < front.len() implies (
        #[trigger] front[i]).0.key() != (#[trigger] front[j]).0.key() by {
            assert(entries[i].0.key() != entries[j].0.key());
        }
        lemma_as_map(front);
        let last = entries.last();
        assert(!as_map(front).contains_key(last.0.key())) by {
            if as_map(front).contains_key(last.0.key()) {
                let i = choose|i: int|
                    0 <= i < front.len() && (#[trigger] front[i]).0.key() == last.0.key();
                assert(entries[i].0.key() != entries[entries.len() - 1].0.key());
            }
        }
        assert forall|i: int| 0 <= i < entries.len() implies as_map(entries).contains_key(
            (#[trigger] entries[i]).0.key(),
        ) && as_map(entries)[entries[i].0.key()] == entries[i].1 by {
            if i < front.len() {
                assert(front[i] == entries[i]);
                assert(entries[i].0.key() != entries[entries.len() - 1].0.key());
            }
        }
        assert forall|k: K::Id| as_map(entries).contains_key(k) implies exists|i: int|
            0 <= i < entries.len() && (#[trigger] entries[i]).0.key() == k by {
            if k == last.0.key() {
                assert(entries[entries.len() - 1].0.key() == k);
            } else {
                let i = choose|i: int| 0 <= i < front.len() && (#[trigger] front[i]).0.key() == k;
                assert(entries[i].0.key() == k);
            }
        }
    }
}

/// Exchanging the value of one entry changes the map at its key alone.
proof fn lemma_as_map_update<K: TableKey, V>(entries: Seq<(K, V)>, at: int, value: V)
    requires
        distinct_keys(entries),
        0 <= at < entries.len(),
    ensures
        distinct_keys(entries.update(at, (entries[at].0, value))),
        as_map(entries.update(at, (entries[at].0, value))) == as_map(entries).insert(
            entries[at].0.key(),
            value,
        ),
{
    let changed = entries.update(at, (entries[at].0, value));
    assert forall|i: int, j: int| 0 <= i < j < changed.len() implies (
    #[trigger] changed[i]).0.key() != (#[trigger] changed[j]).0.key() by {
        assert(entries[i].0.key() != entries[j].0.key());
    }
    lemma_as_map(entries);
    lemma_as_map(changed);
    let left = as_map(changed);
    let right = as_map(entries).insert(entries[at].0.key(), value);
    assert forall|k: K::Id| left.contains_key(k) == right.contains_key(k) && (left.contains_key(k)
        ==> left[k] == right[k]) by {
        if left.contains_key(k) {
            let i = choose|i: int| 0 <= i < changed.len() && (#[trigger] changed[i]).0.key() == k;
            assert(changed[i].0 == entries[i].0);
            assert(entries[i].0.key() == k);
            if i != at {
                assert(entries[i].0.key() != entries[at].0.key()) by {
                    if i < at {
                        assert(entries[i].0.key() != entries[at].0.key());
                    } else {
                        assert(entries[at].0.key() != entries[i].0.key());
                    }
                }
            }
        }
        if right.contains_key(k) {
            if k == entries[at].0.key() {
                assert(changed[at].0.key() == k);
            } else {
                let i = choose|i: int|
                    0 <= i < entries.len() && (#[trigger] entries[i]).0.key() == k;
                assert(changed[i].0.key() == k);
            }
        }
    }
    assert(left =~= right);
}

/// A key that is absent can be added at the end.
proof fn lemma_as_map_push<K: TableKey, V>(entries: Seq<(K, V)>, key: K, value: V)
    requires
        distinct_keys(entries),
        forall|i: int| 0 <= i < entries.len() ==> (#[trigger] entries[i]).0.key() != key.key(),
    ensures
        !as_map(entries).contains_key(key.key()),
        distinct_keys(entries.push((key, value))),
        as_map(entries.push((key, value))) == as_map(entries).insert(key.key(), value),
{
    let longer = entries.push((key, value));
    assert(longer.drop_last() =~= entries);
    assert forall|i: int, j: int| 0 <= i < j < longer.len() implies (
    #[trigger] longer[i]).0.key() != (#[trigger] longer[j]).0.key() by {
        if j < entries.len() {
            assert(entries[i].0.key() != entries[j].0.key());
        } else {
            assert(entries[i].0.key() != key.key());
        }
    }
    lemma_as_map(entries);
}

impl<K: TableKey, V> Table<K, V> {
    #[verifier::type_invariant]
    closed spec fn wf(self) -> bool {
        &&& self.keys@.len() == self.values@.len()
        &&& forall|i: int, j: int|
            0 <= i < j < self.keys@.len() ==> (#[trigger] self.keys@[i]).key() != (
            #[trigger] self.keys@[j]).key()
    }

    /// The entries, oldest key first.
    pub closed spec fn entries(&self) -> Seq<(K, V)> {
        self.keys@.zip_with(self.values@)
    }

    /// The entries as a map.
    pub open spec fn view(&self) -> Map<K::Id, V> {
        as_map(self.entries())
    }

    proof fn lemma_entries(&self)
        requires
            self.wf(),
        ensures
            self.entries().len() == self.keys@.len(),
            forall|i: int|
                0 <= i < self.keys@.len() ==> #[trigger] self.entries()[i] == (
                    self.keys@[i],
                    self.values@[i],
                ),
            distinct_keys(self.entries()),
    {
        assert forall|i: int, j: int| 0 <= i < j < self.entries().len() implies (
        #[trigger] self.entries()[i]).0.key() != (#[trigger] self.entries()[j]).0.key() by {
            assert(self.keys@[i].key() != self.keys@[j].key());
        }
    }

    /// A table without entries.
    pub fn new() -> (r: Self)
        ensures
            r@ == Map::<K::Id, V>::empty(),
            r.entries() == Seq::<(K, V)>::empty(),
    {
        let r = Table { keys: Vec::new(), values: Vec::new() };
        assert(r.entries() =~= Seq::<(K, V)>::empty());
        r
    }

    /// How many entries there are.
    pub fn len(&self) -> (r: usize)
        ensures
            r == self@.len(),
            r == self.entries().len(),
            self@.dom().finite(),
            distinct_keys(self.entries()),
    {
        proof {
            use_type_invariant(self);
            self.lemma_entries();
            lemma_as_map(self.entries());
        }
        self.keys.len()
    }

    /// The position of `key`, if it is there.
    fn find(&self, key: &K) -> (r: Option<usize>)
        ensures
            self.wf(),
            distinct_keys(self.entries()),
            match r {
                Some(i) => i < self.keys@.len() && self.entries()[i as int].0.key() == key.key(),
                None => forall|i: int|
                    0 <= i < self.entries().len() ==> (#[trigger] self.entries()[i]).0.key()
                        != key.key(),
            },
    {
        proof {
            use_type_invariant(self);
            self.lemma_entries();
        }
        let mut i: usize = 0;
        while i < self.keys.len()
            invariant
                i <= self.keys@.len(),
                self.wf(),
                self.entries().len() == self.keys@.len(),
                forall|j: int|
                    0 <= j < self.keys@.len() ==> #[trigger] self.entries()[j] == (
                        self.keys@[j],
                        self.values@[j],
                    ),
                distinct_keys(self.entries()),
                forall|j: int| 0 <= j < i ==> (#[trigger] self.keys@[j]).key() != key.key(),
            decreases self.keys@.len() - i,
        {
            if self.keys[i].same_key(key) {
                return Some(i);
            }
            i += 1;
        }
        None
    }

    /// Whether `key` is there.
    pub fn contains(&self, key: &K) -> (r: bool)
        ensures
            r == self@.contains_key(key.key()),
    {
        self.get(key).is_some()
    }

    /// The value at `key`.
    pub fn get(&self, key: &K) -> (r: Option<&V>)
        ensures
            match r {
                Some(v) => self@.contains_key(key.key()) && *v == self@[key.key()],
                None => !self@.contains_key(key.key()),
            },
    {
        let found = self.find(key);
        proof {
            self.lemma_entries();
            lemma_as_map(self.entries());
        }
        match found {
            Some(i) => Some(&self.values[i]),
            None => None,
        }
    }

    /// The value at `key`, to be changed in place.
    pub fn get_mut(&mut self, key: &K) -> (r: Option<&mut V>)
        ensures
            match r {
                Some(v) => {
                    &&& old(self)@.contains_key(key.key())
                    &&& *v == old(self)@[key.key()]
                    &&& final(self)@ == old(self)@.insert(key.key(), *final(v))
                },
                None => !old(self)@.contains_key(key.key()) && *final(self) == *old(self),
            },
    {
        let found = self.find(key);
        let ghost before = *self;
        proof {
            self.lemma_entries();
            lemma_as_map(self.entries());
        }
        match found {
            Some(i) => {
                let v = &mut self.values[i];
                proof {
                    let after = before.entries().update(i as int, (before.keys@[i as int], *final(v)));
                    assert(before.keys@.zip_with(before.values@.update(i as int, *final(v)))
                        =~= after);
                    lemma_as_map_update(before.entries(), i as int, *final(v));
                }
                Some(v)
            },
            None => None,
        }
    }

    /// The entry at position `index`, oldest key first.
    pub fn entry(&self, index: usize) -> (r: (&K, &V))
        requires
            index < self.entries().len(),
        ensures
            (*r.0, *r.1) == self.entries()[index as int],
            self@.contains_key(r.0.key()),
            self@[r.0.key()] == *r.1,
    {
        proof {
            use_type_invariant(self);
            self.lemma_entries();
            lemma_as_map(self.entries());
            assert(self.entries()[index as int] == (
                self.keys@[index as int],
                self.values@[index as int],
            ));
        }
        (&self.keys[index], &self.values[index])
    }

    /// Puts another value at position `index`, under the key that stands there.
    pub fn replace(&mut self, index: usize, value: V)
        requires
            index < old(self).entries().len(),
        ensures
            final(self).entries() == old(self).entries().update(
                index as int,
                (old(self).entries()[index as int].0, value),
            ),
    {
        proof {
            use_type_invariant(&*self);
            self.lemma_entries();
        }
        let ghost before = *self;
        self.values[index] = value;
        proof {
            assert(before.entries()[index as int].0 == before.keys@[index as int]);
            assert(self.entries() =~= before.entries().update(
                index as int,
                (before.keys@[index as int], value),
            ));
        }
    }

    /// Puts `value` at `key`, and hands back what stood there.
    pub fn insert(&mut self, key: K, value: V) -> (r: Option<V>)
        ensures
            final(self)@ == old(self)@.insert(key.key(), value),
            is_put(old(self).entries(), final(self).entries(), key, value),
            old(self)@.dom().finite(),
            match r {
                Some(v) => old(self)@.contains_key(key.key()) && v == old(self)@[key.key()],
                None => !old(self)@.contains_key(key.key()),
            },
    {
        let found = self.find(&key);
        let ghost before = *self;
        proof {
            self.lemma_entries();
            lemma_as_map(self.entries());
        }
        match found {
            Some(i) => {
                let mut value = value;
                let ghost new_value = value;
                core::mem::swap(&mut self.values[i], &mut value);
                proof {
                    lemma_as_map_update(before.entries(), i as int, new_value);
                    assert(self.entries() =~= before.entries().update(
                        i as int,
                        (before.keys@[i as int], new_value),
                    ));
                    assert(before.entries()[i as int].0 == before.keys@[i as int]);
                }
                Some(value)
            },
            None => {
                proof {
                    lemma_as_map_push(before.entries(), key, value);
                }
                let mut taken = Table::new();
                core::mem::swap(self, &mut taken);
                let Table { mut keys, mut values } = taken;
                keys.push(key);
                values.push(value);
                proof {
                    assert forall|i: int, j: int| 0 <= i < j < keys@.len() implies (
                    #[trigger] keys@[i]).key() != (#[trigger] keys@[j]).key() by {
                        assert(before.entries()[i].0 == before.keys@[i]);
                        if j < before.keys@.len() {
                            assert(before.keys@[i].key() != before.keys@[j].key());
                        }
                    }
                }
                *self = Table { keys, values };
                assert(self.entries() =~= before.entries().push((key, value)));
                None
            },
        }
    }

    /// Every key, oldest first.
    pub fn keys(&self) -> (r: Vec<&K>)
        ensures
            r@.len() == self.entries().len(),
            forall|i: int| 0 <= i < r@.len() ==> *(#[trigger] r@[i]) == self.entries()[i].0,
    {
        proof {
            use_type_invariant(self);
            self.lemma_entries();
        }
        let mut out: Vec<&K> = Vec::new();
        let mut i: usize = 0;
        while i < self.keys.len()
            invariant
                i <= self.keys@.len(),
                out@.len() == i,
                forall|j: int| 0 <= j < i ==> *(#[trigger] out@[j]) == self.keys@[j],
            decreases self.keys@.len() - i,
        {
            out.push(&self.keys[i]);
            i += 1;
        }
        out
    }
}

/// What is put stands under its key, in the place of the key if that was there
/// and else behind all others; every other entry is as and where it was.
pub proof fn law_put_entries_are_found<K: TableKey, V>(
    before: Seq<(K, V)>,
    after: Seq<(K, V)>,
    key: K,
    value: V,
) -> (at: int)
    requires
        distinct_keys(before),
        is_put(before, after, key, value),
    ensures
        0 <= at < after.len(),
        after[at].0.key() == key.key(),
        after[at].1 == value,
        at < before.len() ==> after.len() == before.len() && before[at].0.key() == key.key(),
        at == before.len() ==> after.len() == before.len() + 1,
        at <= before.len(),
        forall|i: int|
            0 <= i < after.len() && i != at ==> i < before.len() && #[trigger] after[i] == before[i]
                && after[i].0.key() != key.key(),
{
    lemma_as_map(before);
    if as_map(before).contains_key(key.key()) {
        let at = choose|i: int|
            {
                &&& 0 <= i < before.len()
                &&& (#[trigger] before[i]).0.key() == key.key()
                &&& after == before.update(i, (before[i].0, value))
            };
        assert forall|i: int| 0 <= i < after.len() && i != at implies i < before.len()
            && #[trigger] after[i] == before[i] && after[i].0.key() != key.key() by {
            if i < at {
                assert(before[i].0.key() != before[at].0.key());
            } else {
                assert(before[at].0.key() != before[i].0.key());
            }
        }
        at
    } else {
        assert forall|i: int| 0 <= i < before.len() implies (#[trigger] before[i]).0.key()
            != key.key() by {
            assert(as_map(before).contains_key(before[i].0.key()));
        }
        before.len() as int
    }
}

} // verus!
