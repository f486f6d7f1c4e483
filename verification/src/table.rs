//! Small maps with at most one value per key, kept in insertion order.

use vstd::prelude::*;

use crate::text::text_eq;

verus! {

/// A key of a [`Table`]: two keys are the same when their views are equal.
pub trait TableKey: View + Sized {
    /// Whether two keys are the same.
    fn same_key(&self, other: &Self) -> (same: bool)
        ensures
            same == (self@ == other@),
    ;
}

impl TableKey for String {
    fn same_key(&self, other: &Self) -> (same: bool) {
        text_eq(self, other)
    }
}

/// The keys of the entries, in order.
pub open spec fn keys_of<K: View, V>(entries: Seq<(K, V)>) -> Seq<K::V> {
    entries.map_values(|e: (K, V)| e.0@)
}

/// The map that the entries stand for; a later entry replaces an earlier one with its key.
pub open spec fn map_of<K: View, V>(entries: Seq<(K, V)>) -> Map<K::V, V>
    decreases entries.len(),
{
    if entries.len() == 0 {
        Map::empty()
    } else {
        map_of(entries.drop_last()).insert(entries.last().0@, entries.last().1)
    }
}

/// Looking up a key that stands at index `i` gives the value there.
proof fn lemma_map_of_at<K: View, V>(entries: Seq<(K, V)>, i: int)
    requires
        keys_of(entries).no_duplicates(),
        0 <= i < entries.len(),
    ensures
        map_of(entries).contains_key(entries[i].0@),
        map_of(entries)[entries[i].0@] == entries[i].1,
    decreases entries.len(),
{
    if i < entries.len() - 1 {
        let rest = entries.drop_last();
        assert(keys_of(rest) =~= keys_of(entries).drop_last());
        lemma_map_of_at(rest, i);
        assert(keys_of(entries)[i] != keys_of(entries)[entries.len() - 1]);
    }
}

/// The map has exactly the keys of the entries.
pub proof fn lemma_map_of_dom<K: View, V>(entries: Seq<(K, V)>)
    ensures
        forall|k: K::V| #[trigger]
            map_of(entries).contains_key(k) <==> keys_of(entries).contains(k),
    decreases entries.len(),
{
    if entries.len() > 0 {
        let rest = entries.drop_last();
        lemma_map_of_dom(rest);
        assert(keys_of(rest) =~= keys_of(entries).drop_last());
        assert forall|k: K::V| #[trigger]
            map_of(entries).contains_key(k) <==> keys_of(entries).contains(k) by {
            let keys = keys_of(entries);
            assert(map_of(rest).contains_key(k) <==> keys_of(rest).contains(k));
            if keys.contains(k) && k != entries.last().0@ {
                let i = choose|i: int| 0 <= i < keys.len() && keys[i] == k;
                assert(keys_of(rest)[i] == k);
            }
            if keys_of(rest).contains(k) {
                let i = choose|i: int| 0 <= i < keys_of(rest).len() && keys_of(rest)[i] == k;
                assert(keys[i] == k);
            }
            if k == entries.last().0@ {
                assert(keys[entries.len() - 1] == k);
            }
        }
    }
}

/// A map with at most one value per key.
#[derive(Debug)]
pub struct Table<K: TableKey, V> {
    entries: Vec<(K, V)>,
}

impl<K: TableKey, V> View for Table<K, V> {
    type V = Map<K::V, V>;

    closed spec fn view(&self) -> Map<K::V, V> {
        map_of(self.entries@)
    }
}

impl<K: TableKey, V> Table<K, V> {
    #[verifier::type_invariant]
    spec fn distinct(self) -> bool {
        keys_of(self.entries@).no_duplicates()
    }

    /// The entries in insertion order.
    pub closed spec fn items(self) -> Seq<(K, V)> {
        self.entries@
    }

    /// An empty table.
    pub fn new() -> (t: Self)
        ensures
            t@ == Map::<K::V, V>::empty(),
            t.items() == Seq::<(K, V)>::empty(),
    {
        Table { entries: Vec::new() }
    }

    /// The table stands for the map of its entries.
    pub proof fn lemma_items(&self)
        ensures
            self@ == map_of(self.items()),
    {
    }

    /// The number of entries.
    pub fn len(&self) -> (n: usize)
        ensures
            n == self.items().len(),
            keys_of(self.items()).no_duplicates(),
    {
        proof {
            use_type_invariant(self);
        }
        self.entries.len()
    }

    /// The key and value at an index in insertion order.
    pub fn entry(&self, i: usize) -> (e: (&K, &V))
        requires
            i < self.items().len(),
        ensures
            e.0 == self.items()[i as int].0,
            e.1 == self.items()[i as int].1,
            self@.contains_key(e.0@),
            self@[e.0@] == *e.1,
    {
        proof {
            use_type_invariant(self);
            lemma_map_of_at(self.entries@, i as int);
        }
        let e = &self.entries[i];
        (&e.0, &e.1)
    }

    /// The index of a key among the entries.
    fn position(entries: &Vec<(K, V)>, key: &K) -> (at: Option<usize>)
        ensures
            match at {
                Some(i) => i < entries@.len() && entries@[i as int].0@ == key@,
                None => !keys_of(entries@).contains(key@),
            },
    {
        for i in 0..entries.len()
            invariant
                forall|j: int| 0 <= j < i ==> entries@[j].0@ != key@,
        {
            if entries[i].0.same_key(key) {
                return Some(i);
            }
        }
        assert forall|j: int| 0 <= j < keys_of(entries@).len() implies keys_of(entries@)[j]
            != key@ by {
            assert(keys_of(entries@)[j] == entries@[j].0@);
        }
        None
    }

    /// The value of a key.
    pub fn get(&self, key: &K) -> (value: Option<&V>)
        ensures
            match value {
                Some(v) => self@.contains_key(key@) && self@[key@] == *v,
                None => !self@.contains_key(key@),
            },
    {
        proof {
            use_type_invariant(self);
            lemma_map_of_dom(self.entries@);
        }
        match Self::position(&self.entries, key) {
            Some(i) => {
                proof {
                    lemma_map_of_at(self.entries@, i as int);
                }
                Some(&self.entries[i].1)
            },
            None => None,
        }
    }

    /// Whether the table has a value for a key.
    pub fn contains_key(&self, key: &K) -> (found: bool)
        ensures
            found == self@.contains_key(key@),
    {
        self.get(key).is_some()
    }

    /// Sets the value of a key.
    pub fn insert(&mut self, key: K, value: V)
        ensures
            final(self)@ == old(self)@.insert(key@, value),
    {
        proof {
            use_type_invariant(&*self);
        }
        let mut entries: Vec<(K, V)> = Vec::new();
        std::mem::swap(&mut entries, &mut self.entries);
        let ghost before = entries@;
        match Self::position(&entries, &key) {
            Some(i) => {
                proof {
                    lemma_replace(before, i as int, (key, value));
                }
                entries[i] = (key, value);
            },
            None => {
                entries.push((key, value));
                proof {
                    assert(entries@.drop_last() =~= before);
                    assert(keys_of(entries@) =~= keys_of(before).push(key@));
                }
            },
        }
        self.entries = entries;
    }

    /// Removes a key and its value.
    pub fn remove(&mut self, key: &K)
        ensures
            final(self)@ == old(self)@.remove(key@),
    {
        proof {
            use_type_invariant(&*self);
        }
        let mut entries: Vec<(K, V)> = Vec::new();
        std::mem::swap(&mut entries, &mut self.entries);
        let ghost before = entries@;
        match Self::position(&entries, key) {
            Some(i) => {
                entries.remove(i);
                proof {
                    lemma_remove(before, i as int);
                }
            },
            None => {
                proof {
                    lemma_map_of_dom(before);
                    assert(map_of(before).remove(key@) =~= map_of(before));
                }
            },
        }
        self.entries = entries;
    }

    /// Removes all but some keys and their values.
    pub fn retain_keys(&mut self, keys: &[K])
        ensures
            final(self)@ == old(self)@.restrict(key_set(keys@)),
    {
        proof {
            use_type_invariant(&*self);
        }
        let mut entries: Vec<(K, V)> = Vec::new();
        std::mem::swap(&mut entries, &mut self.entries);
        let ghost before = map_of(entries@);
        let ghost kept = key_set(keys@);
        let mut i: usize = 0;
        while i < entries.len()
            invariant
                i <= entries@.len(),
                kept == key_set(keys@),
                keys_of(entries@).no_duplicates(),
                map_of(entries@).submap_of(before),
                forall|k: K::V| #[trigger]
                    before.contains_key(k) && kept.contains(k) ==> map_of(entries@).contains_key(k),
                forall|j: int| 0 <= j < i ==> kept.contains((#[trigger] entries@[j]).0@),
            decreases entries.len() - i,
        {
            if contains_key(keys, &entries[i].0) {
                i += 1;
            } else {
                proof {
                    lemma_remove(entries@, i as int);
                }
                entries.remove(i);
            }
        }
        proof {
            lemma_map_of_dom(entries@);
            assert forall|k: K::V| map_of(entries@).contains_key(k) <==> before.restrict(
                kept,
            ).contains_key(k) by {
                if map_of(entries@).contains_key(k) {
                    let j = choose|j: int|
                        0 <= j < keys_of(entries@).len() && keys_of(entries@)[j] == k;
                    assert(entries@[j].0@ == k);
                }
            }
            assert(map_of(entries@) =~= before.restrict(kept));
        }
        self.entries = entries;
    }

    /// Removes some keys and their values.
    pub fn remove_all(&mut self, keys: &[K])
        ensures
            final(self)@ == old(self)@.remove_keys(key_set(keys@)),
    {
        let ghost before = self@;
        assert(key_set(keys@.take(0)) =~= Set::empty());
        assert(before.remove_keys(Set::empty()) =~= before);
        for i in 0..keys.len()
            invariant
                before == old(self)@,
                self@ == before.remove_keys(key_set(keys@.take(i as int))),
        {
            self.remove(&keys[i]);
            proof {
                lemma_key_set_push(keys@.take(i as int), keys@[i as int]);
                assert(keys@.take(i + 1) =~= keys@.take(i as int).push(keys@[i as int]));
                assert(self@ =~= before.remove_keys(key_set(keys@.take(i + 1))));
            }
        }
        assert(keys@.take(keys@.len() as int) =~= keys@);
    }
}

/// Whether a key is among some keys.
pub fn contains_key<K: TableKey>(keys: &[K], key: &K) -> (found: bool)
    ensures
        found == key_set(keys@).contains(key@),
{
    for i in 0..keys.len()
        invariant
            forall|j: int| 0 <= j < i ==> (#[trigger] keys@[j])@ != key@,
    {
        if keys[i].same_key(key) {
            return true;
        }
    }
    false
}

/// What some keys hold.
pub open spec fn key_set<K: View>(keys: Seq<K>) -> Set<K::V> {
    Set::new(|k: K::V| exists|i: int| 0 <= i < keys.len() && (#[trigger] keys[i])@ == k)
}

/// One more key.
pub proof fn lemma_key_set_push<K: View>(keys: Seq<K>, key: K)
    ensures
        key_set(keys.push(key)) == key_set(keys).insert(key@),
{
    let more = keys.push(key);
    assert forall|k: K::V| key_set(more).contains(k) <==> key_set(keys).insert(key@).contains(
        k,
    ) by {
        if key_set(more).contains(k) {
            let i = choose|i: int| 0 <= i < more.len() && (#[trigger] more[i])@ == k;
            if i < keys.len() {
                assert(keys[i]@ == k);
            }
        }
        if key_set(keys).contains(k) {
            let i = choose|i: int| 0 <= i < keys.len() && (#[trigger] keys[i])@ == k;
            assert(more[i]@ == k);
        }
        if k == key@ {
            assert(more[keys.len() as int]@ == k);
        }
    }
    assert(key_set(more) =~= key_set(keys).insert(key@));
}

/// Replacing an entry under its own key sets the value of that key.
proof fn lemma_replace<K: View, V>(entries: Seq<(K, V)>, i: int, e: (K, V))
    requires
        keys_of(entries).no_duplicates(),
        0 <= i < entries.len(),
        entries[i].0@ == e.0@,
    ensures
        keys_of(entries.update(i, e)).no_duplicates(),
        map_of(entries.update(i, e)) == map_of(entries).insert(e.0@, e.1),
    decreases entries.len(),
{
    let after = entries.update(i, e);
    assert(keys_of(after) =~= keys_of(entries));
    let rest = entries.drop_last();
    assert(keys_of(rest) =~= keys_of(entries).drop_last());
    if i < entries.len() - 1 {
        lemma_replace(rest, i, e);
        assert(after.drop_last() =~= rest.update(i, e));
        assert(keys_of(entries)[i] != keys_of(entries)[entries.len() - 1]);
        assert(map_of(after) =~= map_of(entries).insert(e.0@, e.1));
    } else {
        assert(after.drop_last() =~= rest);
        assert(map_of(after) =~= map_of(entries).insert(e.0@, e.1));
    }
}

/// Removing an entry removes its key.
proof fn lemma_remove<K: View, V>(entries: Seq<(K, V)>, i: int)
    requires
        keys_of(entries).no_duplicates(),
        0 <= i < entries.len(),
    ensures
        keys_of(entries.remove(i)).no_duplicates(),
        map_of(entries.remove(i)) == map_of(entries).remove(entries[i].0@),
    decreases entries.len(),
{
    let after = entries.remove(i);
    let k = entries[i].0@;
    assert(keys_of(after) =~= keys_of(entries).remove(i));
    let rest = entries.drop_last();
    assert(keys_of(rest) =~= keys_of(entries).drop_last());
    if i < entries.len() - 1 {
        lemma_remove(rest, i);
        assert(after.drop_last() =~= rest.remove(i));
        assert(keys_of(entries)[i] != keys_of(entries)[entries.len() - 1]);
        assert(after.last() == entries.last());
        assert(map_of(after) =~= map_of(entries).remove(k));
    } else {
        assert(after =~= rest);
        lemma_map_of_dom(rest);
        assert forall|j: int| 0 <= j < keys_of(rest).len() implies keys_of(rest)[j] != k by {
            assert(keys_of(entries)[j] != keys_of(entries)[i]);
        }
        assert(map_of(after) =~= map_of(entries).remove(k));
    }
}

} // verus!
