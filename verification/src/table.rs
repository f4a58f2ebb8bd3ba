//! A map from strings that can also be walked, in a fixed order.

use vstd::hash_map::StringHashMap;
use vstd::prelude::*;

verus! {

/// The map that a list of entries stands for, where no key occurs twice.
pub open spec fn entry_map<V>(entries: Seq<(Seq<char>, V)>) -> Map<Seq<char>, V> {
    Map::new(
        |key: Seq<char>| exists|i: int| 0 <= i < entries.len() && (#[trigger] entries[i]).0 == key,
        |key: Seq<char>|
            entries[choose|i: int| 0 <= i < entries.len() && (#[trigger] entries[i]).0 == key].1,
    )
}

/// No two entries share a key.
pub open spec fn distinct_keys<V>(entries: Seq<(Seq<char>, V)>) -> bool {
    forall|i: int, j: int|
        #![trigger entries[i], entries[j]]
        0 <= i < j < entries.len() ==> entries[i].0 != entries[j].0
}

/// A map from strings to `V`. The entries lie in a vector, so that they can be
/// walked; a hash map tells where the entry of a key lies.
#[verifier::reject_recursive_types(V)]
pub struct Table<V> {
    index: StringHashMap<usize>,
    list: Vec<(String, V)>,
}

impl<V> View for Table<V> {
    type V = Map<Seq<char>, V>;

    open spec fn view(&self) -> Map<Seq<char>, V> {
        entry_map(self.entries())
    }
}

/// What `Table::remove` leaves: the last entry takes the place of the removed one.
pub open spec fn without_entry<V>(entries: Seq<(Seq<char>, V)>, at: int) -> Seq<(Seq<char>, V)> {
    if at == entries.len() - 1 {
        entries.drop_last()
    } else {
        entries.update(at, entries.last()).drop_last()
    }
}

/// The entries of a list of pairs.
pub open spec fn entry_texts<V>(list: Seq<(String, V)>) -> Seq<(Seq<char>, V)> {
    list.map_values(|e: (String, V)| (e.0@, e.1))
}

/// The map that a list of entries gives, where a later entry of a key replaces an
/// earlier one.
pub open spec fn collected<V>(entries: Seq<(Seq<char>, V)>) -> Map<Seq<char>, V>
    decreases entries.len(),
{
    if entries.len() == 0 {
        Map::empty()
    } else {
        collected(entries.drop_last()).insert(entries.last().0, entries.last().1)
    }
}

impl<V: Copy> Table<V> {
    /// Another table with the same entries.
    pub fn copied(&self) -> (table: Self)
        ensures
            table.entries() == self.entries(),
            table@ == self@,
    {
        let count: usize = self.len();
        let mut list: Vec<(String, V)> = Vec::new();
        let mut i: usize = 0;
        while i < count
            invariant
                i <= count == self.entries().len(),
                entry_texts(list@) == self.entries().take(i as int),
            decreases count - i,
        {
            let (key, value) = self.entry(i);
            let ghost before = list@;
            list.push((key.clone(), *value));
            proof {
                assert(entry_texts(list@) =~= entry_texts(before).push((key@, *value)));
                assert(entry_texts(list@) =~= self.entries().take(i + 1));
            }
            i = i + 1;
        }
        assert(self.entries().take(count as int) =~= self.entries());
        Table::from_entries(list)
    }
}

impl<V> Table<V> {
    /// The entries, in the order in which they are walked.
    pub closed spec fn entries(&self) -> Seq<(Seq<char>, V)> {
        self.list@.map_values(|e: (String, V)| (e.0@, e.1))
    }

    #[verifier::type_invariant]
    spec fn indexed(self) -> bool {
        &&& forall|i: int|
            0 <= i < self.list@.len() ==> self.index@.contains_key((#[trigger] self.list@[i]).0@)
                && self.index@[self.list@[i].0@] == i
        &&& forall|key: Seq<char>| #[trigger]
            self.index@.contains_key(key) ==> self.index@[key] < self.list@.len()
                && self.list@[self.index@[key] as int].0@ == key
    }

    /// An empty table.
    pub fn new() -> (table: Self)
        ensures
            table.entries() == Seq::<(Seq<char>, V)>::empty(),
            table@ == Map::<Seq<char>, V>::empty(),
    {
        let table = Table { index: StringHashMap::new(), list: Vec::new() };
        assert(table.entries() =~= Seq::<(Seq<char>, V)>::empty());
        assert(table@ =~= Map::<Seq<char>, V>::empty());
        table
    }

    /// The number of entries.
    pub fn len(&self) -> (n: usize)
        ensures
            n == self.entries().len(),
            distinct_keys(self.entries()),
    {
        proof {
            use_type_invariant(self);
            self.lemma_distinct();
        }
        self.list.len()
    }

    /// The entry at place `i` of the walk.
    pub fn entry(&self, i: usize) -> (e: (&String, &V))
        requires
            i < self.entries().len(),
        ensures
            e.0@ == self.entries()[i as int].0,
            *e.1 == self.entries()[i as int].1,
    {
        let e = &self.list[i];
        (&e.0, &e.1)
    }

    /// Whether the table has an entry for `key`.
    pub fn contains_key(&self, key: &str) -> (found: bool)
        ensures
            found == self@.contains_key(key@),
    {
        proof {
            use_type_invariant(self);
            self.lemma_index(key@);
        }
        self.index.contains_key(key)
    }

    /// The value of `key`, where there is one.
    pub fn get(&self, key: &str) -> (value: Option<&V>)
        ensures
            match value {
                Some(v) => self@.contains_key(key@) && *v == self@[key@],
                None => !self@.contains_key(key@),
            },
    {
        proof {
            use_type_invariant(self);
            self.lemma_index(key@);
        }
        match self.index.get(key) {
            Some(at) => Some(&self.list[*at].1),
            None => None,
        }
    }

    /// Gives `key` the value `value`. A key that had one keeps its place.
    pub fn insert(&mut self, key: String, value: V)
        ensures
            final(self)@ == old(self)@.insert(key@, value),
            !old(self)@.contains_key(key@) ==> final(self).entries() == old(self).entries().push(
                (key@, value),
            ),
            forall|i: int|
                0 <= i < old(self).entries().len() && (#[trigger] old(self).entries()[i]).0 == key@
                    ==> final(self).entries() == old(self).entries().update(i, (key@, value)),
    {
        let ghost before = *self;
        proof {
            use_type_invariant(&*self);
            self.lemma_index(key@);
        }
        let mut table = Table { index: StringHashMap::new(), list: Vec::new() };
        std::mem::swap(self, &mut table);
        let Table { mut index, mut list } = table;
        let place: Option<usize> = match index.get(key.as_str()) {
            Some(at) => Some(*at),
            None => None,
        };
        match place {
            Some(at) => {
                list.set(at, (key, value));
            },
            None => {
                index.insert(key.clone(), list.len());
                list.push((key, value));
            },
        }
        *self = Table { index, list };
        proof {
            use_type_invariant(&*self);
            before.lemma_distinct();
            if place is Some {
                assert(self.entries() =~= before.entries().update(place->0 as int, (key@, value)));
            } else {
                assert(self.entries() =~= before.entries().push((key@, value)));
            }
            let after = before@.insert(key@, value);
            assert forall|k: Seq<char>| #[trigger]
                self@.dom().contains(k) == after.dom().contains(k) by {
                self.lemma_index(k);
                before.lemma_index(k);
            }
            assert forall|k: Seq<char>| self@.dom().contains(k) implies #[trigger] self@[k]
                == after[k] by {
                self.lemma_index(k);
                before.lemma_index(k);
            }
            assert(self@ =~= after);
        }
    }

    /// Takes the entry of `key` out, where there is one.
    pub fn remove(&mut self, key: &str) -> (removed: Option<V>)
        ensures
            final(self)@ == old(self)@.remove(key@),
            match removed {
                Some(v) => old(self)@.contains_key(key@) && v == old(self)@[key@],
                None => !old(self)@.contains_key(key@) && *final(self) == *old(self),
            },
            forall|i: int|
                0 <= i < old(self).entries().len() && (#[trigger] old(self).entries()[i]).0 == key@
                    ==> final(self).entries() == without_entry(old(self).entries(), i),
    {
        let ghost before = *self;
        proof {
            use_type_invariant(&*self);
            self.lemma_index(key@);
        }
        let at: usize = match self.index.get(key) {
            Some(at) => *at,
            None => {
                assert(self@.remove(key@) =~= self@);
                return None;
            },
        };
        let mut table = Table { index: StringHashMap::new(), list: Vec::new() };
        std::mem::swap(self, &mut table);
        let Table { mut index, mut list } = table;
        let taken = list.swap_remove(at);
        index.remove(key);
        if at < list.len() {
            index.insert(list[at].0.clone(), at);
        }
        *self = Table { index, list };
        proof {
            use_type_invariant(&*self);
            before.lemma_distinct();
            assert(self.entries() =~= without_entry(before.entries(), at as int));
            let after = before@.remove(key@);
            assert forall|k: Seq<char>| #[trigger]
                self@.dom().contains(k) == after.dom().contains(k) by {
                self.lemma_index(k);
                before.lemma_index(k);
            }
            assert forall|k: Seq<char>| self@.dom().contains(k) implies #[trigger] self@[k]
                == after[k] by {
                self.lemma_index(k);
                before.lemma_index(k);
            }
            assert(self@ =~= after);
        }
        Some(taken.1)
    }

    /// A table with the entries of `list`, where a later entry of a key replaces an
    /// earlier one.
    pub fn from_entries(list: Vec<(String, V)>) -> (table: Self)
        ensures
            table@ == collected(entry_texts(list@)),
            distinct_keys(entry_texts(list@)) ==> table.entries() == entry_texts(list@),
    {
        let ghost all = entry_texts(list@);
        let mut table = Table::new();
        assert(all.take(0) =~= Seq::empty());
        for entry in walk: list
            invariant
                walk.seq() == list@,
                all == entry_texts(list@),
                table@ == collected(all.take(walk.index() as int)),
                distinct_keys(all) ==> table.entries() == all.take(walk.index() as int),
        {
            let ghost done = walk.index() as int;
            let (key, value) = entry;
            proof {
                assert(all[done] == (key@, value));
                assert(all.take(done + 1).drop_last() =~= all.take(done));
                assert(all.take(done + 1) =~= all.take(done).push(all[done]));
                if distinct_keys(all) && table@.contains_key(key@) {
                    let i = choose|i: int|
                        0 <= i < table.entries().len() && (#[trigger] table.entries()[i]).0 == key@;
                    assert(all[i].0 == all[done].0);
                }
            }
            table.insert(key, value);
        }
        assert(all.take(all.len() as int) =~= all);
        table
    }

    proof fn lemma_index(self, key: Seq<char>)
        requires
            self.indexed(),
        ensures
            self@.contains_key(key) == self.index@.contains_key(key),
            self@.contains_key(key) ==> self.index@[key] < self.list@.len() && self@[key]
                == self.list@[self.index@[key] as int].1,
    {
        if self.index@.contains_key(key) {
            assert(self.entries()[self.index@[key] as int].0 == key);
        }
        if self@.contains_key(key) {
            let i = choose|i: int|
                0 <= i < self.entries().len() && (#[trigger] self.entries()[i]).0 == key;
            assert(self.list@[i].0@ == key);
        }
    }

    proof fn lemma_distinct(self)
        requires
            self.indexed(),
        ensures
            distinct_keys(self.entries()),
    {
        assert forall|i: int, j: int|
            #![trigger self.entries()[i], self.entries()[j]]
            0 <= i < j < self.entries().len() implies self.entries()[i].0 != self.entries()[j].0 by {
            assert(self.index@[self.list@[i].0@] == i);
            assert(self.index@[self.list@[j].0@] == j);
        }
    }
}

} // verus!
