//! A map from identifiers to values.

use vstd::prelude::*;

use crate::id::Id;

verus! {

/// A map keyed by [`Id`], kept as a list of entries without repeated keys.
#[derive(Debug)]
pub struct IdMap<V> {
    entries: Vec<(Id, V)>,
}

/// The keys of a list of entries are pairwise different.
pub open spec fn keys_distinct<K, V>(entries: Seq<(K, V)>) -> bool {
    forall|i: int, j: int|
        #![trigger entries[i], entries[j]]
        0 <= i < j < entries.len() ==> entries[i].0 != entries[j].0
}

/// Some entry of the list has the key `key`.
pub open spec fn holds_key<K, V>(entries: Seq<(K, V)>, key: K) -> bool {
    exists|i: int| 0 <= i < entries.len() && (#[trigger] entries[i]).0 == key
}

/// The place of an entry with the key `key`.
pub open spec fn place_of<K, V>(entries: Seq<(K, V)>, key: K) -> int {
    choose|i: int| 0 <= i < entries.len() && (#[trigger] entries[i]).0 == key
}

/// The value of the entry with the key `key`, if there is one.
pub open spec fn value_of<K, V>(entries: Seq<(K, V)>, key: K) -> Option<V> {
    if holds_key(entries, key) {
        Some(entries[place_of(entries, key)].1)
    } else {
        None
    }
}

/// In a list with distinct keys, an entry is the one that is found under its key.
pub proof fn lemma_place_of<K, V>(entries: Seq<(K, V)>, i: int)
    requires
        keys_distinct(entries),
        0 <= i < entries.len(),
    ensures
        holds_key(entries, entries[i].0),
        place_of(entries, entries[i].0) == i,
        value_of(entries, entries[i].0) == Some(entries[i].1),
{
    let p = place_of(entries, entries[i].0);
    assert(entries[i].0 == entries[i].0);
    assert(0 <= p < entries.len() && entries[p].0 == entries[i].0);
}

impl<V> View for IdMap<V> {
    type V = Map<Id, V>;

    closed spec fn view(&self) -> Map<Id, V> {
        Map::new(
            |id: Id| holds_key(self.entries@, id),
            |id: Id| self.entries@[place_of(self.entries@, id)].1,
        )
    }
}

impl<V> IdMap<V> {
    #[verifier::type_invariant]
    spec fn well_formed(self) -> bool {
        keys_distinct(self.entries@)
    }

    /// An empty map.
    pub fn new() -> (map: Self)
        ensures
            map@ == Map::<Id, V>::empty(),
    {
        let map = IdMap { entries: Vec::new() };
        assert(map@ =~= Map::<Id, V>::empty());
        map
    }

    /// The place of the entry of `id`.
    fn find(&self, id: &Id) -> (place: Option<usize>)
        ensures
            match place {
                Some(i) => i < self.entries@.len() && self.entries@[i as int].0 == *id
                    && self@.contains_key(*id) && self@[*id] == self.entries@[i as int].1,
                None => !self@.contains_key(*id),
            },
    {
        proof {
            use_type_invariant(self);
        }
        let mut i: usize = 0;
        while i < self.entries.len()
            invariant
                i <= self.entries@.len(),
                keys_distinct(self.entries@),
                forall|j: int| 0 <= j < i ==> (#[trigger] self.entries@[j]).0 != *id,
            decreases self.entries@.len() - i,
        {
            if self.entries[i].0 == *id {
                proof {
                    lemma_place_of(self.entries@, i as int);
                }
                return Some(i);
            }
            i = i + 1;
        }
        None
    }

    /// Whether the map holds a value for `id`.
    pub fn contains_key(&self, id: &Id) -> (found: bool)
        ensures
            found == self@.contains_key(*id),
    {
        match self.find(id) {
            Some(_) => true,
            None => false,
        }
    }

    /// The value of `id`.
    pub fn get(&self, id: &Id) -> (value: Option<&V>)
        ensures
            match value {
                Some(v) => self@.contains_key(*id) && *v == self@[*id],
                None => !self@.contains_key(*id),
            },
    {
        match self.find(id) {
            Some(i) => Some(&self.entries[i].1),
            None => None,
        }
    }

    /// Removes the entry of `id` and hands its value out.
    pub fn remove(&mut self, id: &Id) -> (value: Option<V>)
        ensures
            final(self)@ == old(self)@.remove(*id),
            match value {
                Some(v) => old(self)@.contains_key(*id) && v == old(self)@[*id],
                None => !old(self)@.contains_key(*id),
            },
    {
        let ghost before = self.entries@;
        proof {
            use_type_invariant(&*self);
        }
        match self.find(id) {
            Some(i) => {
                let mut entries: Vec<(Id, V)> = Vec::new();
                std::mem::swap(&mut entries, &mut self.entries);
                let (_, v) = entries.remove(i);
                proof {
                    lemma_remove(before, i as int);
                }
                self.entries = entries;
                assert(self@ =~= old(self)@.remove(*id));
                Some(v)
            },
            None => {
                assert(self@ =~= old(self)@.remove(*id));
                None
            },
        }
    }

    /// Sets the value of `id` and hands the value out that it replaces.
    pub fn insert(&mut self, id: Id, value: V) -> (replaced: Option<V>)
        ensures
            final(self)@ == old(self)@.insert(id, value),
            match replaced {
                Some(v) => old(self)@.contains_key(id) && v == old(self)@[id],
                None => !old(self)@.contains_key(id),
            },
    {
        let ghost m0 = self@;
        let replaced = self.remove(&id);
        let ghost m1 = self@;
        let ghost before = self.entries@;
        proof {
            use_type_invariant(&*self);
        }
        assert(!m1.contains_key(id));
        let mut entries: Vec<(Id, V)> = Vec::new();
        std::mem::swap(&mut entries, &mut self.entries);
        entries.push((id, value));
        proof {
            lemma_push(before, id, value);
        }
        self.entries = entries;
        assert(self@ =~= m1.insert(id, value));
        assert(m1.insert(id, value) =~= m0.insert(id, value));
        replaced
    }
}

/// Taking an entry out of a list with distinct keys takes out its key and nothing else.
proof fn lemma_remove<V>(entries: Seq<(Id, V)>, i: int)
    requires
        keys_distinct(entries),
        0 <= i < entries.len(),
    ensures
        keys_distinct(entries.remove(i)),
        forall|id: Id| #[trigger]
            holds_key(entries.remove(i), id) <==> holds_key(entries, id) && id != entries[i].0,
        forall|id: Id| #[trigger]
            holds_key(entries.remove(i), id) ==> entries.remove(i)[place_of(
                entries.remove(i),
                id,
            )].1 == entries[place_of(entries, id)].1,
{
    let after = entries.remove(i);
    assert forall|a: int, b: int|
        #![trigger after[a], after[b]]
        0 <= a < b < after.len() implies after[a].0 != after[b].0 by {
        let a0 = if a < i { a } else { a + 1 };
        let b0 = if b < i { b } else { b + 1 };
        assert(entries[a0] == after[a] && entries[b0] == after[b]);
    }
    assert forall|id: Id| holds_key(entries, id) && id != entries[i].0 implies #[trigger] holds_key(
        after,
        id,
    ) by {
        let p = place_of(entries, id);
        let q = if p < i { p } else { p - 1 };
        assert(after[q].0 == id);
    }
    assert forall|id: Id| #[trigger] holds_key(after, id) implies holds_key(entries, id) && id
        != entries[i].0 && after[place_of(after, id)].1 == entries[place_of(entries, id)].1 by {
        let q = place_of(after, id);
        let p = if q < i { q } else { q + 1 };
        assert(entries[p] == after[q]);
        lemma_place_of(entries, p);
    }
}

/// Appending an entry with a new key adds that key and nothing else.
proof fn lemma_push<V>(entries: Seq<(Id, V)>, id: Id, value: V)
    requires
        keys_distinct(entries),
        !holds_key(entries, id),
    ensures
        keys_distinct(entries.push((id, value))),
        forall|k: Id| #[trigger]
            holds_key(entries.push((id, value)), k) <==> holds_key(entries, k) || k == id,
        forall|k: Id| #[trigger]
            holds_key(entries.push((id, value)), k) ==> entries.push((id, value))[place_of(
                entries.push((id, value)),
                k,
            )].1 == if k == id {
                value
            } else {
                entries[place_of(entries, k)].1
            },
{
    let after = entries.push((id, value));
    assert(after[entries.len() as int].0 == id);
    assert forall|a: int, b: int|
        #![trigger after[a], after[b]]
        0 <= a < b < after.len() implies after[a].0 != after[b].0 by {
        assert(entries[a] == after[a]);
    }
    assert forall|k: Id| holds_key(entries, k) implies #[trigger] holds_key(after, k) by {
        let p = place_of(entries, k);
        assert(after[p].0 == k);
    }
    assert forall|k: Id| #[trigger] holds_key(after, k) implies (holds_key(entries, k) || k == id)
        && after[place_of(after, k)].1 == if k == id {
        value
    } else {
        entries[place_of(entries, k)].1
    } by {
        let q = place_of(after, k);
        if q < entries.len() {
            assert(entries[q] == after[q]);
            lemma_place_of(entries, q);
        }
    }
}

} // verus!
