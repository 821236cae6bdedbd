//! What a cache that evicts its least recently used entry does to its entries, as a list with the
//! most recently used entry first.

use vstd::prelude::*;

use crate::id_map::{holds_key, keys_distinct, lemma_place_of, place_of, value_of};

verus! {

/// The greatest limit that a cache is made with: the table of a cache with this limit still has a
/// size that an allocation can have.
pub const MAX_CACHE_LIMIT: usize = usize::MAX / 128;

/// The outside cache type. Nothing is known of a cache but what the functions that call its
/// methods say of its entries and its limit.
#[verifier::external_type_specification]
#[verifier::external_body]
#[verifier::reject_recursive_types(K)]
#[verifier::reject_recursive_types(V)]
#[verifier::reject_recursive_types(S)]
pub struct ExLruCache<K, V, S>(lru::LruCache<K, V, S>);

/// The hasher that the outside cache type uses unless told otherwise.
#[verifier::external_type_specification]
#[verifier::external_body]
pub struct ExDefaultHasher(lru::DefaultHasher);

/// The entries without that of `key`.
pub open spec fn without<K, V>(entries: Seq<(K, V)>, key: K) -> Seq<(K, V)> {
    if holds_key(entries, key) {
        entries.remove(place_of(entries, key))
    } else {
        entries
    }
}

/// The entries after that of `key` was used: it comes first.
pub open spec fn used<K, V>(entries: Seq<(K, V)>, key: K) -> Seq<(K, V)> {
    match value_of(entries, key) {
        Some(value) => seq![(key, value)] + without(entries, key),
        None => entries,
    }
}

/// The entries after a value was put under `key`: it comes first, in place of an earlier value of
/// `key`, or else, where the cache was full, in place of the least recently used entry.
pub open spec fn put<K, V>(entries: Seq<(K, V)>, limit: nat, key: K, value: V) -> Seq<(K, V)> {
    if holds_key(entries, key) {
        seq![(key, value)] + without(entries, key)
    } else if entries.len() == limit {
        seq![(key, value)] + entries.drop_last()
    } else {
        seq![(key, value)] + entries
    }
}

/// The keys are distinct and there are no more entries than the limit allows.
pub open spec fn within_limit<K, V>(entries: Seq<(K, V)>, limit: nat) -> bool {
    keys_distinct(entries) && entries.len() <= limit
}

/// The entries without that of `key` keep distinct keys, lose `key` and keep every other entry.
pub proof fn lemma_without<K, V>(entries: Seq<(K, V)>, key: K)
    requires
        keys_distinct(entries),
    ensures
        keys_distinct(without(entries, key)),
        !holds_key(without(entries, key), key),
        without(entries, key).len() == entries.len() - (if holds_key(entries, key) {
            1int
        } else {
            0int
        }),
        forall|k: K|
            k != key ==> #[trigger] value_of(without(entries, key), k) == value_of(entries, k),
{
    if holds_key(entries, key) {
        let p = place_of(entries, key);
        let after = entries.remove(p);
        assert forall|a: int, b: int|
            #![trigger after[a], after[b]]
            0 <= a < b < after.len() implies after[a].0 != after[b].0 by {
            let a0 = if a < p { a } else { a + 1 };
            let b0 = if b < p { b } else { b + 1 };
            assert(entries[a0] == after[a] && entries[b0] == after[b]);
        }
        assert(!holds_key(after, key)) by {
            if holds_key(after, key) {
                let q = place_of(after, key);
                let q0 = if q < p { q } else { q + 1 };
                assert(entries[q0] == after[q]);
                assert(entries[p].0 == key);
            }
        }
        assert forall|k: K| k != key implies #[trigger] value_of(after, k) == value_of(
            entries,
            k,
        ) by {
            if holds_key(entries, k) {
                let i = place_of(entries, k);
                let j = if i < p { i } else { i - 1 };
                assert(after[j] == entries[i]);
                lemma_place_of(after, j);
            } else if holds_key(after, k) {
                let j = place_of(after, k);
                let i = if j < p { j } else { j + 1 };
                assert(after[j] == entries[i]);
            }
        }
    }
}

/// Putting an entry with a new key in front keeps distinct keys; the new key has its value, every
/// other key the one it had.
pub proof fn lemma_in_front<K, V>(entries: Seq<(K, V)>, key: K, value: V)
    requires
        keys_distinct(entries),
        !holds_key(entries, key),
    ensures
        keys_distinct(seq![(key, value)] + entries),
        value_of(seq![(key, value)] + entries, key) == Some(value),
        forall|k: K|
            k != key ==> #[trigger] value_of(seq![(key, value)] + entries, k) == value_of(
                entries,
                k,
            ),
{
    let after = seq![(key, value)] + entries;
    assert forall|a: int, b: int|
        #![trigger after[a], after[b]]
        0 <= a < b < after.len() implies after[a].0 != after[b].0 by {
        assert(after[b] == entries[b - 1]);
        if a > 0 {
            assert(after[a] == entries[a - 1]);
        }
    }
    assert(after[0] == (key, value));
    lemma_place_of(after, 0);
    assert forall|k: K| k != key implies #[trigger] value_of(after, k) == value_of(entries, k) by {
        if holds_key(entries, k) {
            let i = place_of(entries, k);
            assert(after[i + 1] == entries[i]);
            lemma_place_of(after, i + 1);
        } else if holds_key(after, k) {
            let j = place_of(after, k);
            assert(after[j] == entries[j - 1]);
        }
    }
}

/// Leaving the last entry out keeps distinct keys and every other entry.
pub proof fn lemma_drop_last<K, V>(entries: Seq<(K, V)>)
    requires
        keys_distinct(entries),
        0 < entries.len(),
    ensures
        keys_distinct(entries.drop_last()),
        !holds_key(entries.drop_last(), entries.last().0),
        forall|k: K|
            k != entries.last().0 ==> #[trigger] value_of(entries.drop_last(), k) == value_of(
                entries,
                k,
            ),
{
    let last = entries.len() - 1;
    lemma_place_of(entries, last);
    lemma_without(entries, entries.last().0);
    assert(entries.remove(last) =~= entries.drop_last());
}

/// Using an entry keeps the keys distinct and every value.
pub proof fn lemma_used<K, V>(entries: Seq<(K, V)>, key: K)
    requires
        keys_distinct(entries),
    ensures
        keys_distinct(used(entries, key)),
        used(entries, key).len() == entries.len(),
        forall|k: K| #[trigger] value_of(used(entries, key), k) == value_of(entries, k),
{
    if holds_key(entries, key) {
        lemma_without(entries, key);
        lemma_in_front(without(entries, key), key, value_of(entries, key).unwrap());
    }
}

/// A value that was put under a key is found under it.
pub proof fn law_put_is_found<K, V>(entries: Seq<(K, V)>, limit: nat, key: K, value: V)
    requires
        within_limit(entries, limit),
        0 < limit,
    ensures
        value_of(put(entries, limit, key, value), key) == Some(value),
        put(entries, limit, key, value)[0] == (key, value),
{
    law_put_keeps_limit(entries, limit, key, value);
    lemma_place_of(put(entries, limit, key, value), 0);
}

/// Putting a value keeps the keys distinct and the limit.
pub proof fn law_put_keeps_limit<K, V>(entries: Seq<(K, V)>, limit: nat, key: K, value: V)
    requires
        within_limit(entries, limit),
        0 < limit,
    ensures
        within_limit(put(entries, limit, key, value), limit),
{
    if holds_key(entries, key) {
        lemma_without(entries, key);
        lemma_in_front(without(entries, key), key, value);
    } else if entries.len() == limit {
        lemma_drop_last(entries);
        lemma_not_held_before(entries, key);
        lemma_in_front(entries.drop_last(), key, value);
    } else {
        lemma_in_front(entries, key, value);
    }
}

/// Putting a value under `key` leaves the value of every other key as it is, except that of the
/// least recently used key, which a full cache gives up for a new key.
pub proof fn law_put_keeps_others<K, V>(
    entries: Seq<(K, V)>,
    limit: nat,
    key: K,
    value: V,
    other: K,
)
    requires
        within_limit(entries, limit),
        0 < limit,
        other != key,
        holds_key(entries, key) || entries.len() < limit || other != entries.last().0,
    ensures
        value_of(put(entries, limit, key, value), other) == value_of(entries, other),
{
    if holds_key(entries, key) {
        lemma_without(entries, key);
        lemma_in_front(without(entries, key), key, value);
    } else if entries.len() == limit {
        lemma_drop_last(entries);
        lemma_not_held_before(entries, key);
        lemma_in_front(entries.drop_last(), key, value);
    } else {
        lemma_in_front(entries, key, value);
    }
}

/// A full cache gives the least recently used entry up for a new key.
pub proof fn law_put_evicts_last<K, V>(entries: Seq<(K, V)>, limit: nat, key: K, value: V)
    requires
        within_limit(entries, limit),
        0 < limit,
        !holds_key(entries, key),
        entries.len() == limit,
    ensures
        !holds_key(put(entries, limit, key, value), entries.last().0),
{
    lemma_drop_last(entries);
    lemma_not_held_before(entries, key);
    lemma_in_front(entries.drop_last(), key, value);
    let last = entries.last().0;
    lemma_place_of(entries, entries.len() - 1);
    assert(last != key);
    assert(value_of(put(entries, limit, key, value), last) == value_of(entries.drop_last(), last));
}

proof fn lemma_not_held_before<K, V>(entries: Seq<(K, V)>, key: K)
    requires
        0 < entries.len(),
        !holds_key(entries, key),
    ensures
        !holds_key(entries.drop_last(), key),
{
    if holds_key(entries.drop_last(), key) {
        let i = place_of(entries.drop_last(), key);
        assert(entries[i].0 == key);
    }
}

/// The entries with `f` applied to each value.
pub open spec fn map_entries<K, V, W>(entries: Seq<(K, V)>, f: spec_fn(V) -> W) -> Seq<(K, W)> {
    entries.map_values(|entry: (K, V)| (entry.0, f(entry.1)))
}

/// Using, putting and leaving out entries looks only at their keys, so it commutes with a change
/// of the values.
pub proof fn lemma_map_entries<K, V, W>(entries: Seq<(K, V)>, f: spec_fn(V) -> W, key: K)
    requires
        keys_distinct(entries),
    ensures
        keys_distinct(map_entries(entries, f)),
        holds_key(map_entries(entries, f), key) == holds_key(entries, key),
        value_of(map_entries(entries, f), key) == match value_of(entries, key) {
            Some(value) => Some(f(value)),
            None => None,
        },
        map_entries(without(entries, key), f) == without(map_entries(entries, f), key),
        map_entries(used(entries, key), f) == used(map_entries(entries, f), key),
        forall|limit: nat, value: V|
            0 < limit ==> map_entries(#[trigger] put(entries, limit, key, value), f) == put(
                map_entries(entries, f),
                limit,
                key,
                f(value),
            ),
{
    let mapped = map_entries(entries, f);
    assert forall|i: int, j: int|
        #![trigger mapped[i], mapped[j]]
        0 <= i < j < mapped.len() implies mapped[i].0 != mapped[j].0 by {
        assert(entries[i].0 != entries[j].0);
    }
    if holds_key(entries, key) {
        let p = place_of(entries, key);
        assert(mapped[p].0 == key);
        lemma_place_of(mapped, p);
        assert(map_entries(entries.remove(p), f) =~= mapped.remove(p));
    } else {
        if holds_key(mapped, key) {
            let p = place_of(mapped, key);
            assert(entries[p].0 == key);
        }
    }
    assert(map_entries(used(entries, key), f) =~= used(mapped, key));
    assert forall|limit: nat, value: V| 0 < limit implies
        map_entries(#[trigger] put(entries, limit, key, value), f) == put(
            mapped,
            limit,
            key,
            f(value),
        ) by {
        assert(map_entries(put(entries, limit, key, value), f) =~= put(
            mapped,
            limit,
            key,
            f(value),
        ));
    }
}

/// Taking a key out takes its entry out and leaves the others in their order.
pub proof fn law_taking_out_keeps_the_order<K, V>(entries: Seq<(K, V)>, key: K, i: int)
    requires
        keys_distinct(entries),
    ensures
        0 <= i < entries.len() && entries[i].0 == key ==> without(entries, key) == entries.remove(i),
        (forall|j: int| 0 <= j < entries.len() ==> (#[trigger] entries[j]).0 != key) ==> without(
            entries,
            key,
        ) == entries,
{
    if 0 <= i < entries.len() && entries[i].0 == key {
        lemma_place_of(entries, i);
    }
}

/// An entry that is used comes first, with the value that it had, and the others follow in their
/// order; using a key that has no entry changes nothing.
pub proof fn law_used_entry_comes_first<K, V>(entries: Seq<(K, V)>, key: K, i: int)
    requires
        keys_distinct(entries),
    ensures
        0 <= i < entries.len() && entries[i].0 == key ==> used(entries, key) == seq![entries[i]]
            + entries.remove(i),
        (forall|j: int| 0 <= j < entries.len() ==> (#[trigger] entries[j]).0 != key) ==> used(
            entries,
            key,
        ) == entries,
{
    if 0 <= i < entries.len() && entries[i].0 == key {
        lemma_place_of(entries, i);
        assert(seq![(key, entries[i].1)] =~= seq![entries[i]]);
    }
}

/// A value that is put comes first; the others follow in their order, without the earlier value of
/// the key, or else, where there were as many as the limit allows, without the last of them.
pub proof fn law_put_keeps_the_order<K, V>(
    entries: Seq<(K, V)>,
    limit: nat,
    key: K,
    value: V,
    i: int,
)
    requires
        keys_distinct(entries),
        0 < limit,
    ensures
        0 <= i < entries.len() && entries[i].0 == key ==> put(entries, limit, key, value) == seq![
            (key, value),
        ] + entries.remove(i),
        (forall|j: int| 0 <= j < entries.len() ==> (#[trigger] entries[j]).0 != key)
            && entries.len() < limit ==> put(entries, limit, key, value) == seq![(key, value)]
            + entries,
        (forall|j: int| 0 <= j < entries.len() ==> (#[trigger] entries[j]).0 != key)
            && entries.len() == limit ==> put(entries, limit, key, value) == seq![(key, value)]
            + entries.take(limit - 1),
{
    if 0 <= i < entries.len() && entries[i].0 == key {
        lemma_place_of(entries, i);
    }
    if entries.len() == limit {
        assert(entries.drop_last() =~= entries.take(limit - 1));
    }
}

/// A key has a value exactly if an entry holds both.
pub proof fn law_values_are_those_of_the_entries<K, V>(entries: Seq<(K, V)>, key: K, value: V)
    requires
        keys_distinct(entries),
    ensures
        value_of(entries, key) == Some(value) <==> exists|i: int|
            0 <= i < entries.len() && #[trigger] entries[i] == (key, value),
        value_of(entries, key) is None <==> forall|i: int|
            0 <= i < entries.len() ==> (#[trigger] entries[i]).0 != key,
{
    if exists|i: int| 0 <= i < entries.len() && #[trigger] entries[i] == (key, value) {
        let i = choose|i: int| 0 <= i < entries.len() && #[trigger] entries[i] == (key, value);
        lemma_place_of(entries, i);
    }
    if value_of(entries, key) == Some(value) {
        let i = place_of(entries, key);
        assert(entries[i] == (key, value));
    }
}

/// A change of the values leaves the keys, the order and the number of the entries.
pub proof fn law_mapping_changes_values_only<K, V, W>(
    entries: Seq<(K, V)>,
    f: spec_fn(V) -> W,
    i: int,
)
    ensures
        map_entries(entries, f).len() == entries.len(),
        0 <= i < entries.len() ==> map_entries(entries, f)[i].0 == entries[i].0
            && map_entries(entries, f)[i].1 == f(entries[i].1),
{
}

} // verus!
