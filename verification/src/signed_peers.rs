//! Signed peers announced on info hashes.

use vstd::prelude::*;

use lru::LruCache;

use crate::chance::{chance, draw_chance};
use crate::id::Id;
use crate::id_map::{holds_key, keys_distinct, lemma_place_of, place_of, value_of};
use crate::messages::SignedAnnounce;
use crate::recency::{
    law_put_evicts_last, law_put_is_found, law_put_keeps_limit, law_put_keeps_others,
    law_put_keeps_the_order, lemma_map_entries, lemma_used, map_entries, put, used, within_limit,
    MAX_CACHE_LIMIT,
};
use crate::sequences::{lemma_filter_all, lemma_filter_all_but_one};

verus! {

/// The number of peers that a request for peers is answered with, where there are as many.
pub const TARGET_SIZE: usize = 10;

/// The entries of a cache of peers, the most recently used first.
pub uninterp spec fn peer_entries(cache: LruCache<[u8; 32], SignedAnnounce>) -> Seq<
    ([u8; 32], SignedAnnounce),
>;

/// The limit that a cache of peers was made with.
pub uninterp spec fn peer_limit(cache: LruCache<[u8; 32], SignedAnnounce>) -> nat;

/// Calls `LruCache::new`: a new cache is empty and keeps at most `limit` entries.
#[verifier::external_body]
fn peers_new(limit: usize) -> (cache: LruCache<[u8; 32], SignedAnnounce>)
    requires
        0 < limit <= MAX_CACHE_LIMIT,
    ensures
        peer_entries(cache) == Seq::<([u8; 32], SignedAnnounce)>::empty(),
        peer_limit(cache) == limit,
{
    LruCache::new(std::num::NonZeroUsize::new(limit).unwrap())
}

/// Calls `LruCache::put`: the value becomes the most recently used entry, in place of the earlier
/// value of the key or, in a full cache, of the least recently used entry; what is returned is the
/// earlier value of the key.
#[verifier::external_body]
fn peers_put(
    cache: &mut LruCache<[u8; 32], SignedAnnounce>,
    key: [u8; 32],
    value: SignedAnnounce,
) -> (replaced: Option<SignedAnnounce>)
    ensures
        peer_entries(*final(cache)) == put(
            peer_entries(*old(cache)),
            peer_limit(*old(cache)),
            key,
            value,
        ),
        peer_limit(*final(cache)) == peer_limit(*old(cache)),
        replaced == value_of(peer_entries(*old(cache)), key),
{
    cache.put(key, value)
}

/// Calls `LruCache::iter`: it visits all entries, the most recently used first.
#[verifier::external_body]
fn peers_iter(cache: &LruCache<[u8; 32], SignedAnnounce>) -> (values: Vec<SignedAnnounce>)
    ensures
        values@ == peer_entries(*cache).map_values(|entry: ([u8; 32], SignedAnnounce)| entry.1),
{
    cache.iter().map(|entry| *entry.1).collect()
}

/// Calls `LruCache::clone`: the copy has the same entries in the same order, and the same limit.
#[verifier::external_body]
fn peers_clone(cache: &LruCache<[u8; 32], SignedAnnounce>) -> (copy: LruCache<
    [u8; 32],
    SignedAnnounce,
>)
    ensures
        peer_entries(copy) == peer_entries(*cache),
        peer_limit(copy) == peer_limit(*cache),
{
    cache.clone()
}

/// The peers announced on one info hash.
#[derive(Debug)]
pub struct AnnouncedPeers {
    cache: LruCache<[u8; 32], SignedAnnounce>,
}

impl AnnouncedPeers {
    /// The peers by their keys, the most recently announced first.
    pub closed spec fn entries(self) -> Seq<([u8; 32], SignedAnnounce)> {
        peer_entries(self.cache)
    }

    /// How many peers are kept at most.
    pub closed spec fn limit(self) -> nat {
        peer_limit(self.cache)
    }
}

impl Clone for AnnouncedPeers {
    fn clone(&self) -> (copy: Self)
        ensures
            copy.entries() == self.entries(),
            copy.limit() == self.limit(),
    {
        AnnouncedPeers { cache: peers_clone(&self.cache) }
    }
}

/// The entries of a cache of info hashes, the most recently used first.
pub uninterp spec fn info_hash_entries(cache: LruCache<[u8; 20], AnnouncedPeers>) -> Seq<
    ([u8; 20], AnnouncedPeers),
>;

/// The limit that a cache of info hashes was made with.
pub uninterp spec fn info_hash_limit(cache: LruCache<[u8; 20], AnnouncedPeers>) -> nat;

/// Calls `LruCache::new`: a new cache is empty and keeps at most `limit` entries.
#[verifier::external_body]
fn info_hashes_new(limit: usize) -> (cache: LruCache<[u8; 20], AnnouncedPeers>)
    requires
        0 < limit <= MAX_CACHE_LIMIT,
    ensures
        info_hash_entries(cache) == Seq::<([u8; 20], AnnouncedPeers)>::empty(),
        info_hash_limit(cache) == limit,
{
    LruCache::new(std::num::NonZeroUsize::new(limit).unwrap())
}

/// Calls `LruCache::put`: the value becomes the most recently used entry, in place of the earlier
/// value of the key or, in a full cache, of the least recently used entry; what is returned is the
/// earlier value of the key.
#[verifier::external_body]
fn info_hashes_put(
    cache: &mut LruCache<[u8; 20], AnnouncedPeers>,
    key: [u8; 20],
    value: AnnouncedPeers,
) -> (replaced: Option<AnnouncedPeers>)
    ensures
        info_hash_entries(*final(cache)) == put(
            info_hash_entries(*old(cache)),
            info_hash_limit(*old(cache)),
            key,
            value,
        ),
        info_hash_limit(*final(cache)) == info_hash_limit(*old(cache)),
        replaced == value_of(info_hash_entries(*old(cache)), key),
{
    cache.put(key, value)
}

/// Calls `LruCache::get`: the value of the key, whose entry becomes the most recently used one.
#[verifier::external_body]
fn info_hashes_get<'a>(
    cache: &'a mut LruCache<[u8; 20], AnnouncedPeers>,
    key: &[u8; 20],
) -> (value: Option<&'a AnnouncedPeers>)
    ensures
        info_hash_entries(*final(cache)) == used(info_hash_entries(*old(cache)), *key),
        info_hash_limit(*final(cache)) == info_hash_limit(*old(cache)),
        match value {
            Some(v) => value_of(info_hash_entries(*old(cache)), *key) == Some(*v),
            None => value_of(info_hash_entries(*old(cache)), *key) is None,
        },
{
    cache.get(key)
}

/// Calls `LruCache::get_mut`: the value of the key, to be changed, whose entry becomes the most
/// recently used one; the other entries stay.
#[verifier::external_body]
fn info_hashes_get_mut<'a>(
    cache: &'a mut LruCache<[u8; 20], AnnouncedPeers>,
    key: &[u8; 20],
) -> (value: Option<&'a mut AnnouncedPeers>)
    ensures
        info_hash_limit(*final(cache)) == info_hash_limit(*old(cache)),
        match value {
            Some(v) => value_of(info_hash_entries(*old(cache)), *key) == Some(*v)
                && info_hash_entries(*final(cache)) == used(
                info_hash_entries(*old(cache)),
                *key,
            ).update(0, (*key, *final(v))),
            None => value_of(info_hash_entries(*old(cache)), *key) is None && info_hash_entries(
                *final(cache),
            ) == info_hash_entries(*old(cache)),
        },
{
    cache.get_mut(key)
}

/// Calls `LruCache::len`: the number of entries.
#[verifier::external_body]
fn info_hashes_len(cache: &LruCache<[u8; 20], AnnouncedPeers>) -> (len: usize)
    ensures
        len == info_hash_entries(*cache).len(),
{
    cache.len()
}

/// Calls `LruCache::clone`: the copy has the same keys in the same order, a clone of each value, and
/// the same limit.
#[verifier::external_body]
fn info_hashes_clone(cache: &LruCache<[u8; 20], AnnouncedPeers>) -> (copy: LruCache<
    [u8; 20],
    AnnouncedPeers,
>)
    ensures
        info_hash_limit(copy) == info_hash_limit(*cache),
        info_hash_entries(copy).len() == info_hash_entries(*cache).len(),
        forall|i: int|
            0 <= i < info_hash_entries(copy).len() ==> (#[trigger] info_hash_entries(copy)[i]).0
                == info_hash_entries(*cache)[i].0 && cloned(
                info_hash_entries(*cache)[i].1,
                info_hash_entries(copy)[i].1,
            ),
{
    cache.clone()
}

/// The error of the outside source of random bytes.
#[verifier::external_type_specification]
#[verifier::external_body]
pub struct ExRandomError(getrandom::Error);

/// Calls `getrandom::fill`: the buffer keeps its length; which bytes it then holds depends on
/// chance.
#[verifier::external_body]
fn fill_random(buffer: &mut Vec<u8>) -> (outcome: Result<(), getrandom::Error>)
    ensures
        final(buffer)@.len() == old(buffer)@.len(),
{
    getrandom::fill(buffer.as_mut_slice())
}

/// The system's source of random bytes failed.
#[derive(Clone, Copy, Debug, PartialEq, Eq, Structural)]
pub struct RandomSourceError;

/// Asks the system's source for `count` random bytes: the bytes that it gave, or that it failed.
fn random_bytes(count: usize) -> (outcome: Result<Vec<u8>, RandomSourceError>)
    ensures
        match outcome {
            Ok(bytes) => bytes@.len() == count && exists|
                buffer: &mut Vec<u8>,
                filled: Result<(), getrandom::Error>,
            |
                {
                    &&& #[trigger] call_ensures(fill_random, (buffer,), filled)
                    &&& buffer@.len() == count
                    &&& filled is Ok
                    &&& final(buffer)@ == bytes@
                },
            Err(_) => exists|buffer: &mut Vec<u8>, filled: Result<(), getrandom::Error>|
                {
                    &&& #[trigger] call_ensures(fill_random, (buffer,), filled)
                    &&& buffer@.len() == count
                    &&& filled is Err
                },
        },
{
    let mut chunk: Vec<u8> = vec![0u8; count];
    let fill = fill_random;
    match fill(&mut chunk) {
        Ok(()) => Ok(chunk),
        Err(_) => Err(RandomSourceError),
    }
}

/// Asked for `count` random bytes, the system's source had this outcome.
pub closed spec fn source_outcome(
    count: usize,
    outcome: Result<Vec<u8>, RandomSourceError>,
) -> bool {
    call_ensures(random_bytes, (count,), outcome)
}

/// What the source gave are as many bytes as it was asked for, and it failed only if filling a
/// buffer of that size failed.
proof fn law_source_fails_only_if_filling_fails(
    count: usize,
    outcome: Result<Vec<u8>, RandomSourceError>,
)
    ensures
        source_outcome(count, outcome) == call_ensures(random_bytes, (count,), outcome),
        source_outcome(count, outcome) ==> match outcome {
            Ok(bytes) => bytes@.len() == count,
            Err(_) => exists|buffer: &mut Vec<u8>, filled: Result<(), getrandom::Error>|
                {
                    &&& #[trigger] call_ensures(fill_random, (buffer,), filled)
                    &&& buffer@.len() == count
                    &&& filled is Err
                },
        },
{
}

/// The number in the four bytes of `chunk` from `index` on, the least significant byte first.
pub open spec fn random_number(chunk: Seq<u8>, index: int) -> int {
    chunk[index] + 0x100 * chunk[index + 1] + 0x1_0000 * chunk[index + 2] + 0x100_0000 * chunk[index
        + 3]
}

/// Whether a random number draws an item when `slots` slots are left for `items` items.
pub open spec fn is_drawn(slots: nat, items: nat, number: int) -> bool {
    slots >= items || number < chance(slots, items)
}

/// The peers drawn once those before `index` were decided on and `drawn` came of it.
///
/// The peer at `index` is drawn if the random number at `index` is below the chance of an item
/// when the slots that are left are shared among the items that are left, and in any case if there
/// are enough slots for all of these items. Once all slots are taken nothing more is drawn.
pub open spec fn draw_from(
    peers: Seq<SignedAnnounce>,
    chunk: Seq<u8>,
    index: int,
    drawn: Seq<SignedAnnounce>,
) -> Seq<SignedAnnounce>
    decreases peers.len() - index,
{
    if index >= peers.len() || drawn.len() >= TARGET_SIZE {
        drawn
    } else if is_drawn(
        (TARGET_SIZE - drawn.len()) as nat,
        (peers.len() - index) as nat,
        random_number(chunk, index),
    ) {
        draw_from(peers, chunk, index + 1, drawn.push(peers[index]))
    } else {
        draw_from(peers, chunk, index + 1, drawn)
    }
}

/// The peers that the random bytes in `chunk` draw.
pub open spec fn drawn_peers(peers: Seq<SignedAnnounce>, chunk: Seq<u8>) -> Seq<SignedAnnounce> {
    draw_from(peers, chunk, 0, Seq::empty())
}

/// Draws peers with the random bytes in `chunk`.
pub fn draw_peers(peers: &Vec<SignedAnnounce>, chunk: &Vec<u8>) -> (drawn: Vec<SignedAnnounce>)
    requires
        chunk@.len() >= peers@.len() + 3,
    ensures
        drawn@ == drawn_peers(peers@, chunk@),
        drawn@.len() <= 10,
        peers@.len() >= 10 ==> drawn@.len() == 10,
        peers@.len() <= 10 ==> drawn@ == peers@,
        forall|i: int| 0 <= i < drawn@.len() ==> peers@.contains(#[trigger] drawn@[i]),
{
    proof {
        law_drawn_peers_are_a_selection(peers@, chunk@);
        law_few_peers_are_all_drawn(peers@, chunk@);
        if peers@.len() >= TARGET_SIZE {
            law_draw_fills_the_target(peers@, chunk@);
        }
        let places = choose|places: Seq<int>| #[trigger]
            selects(places, drawn_peers(peers@, chunk@), peers@);
        let drawn = drawn_peers(peers@, chunk@);
        assert forall|i: int| 0 <= i < drawn.len() implies peers@.contains(#[trigger] drawn[i]) by {
            assert(0 <= places[i] < peers@.len() && peers@[places[i]] == drawn[i]);
        }
    }

    let chunk_len: usize = chunk.len();
    let mut results: Vec<SignedAnnounce> = Vec::with_capacity(20);
    let mut index: usize = 0;
    while index < peers.len() && results.len() < TARGET_SIZE
        invariant
            index <= peers@.len(),
            results@.len() <= TARGET_SIZE,
            chunk_len == chunk@.len() >= peers@.len() + 3,
            draw_from(peers@, chunk@, index as int, results@) == drawn_peers(peers@, chunk@),
        decreases peers@.len() - index,
    {
        let remaining_slots: usize = TARGET_SIZE - results.len();
        let remaining_items: usize = peers.len() - index;
        let current_chance: u32 = draw_chance(remaining_slots, remaining_items);
        let rand_int: u32 = chunk[index] as u32 + 0x100 * chunk[index + 1] as u32 + 0x1_0000
            * chunk[index + 2] as u32 + 0x100_0000 * chunk[index + 3] as u32;
        if remaining_slots >= remaining_items || rand_int < current_chance {
            results.push(peers[index]);
        }
        index = index + 1;
    }
    results
}

/// Some of the items of `all`, in their order and none of them twice.
pub open spec fn is_selection<T>(selected: Seq<T>, all: Seq<T>) -> bool {
    exists|places: Seq<int>| #[trigger] selects(places, selected, all)
}

/// `selected` holds the items of `all` at the increasing `places`.
pub open spec fn selects<T>(places: Seq<int>, selected: Seq<T>, all: Seq<T>) -> bool {
    &&& places.len() == selected.len()
    &&& forall|i: int|
        0 <= i < places.len() ==> 0 <= #[trigger] places[i] < all.len() && all[places[i]]
            == selected[i]
    &&& forall|i: int, j: int|
        #![trigger places[i], places[j]]
        0 <= i < j < places.len() ==> places[i] < places[j]
}

proof fn lemma_draw_selects(
    peers: Seq<SignedAnnounce>,
    chunk: Seq<u8>,
    index: int,
    drawn: Seq<SignedAnnounce>,
    places: Seq<int>,
)
    requires
        0 <= index <= peers.len(),
        drawn.len() <= TARGET_SIZE,
        selects(places, drawn, peers),
        forall|i: int| 0 <= i < places.len() ==> #[trigger] places[i] < index,
    ensures
        is_selection(draw_from(peers, chunk, index, drawn), peers),
        draw_from(peers, chunk, index, drawn).len() <= TARGET_SIZE,
    decreases peers.len() - index,
{
    if index >= peers.len() || drawn.len() >= TARGET_SIZE {
    } else if is_drawn(
        (TARGET_SIZE - drawn.len()) as nat,
        (peers.len() - index) as nat,
        random_number(chunk, index),
    ) {
        let more = places.push(index);
        assert(selects(more, drawn.push(peers[index]), peers));
        lemma_draw_selects(peers, chunk, index + 1, drawn.push(peers[index]), more);
    } else {
        lemma_draw_selects(peers, chunk, index + 1, drawn, places);
    }
}

/// Whatever the random bytes are, what is drawn are some of the peers, in their order, none of
/// them twice, and no more than the target size.
pub proof fn law_drawn_peers_are_a_selection(peers: Seq<SignedAnnounce>, chunk: Seq<u8>)
    ensures
        is_selection(drawn_peers(peers, chunk), peers),
        drawn_peers(peers, chunk).len() <= TARGET_SIZE,
{
    let none = Seq::<int>::empty();
    assert(selects(none, Seq::<SignedAnnounce>::empty(), peers));
    lemma_draw_selects(peers, chunk, 0, Seq::empty(), none);
}

proof fn lemma_draw_fills(
    peers: Seq<SignedAnnounce>,
    chunk: Seq<u8>,
    index: int,
    drawn: Seq<SignedAnnounce>,
)
    requires
        0 <= index <= peers.len(),
        drawn.len() <= TARGET_SIZE,
        TARGET_SIZE - drawn.len() <= peers.len() - index,
    ensures
        draw_from(peers, chunk, index, drawn).len() == TARGET_SIZE,
    decreases peers.len() - index,
{
    if index < peers.len() && drawn.len() < TARGET_SIZE {
        let slots = (TARGET_SIZE - drawn.len()) as nat;
        let items = (peers.len() - index) as nat;
        if is_drawn(slots, items, random_number(chunk, index)) {
            lemma_draw_fills(peers, chunk, index + 1, drawn.push(peers[index]));
        } else {
            lemma_draw_fills(peers, chunk, index + 1, drawn);
        }
    }
}

/// From at least as many peers as the target size, exactly the target size is drawn, whatever the
/// random bytes are.
pub proof fn law_draw_fills_the_target(peers: Seq<SignedAnnounce>, chunk: Seq<u8>)
    requires
        TARGET_SIZE <= peers.len(),
    ensures
        drawn_peers(peers, chunk).len() == TARGET_SIZE,
{
    lemma_draw_fills(peers, chunk, 0, Seq::empty());
}

proof fn lemma_draw_all(
    peers: Seq<SignedAnnounce>,
    chunk: Seq<u8>,
    index: int,
    drawn: Seq<SignedAnnounce>,
)
    requires
        0 <= index <= peers.len() <= TARGET_SIZE,
        drawn == peers.take(index),
    ensures
        draw_from(peers, chunk, index, drawn) == peers,
    decreases peers.len() - index,
{
    if index < peers.len() {
        assert(drawn.push(peers[index]) =~= peers.take(index + 1));
        lemma_draw_all(peers, chunk, index + 1, drawn.push(peers[index]));
    } else {
        assert(peers.take(index) =~= peers);
    }
}

/// From no more peers than the target size, all are drawn, whatever the random bytes are.
pub proof fn law_few_peers_are_all_drawn(peers: Seq<SignedAnnounce>, chunk: Seq<u8>)
    ensures
        peers.len() <= TARGET_SIZE ==> drawn_peers(peers, chunk) == peers,
{
    if peers.len() <= TARGET_SIZE {
        assert(peers.take(0) =~= Seq::empty());
        lemma_draw_all(peers, chunk, 0, Seq::empty());
    }
}

/// Each peer is decided on in turn, by the little-endian number in the four bytes from its place on:
/// it is drawn if the number is below the chance that the slots left give the peers left, or if
/// there are enough slots for all of these. The draw goes on until ten are drawn.
pub proof fn law_each_peer_is_decided_on_by_its_bytes(
    peers: Seq<SignedAnnounce>,
    chunk: Seq<u8>,
    index: int,
    drawn: Seq<SignedAnnounce>,
)
    requires
        0 <= index < peers.len(),
        drawn.len() < 10,
    ensures
        ({
            let slots = (10 - drawn.len()) as nat;
            let items = (peers.len() - index) as nat;
            let number = chunk[index] + 256 * (chunk[index + 1] + 256 * (chunk[index + 2] + 256
                * chunk[index + 3]));
            draw_from(peers, chunk, index, drawn) == draw_from(
                peers,
                chunk,
                index + 1,
                if items <= slots || number < chance(slots, items) {
                    drawn.push(peers[index])
                } else {
                    drawn
                },
            )
        }),
        drawn_peers(peers, chunk) == draw_from(peers, chunk, 0, Seq::empty()),
        draw_from(peers, chunk, peers.len() as int, drawn) == drawn,
        forall|ten: Seq<SignedAnnounce>|
            ten.len() == 10 ==> #[trigger] draw_from(peers, chunk, index, ten) == ten,
{
}

/// What a store of signed peers holds: for each info hash the announced peers by their keys, both
/// with the most recently used first.
pub type StoredPeers = Seq<([u8; 20], Seq<([u8; 32], SignedAnnounce)>)>;

/// The store keeps to its limits, has no info hash and no peer of an info hash twice, and holds
/// each peer under its own key.
pub open spec fn peers_kept(store: StoredPeers, max_info_hashes: nat, max_peers: nat) -> bool {
    &&& within_limit(store, max_info_hashes)
    &&& forall|i: int|
        0 <= i < store.len() ==> peers_of_one_kept((#[trigger] store[i]).1, max_peers)
}

/// The peers of one info hash keep to their limit, and each stands under its own key, once.
pub open spec fn peers_of_one_kept(
    peers: Seq<([u8; 32], SignedAnnounce)>,
    max_peers: nat,
) -> bool {
    &&& within_limit(peers, max_peers)
    &&& 0 < peers.len()
    &&& forall|i: int| 0 <= i < peers.len() ==> (#[trigger] peers[i]).0 == peers[i].1.key
}

/// The store after `peer` was announced on `info_hash`.
pub open spec fn announced(
    store: StoredPeers,
    max_info_hashes: nat,
    max_peers: nat,
    info_hash: Id,
    peer: SignedAnnounce,
) -> StoredPeers {
    let earlier = match value_of(store, info_hash.bytes) {
        Some(peers) => peers,
        None => Seq::empty(),
    };
    put(store, max_info_hashes, info_hash.bytes, put(earlier, max_peers, peer.key, peer))
}

/// The peers of the store on `info_hash`, the most recently announced first.
pub open spec fn peers_on(store: StoredPeers, info_hash: Id) -> Seq<SignedAnnounce> {
    match value_of(store, info_hash.bytes) {
        Some(peers) => peers.map_values(|entry: ([u8; 32], SignedAnnounce)| entry.1),
        None => Seq::empty(),
    }
}

/// An LRU cache of signed peers announced per info hash.
#[derive(Debug)]
pub struct SignedPeersStore {
    info_hashes: LruCache<[u8; 20], AnnouncedPeers>,
    max_peers: usize,
}

impl View for SignedPeersStore {
    type V = StoredPeers;

    closed spec fn view(&self) -> StoredPeers {
        map_entries(
            info_hash_entries(self.info_hashes),
            |peers: AnnouncedPeers| peers.entries(),
        )
    }
}

impl SignedPeersStore {
    /// How many info hashes are kept at most.
    pub closed spec fn max_info_hashes(self) -> nat {
        info_hash_limit(self.info_hashes)
    }

    /// How many peers are kept on an info hash at most.
    pub closed spec fn max_peers(self) -> nat {
        self.max_peers as nat
    }

    spec fn caches_agree(self) -> bool {
        let entries = info_hash_entries(self.info_hashes);
        &&& keys_distinct(entries)
        &&& forall|i: int|
            0 <= i < entries.len() ==> (#[trigger] entries[i]).1.limit() == self.max_peers
    }

    /// The store keeps to its limits.
    pub closed spec fn wf(self) -> bool {
        &&& self.caches_agree()
        &&& 0 < self.max_info_hashes()
        &&& 0 < self.max_peers <= MAX_CACHE_LIMIT
        &&& peers_kept(self@, self.max_info_hashes(), self.max_peers())
    }

    /// Creates a store of peers announced on info hashes.
    pub fn new(max_info_hashes: usize, max_peers: usize) -> (store: Self)
        requires
            0 < max_info_hashes <= MAX_CACHE_LIMIT,
            0 < max_peers <= MAX_CACHE_LIMIT,
        ensures
            store.wf(),
            store@ == StoredPeers::empty(),
            store.max_info_hashes() == max_info_hashes,
            store.max_peers() == max_peers,
    {
        let store = SignedPeersStore { info_hashes: info_hashes_new(max_info_hashes), max_peers };
        assert(store@ =~= StoredPeers::empty());
        store
    }

    /// The number of info hashes with peers.
    pub fn info_hashes_len(&self) -> (len: usize)
        ensures
            len == self@.len(),
    {
        info_hashes_len(&self.info_hashes)
    }
}

impl Clone for SignedPeersStore {
    fn clone(&self) -> (copy: Self)
        ensures
            copy@ == self@,
            copy.max_info_hashes() == self.max_info_hashes(),
            copy.max_peers() == self.max_peers(),
            self.wf() ==> copy.wf(),
    {
        let copy = SignedPeersStore {
            info_hashes: info_hashes_clone(&self.info_hashes),
            max_peers: self.max_peers,
        };
        proof {
            let before = info_hash_entries(self.info_hashes);
            let after = info_hash_entries(copy.info_hashes);
            assert forall|i: int| 0 <= i < after.len() implies (#[trigger] after[i]).1.entries()
                == before[i].1.entries() && after[i].1.limit() == before[i].1.limit() && after[i].0
                == before[i].0 by {
                assert(cloned(before[i].1, after[i].1));
            }
            assert(copy@ =~= self@);
            if self.wf() {
                assert forall|i: int, j: int|
                    #![trigger after[i], after[j]]
                    0 <= i < j < after.len() implies after[i].0 != after[j].0 by {
                    assert(before[i].0 != before[j].0);
                }
            }
        }
        copy
    }
}

/// A store that is well-formed keeps to its limits, has nothing twice, and holds each peer under its
/// own key.
pub proof fn lemma_wf_keeps_peers(store: SignedPeersStore)
    requires
        store.wf(),
    ensures
        peers_kept(store@, store.max_info_hashes(), store.max_peers()),
        0 < store.max_info_hashes(),
        0 < store.max_peers() <= MAX_CACHE_LIMIT,
{
}

/// The peers of one info hash keep to their limit when one more is put among them.
proof fn lemma_put_peer(
    peers: Seq<([u8; 32], SignedAnnounce)>,
    max_peers: nat,
    peer: SignedAnnounce,
)
    requires
        0 < max_peers,
        peers.len() > 0 ==> peers_of_one_kept(peers, max_peers),
    ensures
        peers_of_one_kept(put(peers, max_peers, peer.key, peer), max_peers),
{
    assert(within_limit(peers, max_peers));
    law_put_keeps_limit(peers, max_peers, peer.key, peer);
    let after = put(peers, max_peers, peer.key, peer);
    assert forall|i: int| 0 <= i < after.len() implies (#[trigger] after[i]).0
        == after[i].1.key by {
        if i > 0 {
            if holds_key(peers, peer.key) {
                let p = place_of(peers, peer.key);
                let j = if i - 1 < p { i - 1 } else { i };
                assert(after[i] == peers[j]);
            } else {
                assert(after[i] == peers[i - 1]);
            }
        }
    }
}

/// An announcement keeps the store within its limits.
pub proof fn law_announcing_keeps_limits(
    store: StoredPeers,
    max_info_hashes: nat,
    max_peers: nat,
    info_hash: Id,
    peer: SignedAnnounce,
)
    requires
        0 < max_info_hashes,
        0 < max_peers,
        peers_kept(store, max_info_hashes, max_peers),
    ensures
        peers_kept(
            announced(store, max_info_hashes, max_peers, info_hash, peer),
            max_info_hashes,
            max_peers,
        ),
{
    let h = info_hash.bytes;
    let earlier = match value_of(store, h) {
        Some(peers) => peers,
        None => Seq::empty(),
    };
    lemma_put_peer(earlier, max_peers, peer);
    let peers = put(earlier, max_peers, peer.key, peer);
    law_put_keeps_limit(store, max_info_hashes, h, peers);
    let after = put(store, max_info_hashes, h, peers);
    assert forall|i: int| 0 <= i < after.len() implies peers_of_one_kept(
        (#[trigger] after[i]).1,
        max_peers,
    ) by {
        if i > 0 {
            if holds_key(store, h) {
                let p = place_of(store, h);
                let j = if i - 1 < p { i - 1 } else { i };
                assert(after[i] == store[j]);
            } else {
                assert(after[i] == store[i - 1]);
            }
        }
    }
}

impl SignedPeersStore {
    /// Adds a peer for an info hash.
    pub fn add_peer(&mut self, info_hash: Id, peer: SignedAnnounce)
        requires
            old(self).wf(),
        ensures
            final(self).wf(),
            final(self)@ == announced(
                old(self)@,
                old(self).max_info_hashes(),
                old(self).max_peers(),
                info_hash,
                peer,
            ),
            final(self).max_info_hashes() == old(self).max_info_hashes(),
            final(self).max_peers() == old(self).max_peers(),
    {
        let ghost before = info_hash_entries(self.info_hashes);
        let ghost f = |peers: AnnouncedPeers| peers.entries();
        let ghost h = info_hash.bytes;
        proof {
            lemma_map_entries(before, f, h);
            law_announcing_keeps_limits(
                self@,
                self.max_info_hashes(),
                self.max_peers(),
                info_hash,
                peer,
            );
            lemma_used(before, h);
        }
        let found = match info_hashes_get_mut(&mut self.info_hashes, &info_hash.bytes) {
            Some(info_hash_lru) => {
                assert(before[place_of(before, h)].1.limit() == self.max_peers);
                peers_put(&mut info_hash_lru.cache, *peer.key(), peer);
                true
            },
            None => false,
        };
        if !found {
            let mut info_hash_lru = AnnouncedPeers { cache: peers_new(self.max_peers) };
            peers_put(&mut info_hash_lru.cache, *peer.key(), peer);
            info_hashes_put(&mut self.info_hashes, info_hash.bytes, info_hash_lru);
        }
        proof {
            assert(self@ =~= announced(
                old(self)@,
                old(self).max_info_hashes(),
                old(self).max_peers(),
                info_hash,
                peer,
            ));
        }
    }

    /// All peers of an info hash, the most recently announced first. The info hash counts as used.
    pub fn announced_peers(&mut self, info_hash: &Id) -> (peers: Option<Vec<SignedAnnounce>>)
        requires
            old(self).wf(),
        ensures
            final(self).wf(),
            final(self)@ == used(old(self)@, info_hash.bytes),
            final(self).max_info_hashes() == old(self).max_info_hashes(),
            final(self).max_peers() == old(self).max_peers(),
            match peers {
                Some(v) => holds_key(old(self)@, info_hash.bytes) && v@ == peers_on(
                    old(self)@,
                    *info_hash,
                ) && 0 < v@.len() <= old(self).max_peers() <= MAX_CACHE_LIMIT,
                None => !holds_key(old(self)@, info_hash.bytes),
            },
    {
        let ghost before = info_hash_entries(self.info_hashes);
        let ghost f = |peers: AnnouncedPeers| peers.entries();
        let ghost h = info_hash.bytes;
        proof {
            lemma_map_entries(before, f, h);
            lemma_used(before, h);
            lemma_used(self@, h);
        }
        let peers = match info_hashes_get(&mut self.info_hashes, &info_hash.bytes) {
            Some(info_hash_lru) => Some(peers_iter(&info_hash_lru.cache)),
            None => None,
        };
        proof {
            if holds_key(before, h) {
                let p = place_of(before, h);
                assert(old(self)@[place_of(old(self)@, h)].1.len() > 0);
                assert forall|i: int| 0 <= i < self@.len() implies peers_of_one_kept(
                    (#[trigger] self@[i]).1,
                    self.max_peers(),
                ) by {
                    let p = place_of(old(self)@, h);
                    let j = if i == 0 {
                        p
                    } else if i - 1 < p {
                        i - 1
                    } else {
                        i
                    };
                    assert(self@[i].1 == old(self)@[j].1);
                }
            }
        }
        peers
    }

    /// Returns a random set of peers per an info hash.
    ///
    /// Fewer peers than the target size are all returned; of more, as many as the target size, drawn
    /// with random bytes.
    /// `Err` says that the system had no random bytes to give.
    pub fn get_random_peers(&mut self, info_hash: &Id) -> (peers: Result<
        Option<Vec<SignedAnnounce>>,
        RandomSourceError,
    >)
        requires
            old(self).wf(),
        ensures
            final(self).wf(),
            final(self)@ == used(old(self)@, info_hash.bytes),
            final(self).max_info_hashes() == old(self).max_info_hashes(),
            final(self).max_peers() == old(self).max_peers(),
            ({
                let known = peers_on(old(self)@, *info_hash);
                match peers {
                    Ok(None) => !holds_key(old(self)@, info_hash.bytes),
                    Ok(Some(v)) => {
                        &&& holds_key(old(self)@, info_hash.bytes)
                        &&& known.len() < TARGET_SIZE ==> v@ == known
                        &&& known.len() >= TARGET_SIZE ==> v@.len() == TARGET_SIZE
                        &&& known.len() >= TARGET_SIZE ==> exists|chunk: Seq<u8>|
                            chunk.len() == 4 * known.len() && v@ == #[trigger] drawn_peers(
                                known,
                                chunk,
                            )
                    },
                    Err(_) => holds_key(old(self)@, info_hash.bytes) && known.len()
                        >= TARGET_SIZE,
                }
            }),
            // The outcome follows the source, asked for four bytes per peer: an error only if it
            // failed, and otherwise the peers that the very bytes it gave draw.
            ({
                let known = peers_on(old(self)@, *info_hash);
                match peers {
                    Ok(Some(v)) => known.len() >= 10 ==> exists|bytes: Vec<u8>|
                        {
                            &&& #[trigger] source_outcome((4 * known.len()) as usize, Ok(bytes))
                            &&& bytes@.len() == 4 * known.len()
                            &&& v@ == drawn_peers(known, bytes@)
                        },
                    Ok(None) => known.len() == 0,
                    Err(_) => known.len() >= 10 && exists|
                        outcome: Result<Vec<u8>, RandomSourceError>,
                    |
                        outcome is Err && #[trigger] source_outcome(
                            (4 * known.len()) as usize,
                            outcome,
                        ),
                }
            }),
    {
        let peers = self.get_random_peers_from(info_hash, random_bytes);
        proof {
            let known = peers_on(old(self)@, *info_hash);
            let count = (4 * known.len()) as usize;
            match &peers {
                Ok(Some(v)) => {
                    if known.len() >= TARGET_SIZE {
                        let bytes = choose|bytes: Vec<u8>|
                            {
                                &&& #[trigger] call_ensures(
                                    random_bytes,
                                    (count,),
                                    Ok::<Vec<u8>, RandomSourceError>(bytes),
                                )
                                &&& bytes@.len() == 4 * known.len()
                                &&& v@ == drawn_peers(known, bytes@)
                            };
                        assert(source_outcome(count, Ok(bytes)));
                    }
                },
                Ok(None) => {},
                Err(_) => {
                    let outcome = choose|outcome: Result<Vec<u8>, RandomSourceError>|
                        outcome is Err && #[trigger] call_ensures(
                            random_bytes,
                            (count,),
                            outcome,
                        );
                    assert(source_outcome(count, outcome));
                },
            }
        }
        peers
    }

    /// Returns a random set of peers per an info hash, drawn with the bytes that `source` gives when
    /// asked for a number of them. `Err` says that it failed.
    pub fn get_random_peers_from<R: Fn(usize) -> Result<Vec<u8>, RandomSourceError>>(
        &mut self,
        info_hash: &Id,
        source: R,
    ) -> (peers: Result<Option<Vec<SignedAnnounce>>, RandomSourceError>)
        requires
            old(self).wf(),
            forall|count: usize| call_requires(source, (count,)),
            forall|count: usize, bytes: Vec<u8>| #[trigger]
                call_ensures(source, (count,), Ok::<Vec<u8>, RandomSourceError>(bytes))
                    ==> bytes@.len() == count,
        ensures
            final(self).wf(),
            final(self)@ == used(old(self)@, info_hash.bytes),
            final(self).max_info_hashes() == old(self).max_info_hashes(),
            final(self).max_peers() == old(self).max_peers(),
            ({
                let known = peers_on(old(self)@, *info_hash);
                match peers {
                    Ok(None) => !holds_key(old(self)@, info_hash.bytes) && known.len() == 0,
                    Ok(Some(v)) => {
                        &&& holds_key(old(self)@, info_hash.bytes)
                        &&& known.len() < 10 ==> v@ == known
                        &&& known.len() >= 10 ==> v@.len() == 10 && exists|bytes: Vec<u8>|
                            {
                                &&& #[trigger] call_ensures(
                                    source,
                                    ((4 * known.len()) as usize,),
                                    Ok::<Vec<u8>, RandomSourceError>(bytes),
                                )
                                &&& bytes@.len() == 4 * known.len()
                                &&& v@ == drawn_peers(known, bytes@)
                            }
                    },
                    Err(_) => {
                        &&& holds_key(old(self)@, info_hash.bytes)
                        &&& known.len() >= 10
                        &&& exists|outcome: Result<Vec<u8>, RandomSourceError>|
                            outcome is Err && #[trigger] call_ensures(
                                source,
                                ((4 * known.len()) as usize,),
                                outcome,
                            )
                    },
                }
            }),
    {
        match self.announced_peers(info_hash) {
            Some(known) => {
                let size: usize = known.len();
                if size < TARGET_SIZE {
                    return Ok(Some(known));
                }
                let count: usize = 4 * size;
                let outcome = source(count);
                assert(count == (4 * peers_on(old(self)@, *info_hash).len()) as usize);
                match outcome {
                    Ok(chunk) => Ok(Some(draw_peers(&known, &chunk))),
                    Err(error) => Err(error),
                }
            },
            None => Ok(None),
        }
    }
}

/// A peer that was just announced is the first of the peers on its info hash.
pub proof fn law_announced_peer_comes_first(
    store: StoredPeers,
    max_info_hashes: nat,
    max_peers: nat,
    info_hash: Id,
    peer: SignedAnnounce,
)
    requires
        0 < max_info_hashes,
        0 < max_peers,
        peers_kept(store, max_info_hashes, max_peers),
    ensures
        peers_on(announced(store, max_info_hashes, max_peers, info_hash, peer), info_hash).len()
            > 0,
        peers_on(announced(store, max_info_hashes, max_peers, info_hash, peer), info_hash)[0]
            == peer,
{
    let earlier = match value_of(store, info_hash.bytes) {
        Some(peers) => peers,
        None => Seq::empty(),
    };
    law_put_is_found(
        store,
        max_info_hashes,
        info_hash.bytes,
        put(earlier, max_peers, peer.key, peer),
    );
}

/// The first peers, as many as are kept at most.
pub open spec fn cut_to(peers: Seq<SignedAnnounce>, max_peers: nat) -> Seq<SignedAnnounce> {
    if peers.len() <= max_peers {
        peers
    } else {
        peers.take(max_peers as int)
    }
}

/// After an announcement the peers on the info hash are the announced one, then the earlier ones
/// with another key in their order, as many as are kept at most.
pub proof fn law_announced_peers_are_most_recent_first(
    store: StoredPeers,
    max_info_hashes: nat,
    max_peers: nat,
    info_hash: Id,
    peer: SignedAnnounce,
)
    requires
        0 < max_info_hashes,
        0 < max_peers,
        peers_kept(store, max_info_hashes, max_peers),
    ensures
        peers_on(announced(store, max_info_hashes, max_peers, info_hash, peer), info_hash)
            == cut_to(
            seq![peer] + peers_on(store, info_hash).filter(
                |other: SignedAnnounce| other.key != peer.key,
            ),
            max_peers,
        ),
        ({
            let all = seq![peer] + peers_on(store, info_hash).filter(
                |other: SignedAnnounce| other.key != peer.key,
            );
            let kept = peers_on(
                announced(store, max_info_hashes, max_peers, info_hash, peer),
                info_hash,
            );
            &&& all.len() <= max_peers ==> kept == all
            &&& all.len() > max_peers ==> kept == all.take(max_peers as int)
        }),
{
    let h = info_hash.bytes;
    let earlier = match value_of(store, h) {
        Some(peers) => peers,
        None => Seq::empty(),
    };
    if holds_key(store, h) {
        assert(peers_of_one_kept(store[place_of(store, h)].1, max_peers));
    }
    let after = put(earlier, max_peers, peer.key, peer);
    law_put_is_found(store, max_info_hashes, h, after);
    let f = |entry: ([u8; 32], SignedAnnounce)| entry.1;
    let others = |other: SignedAnnounce| other.key != peer.key;
    let known = peers_on(store, info_hash);
    assert(known =~= earlier.map_values(f));
    assert forall|i: int| 0 <= i < known.len() implies (#[trigger] known[i]).key
        == earlier[i].0 by {
        assert(known[i] == earlier[i].1);
    }
    if holds_key(earlier, peer.key) {
        let p = place_of(earlier, peer.key);
        assert forall|j: int| 0 <= j < known.len() && j != p implies others(
            #[trigger] known[j],
        ) by {
            assert(earlier[j].0 != earlier[p].0);
        }
        assert(known[p].key == peer.key);
        lemma_filter_all_but_one(known, others, p);
        assert(after.map_values(f) =~= seq![peer] + known.remove(p));
    } else {
        assert forall|j: int| 0 <= j < known.len() implies others(#[trigger] known[j]) by {
            assert(earlier[j].0 == known[j].key);
        }
        lemma_filter_all(known, others);
        assert(after.map_values(f) =~= cut_to(seq![peer] + known, max_peers));
    }
}

/// An announcement leaves the peers of another info hash as they are, unless that info hash is the
/// least recently used one of a full store and gives way to a new one.
pub proof fn law_announcing_keeps_other_info_hashes(
    store: StoredPeers,
    max_info_hashes: nat,
    max_peers: nat,
    info_hash: Id,
    peer: SignedAnnounce,
    other: Id,
)
    requires
        0 < max_info_hashes,
        0 < max_peers,
        peers_kept(store, max_info_hashes, max_peers),
        other != info_hash,
        holds_key(store, info_hash.bytes) || store.len() < max_info_hashes || other.bytes
            != store.last().0,
    ensures
        peers_on(announced(store, max_info_hashes, max_peers, info_hash, peer), other) == peers_on(
            store,
            other,
        ),
{
    let earlier = match value_of(store, info_hash.bytes) {
        Some(peers) => peers,
        None => Seq::empty(),
    };
    law_put_keeps_others(
        store,
        max_info_hashes,
        info_hash.bytes,
        put(earlier, max_peers, peer.key, peer),
        other.bytes,
    );
}

/// A full store gives its least recently used info hash up for a new one.
pub proof fn law_full_store_evicts_oldest_info_hash(
    store: StoredPeers,
    max_info_hashes: nat,
    max_peers: nat,
    info_hash: Id,
    peer: SignedAnnounce,
)
    requires
        0 < max_info_hashes,
        0 < max_peers,
        peers_kept(store, max_info_hashes, max_peers),
        !holds_key(store, info_hash.bytes),
        store.len() == max_info_hashes,
    ensures
        !holds_key(
            announced(store, max_info_hashes, max_peers, info_hash, peer),
            store.last().0,
        ),
{
    law_put_evicts_last(
        store,
        max_info_hashes,
        info_hash.bytes,
        put(Seq::<([u8; 32], SignedAnnounce)>::empty(), max_peers, peer.key, peer),
    );
}

/// Asking for the peers of an info hash changes the peers of none.
pub proof fn law_reading_keeps_peers(
    store: StoredPeers,
    max_info_hashes: nat,
    max_peers: nat,
    info_hash: Id,
    other: Id,
)
    requires
        peers_kept(store, max_info_hashes, max_peers),
    ensures
        peers_on(used(store, info_hash.bytes), other) == peers_on(store, other),
{
    lemma_used(store, info_hash.bytes);
    assert(value_of(used(store, info_hash.bytes), other.bytes) == value_of(store, other.bytes));
}

/// The peers on an info hash are all those of its entry in the store, in their order; there are none
/// where it has no entry.
pub proof fn law_peers_are_those_of_the_entry(
    store: StoredPeers,
    max_info_hashes: nat,
    max_peers: nat,
    info_hash: Id,
    i: int,
    j: int,
)
    requires
        peers_kept(store, max_info_hashes, max_peers),
    ensures
        0 <= i < store.len() && store[i].0 == info_hash.bytes ==> {
            &&& peers_on(store, info_hash).len() == store[i].1.len()
            &&& 0 <= j < store[i].1.len() ==> peers_on(store, info_hash)[j] == store[i].1[j].1
        },
        (forall|k: int| 0 <= k < store.len() ==> (#[trigger] store[k]).0 != info_hash.bytes)
            ==> peers_on(store, info_hash).len() == 0,
{
    if 0 <= i < store.len() && store[i].0 == info_hash.bytes {
        lemma_place_of(store, i);
    }
}

/// An info hash that a peer was announced on comes first in the store; every other one that stays
/// keeps its peers and its place among the others, and the last one goes where there is no room.
pub proof fn law_announced_info_hash_comes_first(
    store: StoredPeers,
    max_info_hashes: nat,
    max_peers: nat,
    info_hash: Id,
    peer: SignedAnnounce,
    i: int,
)
    requires
        0 < max_info_hashes,
        0 < max_peers,
        peers_kept(store, max_info_hashes, max_peers),
    ensures
        ({
            let after = announced(store, max_info_hashes, max_peers, info_hash, peer);
            &&& after.len() > 0
            &&& after[0].0 == info_hash.bytes
            &&& 0 <= i < store.len() && store[i].0 == info_hash.bytes ==> after.skip(1)
                == store.remove(i)
            &&& (forall|k: int| 0 <= k < store.len() ==> (#[trigger] store[k]).0 != info_hash.bytes)
                ==> after.skip(1) == if store.len() < max_info_hashes {
                store
            } else {
                store.take(max_info_hashes - 1)
            }
        }),
{
    let h = info_hash.bytes;
    let earlier = match value_of(store, h) {
        Some(peers) => peers,
        None => Seq::empty(),
    };
    let peers = put(earlier, max_peers, peer.key, peer);
    law_put_keeps_the_order(store, max_info_hashes, h, peers, i);
    if holds_key(store, h) {
        law_put_keeps_the_order(store, max_info_hashes, h, peers, place_of(store, h));
    }
    let after = announced(store, max_info_hashes, max_peers, info_hash, peer);
    if 0 <= i < store.len() && store[i].0 == h {
        assert(after.skip(1) =~= store.remove(i));
    }
    if !holds_key(store, h) {
        assert(after.skip(1) =~= if store.len() < max_info_hashes {
            store
        } else {
            store.take(max_info_hashes - 1)
        });
    }
}

} // verus!
