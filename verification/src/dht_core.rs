//! The state of a node, and what it decides: which queries run, what is kept of them once they are
//! done, and which nodes are asked.
//!
//! Nothing here reads a clock or touches the network. Times are nanoseconds since some fixed
//! moment, durations are nanoseconds.

use vstd::prelude::*;

use crate::address::SocketAddrV4;
use crate::core_laws::{
    law_cached_nodes_are_usable_while_a_token_is_valid, law_finished_lookups_are_removed,
    law_finished_puts_are_removed, law_last_vote_is_the_public_address, law_puts_start_after_their_lookups, lemma_first_of_target,
    votes_at,
};
use crate::id::{bytes_eq, Id};
use crate::id_map::{lemma_place_of, place_of, value_of, IdMap};
use crate::inflight::{elapsed, elapsed_since};
use crate::messages::{
    MutableItem, PutMutableRequestArguments, PutRequestSpecific, RequestKind, RequestSpecific,
    RequestTypeSpecific, Response, SignedAnnounce,
};
use crate::query::{
    queries_get, queries_len, queries_new, queries_pop, queries_pop_lru, queries_put,
    query_entries, query_limit, CachedIterativeQuery, CachedQuery, ClosestNodes, ConcurrencyError,
    GetRequestSpecific, IterativeQuery, PutError, PutQuery, QueryCache,
};
use crate::recency::{
    law_put_keeps_limit, lemma_drop_last, lemma_map_entries, lemma_used, lemma_without, map_entries,
    put, used, within_limit, without,
};
use crate::routing::{
    addresses_to_ping, choose_relevant_routing_table, choose_relevant_routing_table_mut,
    law_exactly_due_nodes_are_pinged, law_fresh_nodes_are_kept, uses_signed_peers_table,
    without_stale, Node, RoutingTable, StatsUpdate, MAX_BUCKET_SIZE_K,
};
use crate::sequences::lemma_contains_sum;

verus! {

/// The time after which the routing table is refreshed: 15 minutes.
pub const REFRESH_TABLE_INTERVAL: u64 = 900_000_000_000;

/// The time after which the nodes of the routing table are pinged: 5 minutes.
pub const PING_TABLE_INTERVAL: u64 = 300_000_000_000;

/// How many finished lookups are cached at most.
pub const MAX_CACHED_ITERATIVE_QUERIES: usize = 1000;

/// The state of a node. `S` is the state with which it serves the requests of others.
#[derive(Debug)]
pub struct Core<S> {
    /// The nodes to ask when no others are known.
    pub bootstrap: Vec<SocketAddrV4>,
    /// The closest nodes to this node.
    pub routing_table: RoutingTable,
    /// The closest nodes to this node that know signed peers.
    pub signed_peers_routing_table: RoutingTable,
    /// The closest responding nodes to specific targets.
    pub cached_iterative_queries: QueryCache,
    /// The lookups in progress.
    pub iterative_queries: IdMap<IterativeQuery>,
    /// The puts in progress. Each waits for a lookup of the same target to finish.
    pub put_queries: IdMap<PutQuery>,
    /// When the routing table was refreshed last.
    pub last_table_refresh: u64,
    /// When the nodes of the routing table were pinged last.
    pub last_table_ping: u64,
    pub server: S,
    pub public_address: Option<SocketAddrV4>,
    pub firewalled: bool,
    pub server_mode: bool,
}

/// The cached lookups, the most recently used first, and the changes to the sums of the two
/// routing tables.
pub struct QueryStats {
    pub cache: Seq<([u8; 20], CachedQuery)>,
    pub basic: Seq<StatsUpdate>,
    pub signed: Seq<StatsUpdate>,
}

/// The change to the sums once a cached lookup is dropped.
pub open spec fn taken_back(query: CachedQuery) -> StatsUpdate {
    match query.request.kind() {
        RequestKind::FindNode => StatsUpdate::DecrementDhtSize {
            dht_size_estimate: query.dht_size_estimate,
        },
        _ => StatsUpdate::DecrementResponders {
            dht_size_estimate: query.dht_size_estimate,
            responders_dht_size_estimate: query.responders_dht_size_estimate,
            subnets: query.subnets,
        },
    }
}

impl QueryStats {
    /// The sums of the table that lookups of this kind start from are changed once more.
    pub open spec fn with_update(self, kind: RequestKind, update: StatsUpdate) -> Self {
        if kind == RequestKind::GetSignedPeers {
            QueryStats { signed: self.signed.push(update), ..self }
        } else {
            QueryStats { basic: self.basic.push(update), ..self }
        }
    }

    /// What a dropped lookup added to the sums is taken back.
    pub open spec fn dropped(self, query: Option<CachedQuery>) -> Self {
        match query {
            Some(q) => self.with_update(q.request.kind(), taken_back(q)),
            None => self,
        }
    }

    /// A full cache gives its least recently used lookup up.
    pub open spec fn with_room(self) -> Self {
        if self.cache.len() >= MAX_CACHED_ITERATIVE_QUERIES {
            QueryStats { cache: self.cache.drop_last(), ..self }.dropped(Some(self.cache.last().1))
        } else {
            self
        }
    }

    /// What a finished lookup leaves: it is cached in place of an earlier one of the same target,
    /// and the sums are changed accordingly. A lookup that found no nodes only makes room: the
    /// node is offline.
    pub open spec fn finished(self, query: IterativeQuery, nodes: Seq<Node>) -> Self {
        let roomy = self.with_room();
        if query.closest.nodes@.len() == 0 {
            roomy
        } else {
            let cached = CachedQuery {
                nodes,
                dht_size_estimate: query.closest.dht_size_estimate,
                responders_dht_size_estimate: query.responders.dht_size_estimate,
                subnets: query.responders.subnets_count,
                request: query.request.request_type@,
            };
            let key = query.target.bytes;
            QueryStats {
                cache: put(roomy.cache, MAX_CACHED_ITERATIVE_QUERIES as nat, key, cached),
                ..roomy
            }.dropped(value_of(roomy.cache, key)).with_update(
                cached.request.kind(),
                StatsUpdate::IncrementResponders {
                    dht_size_estimate: cached.dht_size_estimate,
                    responders_dht_size_estimate: cached.responders_dht_size_estimate,
                    subnets: cached.subnets,
                },
            )
        }
    }
}

impl<S> Core<S> {
    /// The cache of lookups keeps to its limit.
    pub open spec fn wf(self) -> bool {
        &&& query_limit(self.cached_iterative_queries) == MAX_CACHED_ITERATIVE_QUERIES
        &&& within_limit(
            query_entries(self.cached_iterative_queries),
            MAX_CACHED_ITERATIVE_QUERIES as nat,
        )
    }

    /// The cached lookups and the changes to the sums.
    pub open spec fn stats(self) -> QueryStats {
        QueryStats {
            cache: map_entries(
                query_entries(self.cached_iterative_queries),
                |cached: CachedIterativeQuery| cached@,
            ),
            basic: self.routing_table.stats_updates@,
            signed: self.signed_peers_routing_table.stats_updates@,
        }
    }

    /// Everything but the cached lookups and the changes to the sums is as in `before`.
    pub open spec fn same_but_stats(self, before: Self) -> bool {
        &&& self.routing_table.same_but_updates(before.routing_table)
        &&& self.signed_peers_routing_table.same_but_updates(before.signed_peers_routing_table)
        &&& self.bootstrap == before.bootstrap
        &&& self.iterative_queries == before.iterative_queries
        &&& self.put_queries == before.put_queries
        &&& self.last_table_refresh == before.last_table_refresh
        &&& self.last_table_ping == before.last_table_ping
        &&& self.server == before.server
        &&& self.public_address == before.public_address
        &&& self.firewalled == before.firewalled
        &&& self.server_mode == before.server_mode
    }

    /// The state of the node `id`, which knows of no nodes yet.
    pub fn new(
        id: Id,
        bootstrap: Vec<SocketAddrV4>,
        server_mode: bool,
        server: S,
        now: u64,
    ) -> (core: Self)
        ensures
            core.wf(),
            core.bootstrap == bootstrap,
            core.routing_table.id == id,
            core.routing_table.nodes@ == Seq::<Node>::empty(),
            core.routing_table.responders_based_dht_size_estimate == 0,
            core.routing_table.average_subnets == 0,
            core.signed_peers_routing_table.id == id,
            core.signed_peers_routing_table.nodes@ == Seq::<Node>::empty(),
            core.signed_peers_routing_table.responders_based_dht_size_estimate == 0,
            core.signed_peers_routing_table.average_subnets == 0,
            core.stats() == (QueryStats {
                cache: Seq::empty(),
                basic: Seq::empty(),
                signed: Seq::empty(),
            }),
            query_entries(core.cached_iterative_queries).len() == 0,
            core.routing_table.stats_updates@.len() == 0,
            core.signed_peers_routing_table.stats_updates@.len() == 0,
            core.iterative_queries@ == Map::<Id, IterativeQuery>::empty(),
            core.put_queries@ == Map::<Id, PutQuery>::empty(),
            core.last_table_refresh == now,
            core.last_table_ping == now,
            core.server == server,
            core.public_address is None,
            core.firewalled,
            core.server_mode == server_mode,
    {
        let core = Core {
            bootstrap,
            routing_table: RoutingTable::new(id),
            signed_peers_routing_table: RoutingTable::new(id),
            cached_iterative_queries: queries_new(MAX_CACHED_ITERATIVE_QUERIES),
            iterative_queries: IdMap::new(),
            put_queries: IdMap::new(),
            last_table_refresh: now,
            last_table_ping: now,
            server,
            public_address: None,
            firewalled: true,
            server_mode,
        };
        assert(core.stats().cache =~= Seq::empty());
        core
    }

    /// The id of this node.
    pub fn id(&self) -> (id: Id)
        ensures
            id == self.routing_table.id,
    {
        self.routing_table.id
    }

    /// Whether it is time to ping the nodes of the routing table.
    pub fn should_ping_table(&self, now: u64) -> (due: bool)
        ensures
            due == (elapsed(now, self.last_table_ping) > PING_TABLE_INTERVAL),
            due == (now > self.last_table_ping + PING_TABLE_INTERVAL),
    {
        elapsed_since(now, self.last_table_ping) > PING_TABLE_INTERVAL
    }

    /// The nodes of the routing table are pinged at `now`.
    pub fn update_last_table_ping(&mut self, now: u64)
        ensures
            *final(self) == (Core { last_table_ping: now, ..*old(self) }),
    {
        self.last_table_ping = now;
    }

    /// Whether it is time to refresh the routing table.
    pub fn should_refresh_table(&self, now: u64) -> (due: bool)
        ensures
            due == (elapsed(now, self.last_table_refresh) > REFRESH_TABLE_INTERVAL),
            due == (now > self.last_table_refresh + REFRESH_TABLE_INTERVAL),
    {
        elapsed_since(now, self.last_table_refresh) > REFRESH_TABLE_INTERVAL
    }

    /// The routing table is refreshed at `now`.
    pub fn update_last_table_refresh(&mut self, now: u64)
        ensures
            *final(self) == (Core { last_table_refresh: now, ..*old(self) }),
    {
        self.last_table_refresh = now;
    }

    /// Takes what a lookup that was dropped from the cache added to the sums back.
    pub fn decrement_cached_iterative_query_stats(&mut self, query: Option<CachedIterativeQuery>)
        ensures
            final(self).stats() == old(self).stats().dropped(
                match query {
                    Some(q) => Some(q@),
                    None => None,
                },
            ),
            final(self).same_but_stats(*old(self)),
            final(self).cached_iterative_queries == old(self).cached_iterative_queries,
            *final(self) == (Core {
                routing_table: final(self).routing_table,
                signed_peers_routing_table: final(self).signed_peers_routing_table,
                cached_iterative_queries: final(self).cached_iterative_queries,
                ..*old(self)
            }),
            final(self).routing_table == (RoutingTable {
                stats_updates: final(self).routing_table.stats_updates,
                ..old(self).routing_table
            }),
            final(self).signed_peers_routing_table == (RoutingTable {
                stats_updates: final(self).signed_peers_routing_table.stats_updates,
                ..old(self).signed_peers_routing_table
            }),
            match query {
                None => *final(self) == *old(self),
                Some(q) => match q.request_type {
                    RequestTypeSpecific::FindNode(_) => {
                        &&& final(self).routing_table.stats_updates@ == old(
                            self,
                        ).routing_table.stats_updates@.push(
                            StatsUpdate::DecrementDhtSize {
                                dht_size_estimate: q.dht_size_estimate,
                            },
                        )
                        &&& final(self).signed_peers_routing_table == old(
                            self,
                        ).signed_peers_routing_table
                    },
                    RequestTypeSpecific::GetSignedPeers(_) => {
                        &&& final(self).signed_peers_routing_table.stats_updates@ == old(
                            self,
                        ).signed_peers_routing_table.stats_updates@.push(
                            StatsUpdate::DecrementResponders {
                                dht_size_estimate: q.dht_size_estimate,
                                responders_dht_size_estimate: q.responders_dht_size_estimate,
                                subnets: q.subnets,
                            },
                        )
                        &&& final(self).routing_table == old(self).routing_table
                    },
                    _ => {
                        &&& final(self).routing_table.stats_updates@ == old(
                            self,
                        ).routing_table.stats_updates@.push(
                            StatsUpdate::DecrementResponders {
                                dht_size_estimate: q.dht_size_estimate,
                                responders_dht_size_estimate: q.responders_dht_size_estimate,
                                subnets: q.subnets,
                            },
                        )
                        &&& final(self).signed_peers_routing_table == old(
                            self,
                        ).signed_peers_routing_table
                    },
                },
            },
    {
        match query {
            Some(query) => match &query.request_type {
                RequestTypeSpecific::FindNode(_) => {
                    self.routing_table.decrement_dht_size_estimate(query.dht_size_estimate);
                },
                request_type => {
                    let relevant_routing_table = choose_relevant_routing_table_mut(
                        request_type,
                        &mut self.routing_table,
                        &mut self.signed_peers_routing_table,
                    );
                    relevant_routing_table.decrement_responders_stats(
                        query.dht_size_estimate,
                        query.responders_dht_size_estimate,
                        query.subnets,
                    );
                },
            },
            None => {},
        }
    }

    /// Keeps what a finished lookup found, and accounts for it in the sums.
    pub fn cache_iterative_query(
        &mut self,
        query: &IterativeQuery,
        closest_responding_nodes: &Vec<Node>,
    )
        requires
            old(self).wf(),
        ensures
            final(self).wf(),
            final(self).stats() == old(self).stats().finished(*query, closest_responding_nodes@),
            final(self).same_but_stats(*old(self)),
            *final(self) == (Core {
                routing_table: final(self).routing_table,
                signed_peers_routing_table: final(self).signed_peers_routing_table,
                cached_iterative_queries: final(self).cached_iterative_queries,
                ..*old(self)
            }),
            final(self).routing_table == (RoutingTable {
                stats_updates: final(self).routing_table.stats_updates,
                ..old(self).routing_table
            }),
            final(self).signed_peers_routing_table == (RoutingTable {
                stats_updates: final(self).signed_peers_routing_table.stats_updates,
                ..old(self).signed_peers_routing_table
            }),
            // What the lookup found comes first in the cache, under its target.
            query.closest.nodes@.len() > 0 ==> {
                let (key, cached) = query_entries(final(self).cached_iterative_queries)[0];
                &&& query_entries(final(self).cached_iterative_queries).len() > 0
                &&& key == query.target.bytes
                &&& cached.closest_responding_nodes@ == closest_responding_nodes@
                &&& cached.dht_size_estimate == query.closest.dht_size_estimate
                &&& cached.responders_dht_size_estimate == query.responders.dht_size_estimate
                &&& cached.subnets == query.responders.subnets_count
                &&& cached.request_type@ == query.request.request_type@
            },
            // The last change to the sums of the table that it started from adds its results.
            query.closest.nodes@.len() > 0 && query.request.request_type is GetSignedPeers
                ==> final(self).signed_peers_routing_table.stats_updates@.last() == (
            StatsUpdate::IncrementResponders {
                dht_size_estimate: query.closest.dht_size_estimate,
                responders_dht_size_estimate: query.responders.dht_size_estimate,
                subnets: query.responders.subnets_count,
            }),
            query.closest.nodes@.len() > 0 && !(query.request.request_type is GetSignedPeers)
                ==> final(self).routing_table.stats_updates@.last() == (
            StatsUpdate::IncrementResponders {
                dht_size_estimate: query.closest.dht_size_estimate,
                responders_dht_size_estimate: query.responders.dht_size_estimate,
                subnets: query.responders.subnets_count,
            }),
    {
        let ghost f = |cached: CachedIterativeQuery| cached@;
        let ghost entries = query_entries(self.cached_iterative_queries);
        if queries_len(&self.cached_iterative_queries) >= MAX_CACHED_ITERATIVE_QUERIES {
            let popped = queries_pop_lru(&mut self.cached_iterative_queries);
            proof {
                lemma_drop_last(entries);
                assert(map_entries(entries.drop_last(), f) =~= map_entries(entries, f).drop_last());
            }
            let query = match popped {
                Some((_, query)) => Some(query),
                None => None,
            };
            self.decrement_cached_iterative_query_stats(query);
        }
        if query.closest.nodes.len() == 0 {
            // The node is offline.
            return;
        }
        let ghost roomy = query_entries(self.cached_iterative_queries);
        let dht_size_estimate = query.closest.dht_size_estimate;
        let responders_dht_size_estimate = query.responders.dht_size_estimate;
        let subnets_count = query.responders.subnets_count;
        let cached = CachedIterativeQuery {
            closest_responding_nodes: closest_responding_nodes.clone(),
            dht_size_estimate,
            responders_dht_size_estimate,
            subnets: subnets_count,
            request_type: query.request.request_type.clone(),
        };
        proof {
            assert(cached.closest_responding_nodes@ =~= closest_responding_nodes@);
            lemma_map_entries(roomy, f, query.target.bytes);
            law_put_keeps_limit(
                roomy,
                MAX_CACHED_ITERATIVE_QUERIES as nat,
                query.target.bytes,
                cached,
            );
        }
        let previous = queries_put(
            &mut self.cached_iterative_queries,
            query.target.bytes,
            cached,
        );
        self.decrement_cached_iterative_query_stats(previous);
        let relevant_routing_table = choose_relevant_routing_table_mut(
            &query.request.request_type,
            &mut self.routing_table,
            &mut self.signed_peers_routing_table,
        );
        relevant_routing_table.increment_responders_stats(
            dht_size_estimate,
            responders_dht_size_estimate,
            subnets_count,
        );
    }
}

/// The cached lookups of a node keep to the limit, and no target is cached twice.
pub proof fn lemma_wf_keeps_cache_limit<S>(core: Core<S>)
    requires
        core.wf(),
    ensures
        within_limit(core.stats().cache, MAX_CACHED_ITERATIVE_QUERIES as nat),
{
    lemma_map_entries(
        query_entries(core.cached_iterative_queries),
        |cached: CachedIterativeQuery| cached@,
        core.routing_table.id.bytes,
    );
}

/// The nodes of a cached lookup, if one of them can still be put to.
pub open spec fn usable_nodes(cached: Option<CachedQuery>, now: u64) -> Option<Seq<Node>> {
    match cached {
        Some(query) => if exists|i: int|
            0 <= i < query.nodes.len() && (#[trigger] query.nodes[i]).token_valid(now) {
            Some(query.nodes)
        } else {
            None
        },
        None => None,
    }
}

/// Whether one of the nodes can still be put to.
fn any_valid_token(nodes: &Vec<Node>, now: u64) -> (found: bool)
    ensures
        found == exists|i: int| 0 <= i < nodes@.len() && (#[trigger] nodes@[i]).token_valid(now),
{
    let mut i: usize = 0;
    while i < nodes.len()
        invariant
            i <= nodes@.len(),
            forall|j: int| 0 <= j < i ==> !(#[trigger] nodes@[j]).token_valid(now),
        decreases nodes@.len() - i,
    {
        if nodes[i].valid_token(now) {
            return true;
        }
        i = i + 1;
    }
    false
}

/// The addresses that a lookup visits first: those of its closest candidates; the bootstrapping
/// nodes as well if it has no nodes, or fewer than there are bootstrapping nodes; and those that
/// the caller adds.
pub open spec fn first_visits(
    candidates: Seq<SocketAddrV4>,
    closest_len: nat,
    bootstrap: Seq<SocketAddrV4>,
    extra_nodes: Seq<SocketAddrV4>,
) -> Seq<SocketAddrV4> {
    if closest_len == 0 || closest_len < bootstrap.len() {
        candidates + bootstrap + extra_nodes
    } else {
        candidates + extra_nodes
    }
}

impl<S> Core<S> {
    /// The closest nodes that an earlier lookup of the target found, if one of them can still be
    /// put to. The earlier lookup counts as used.
    pub fn get_cached_closest_nodes(&mut self, target: &Id, now: u64) -> (nodes: Option<Vec<Node>>)
        requires
            old(self).wf(),
        ensures
            final(self).wf(),
            final(self).stats() == (QueryStats {
                cache: used(old(self).stats().cache, target.bytes),
                ..old(self).stats()
            }),
            final(self).same_but_stats(*old(self)),
            match nodes {
                Some(v) => usable_nodes(value_of(old(self).stats().cache, target.bytes), now)
                    == Some(v@),
                None => usable_nodes(value_of(old(self).stats().cache, target.bytes), now) is None,
            },
            *final(self) == (Core {
                routing_table: final(self).routing_table,
                signed_peers_routing_table: final(self).signed_peers_routing_table,
                cached_iterative_queries: final(self).cached_iterative_queries,
                ..*old(self)
            }),
            final(self).routing_table == (RoutingTable {
                stats_updates: final(self).routing_table.stats_updates,
                ..old(self).routing_table
            }),
            final(self).signed_peers_routing_table == (RoutingTable {
                stats_updates: final(self).signed_peers_routing_table.stats_updates,
                ..old(self).signed_peers_routing_table
            }),
            final(self).routing_table == old(self).routing_table,
            final(self).signed_peers_routing_table == old(self).signed_peers_routing_table,
            ({
                let entries = query_entries(old(self).cached_iterative_queries);
                match nodes {
                    Some(v) => {
                        &&& exists|i: int|
                            0 <= i < entries.len() && (#[trigger] entries[i]).0 == target.bytes
                                && entries[i].1.closest_responding_nodes@ == v@
                        &&& exists|k: int|
                            0 <= k < v@.len() && ((
                            #[trigger] v@[k]).token_valid_until matches Some(until) && now
                                <= until)
                    },
                    None => forall|i: int, k: int|
                        #![trigger entries[i].1.closest_responding_nodes@[k]]
                        0 <= i < entries.len() && entries[i].0 == target.bytes && 0 <= k
                            < entries[i].1.closest_responding_nodes@.len()
                            ==> (entries[i].1.closest_responding_nodes@[k].token_valid_until
                            matches Some(until) ==> now > until),
                }
            }),
    {
        let ghost f = |cached: CachedIterativeQuery| cached@;
        proof {
            let entries = query_entries(self.cached_iterative_queries);
            lemma_map_entries(entries, f, target.bytes);
            lemma_used(entries, target.bytes);
        }
        let ghost before = query_entries(self.cached_iterative_queries);
        match queries_get(&mut self.cached_iterative_queries, &target.bytes) {
            Some(cached) => {
                let ghost p = place_of(before, target.bytes);
                assert forall|i: int|
                    0 <= i < before.len() && (#[trigger] before[i]).0 == target.bytes implies i
                    == p by {
                    assert(before[p].0 == target.bytes);
                }
                if any_valid_token(&cached.closest_responding_nodes, now) {
                    let nodes = cached.closest_responding_nodes.clone();
                    assert(nodes@ =~= cached.closest_responding_nodes@);
                    proof {
                        let k = choose|k: int|
                            0 <= k < cached.closest_responding_nodes@.len() && (
                            #[trigger] cached.closest_responding_nodes@[k]).token_valid(now);
                        assert(nodes@[k] == cached.closest_responding_nodes@[k]);
                        assert(before[p].1.closest_responding_nodes@ == nodes@);
                    }
                    Some(nodes)
                } else {
                    assert forall|i: int, k: int|
                        #![trigger before[i].1.closest_responding_nodes@[k]]
                        0 <= i < before.len() && before[i].0 == target.bytes && 0 <= k
                            < before[i].1.closest_responding_nodes@.len() implies (
                    before[i].1.closest_responding_nodes@[k].token_valid_until matches Some(until)
                        ==> now > until) by {
                        assert(i == p);
                        assert(!cached.closest_responding_nodes@[k].token_valid(now));
                    }
                    None
                }
            },
            None => {
                assert(forall|i: int|
                    0 <= i < before.len() ==> (#[trigger] before[i]).0 != target.bytes);
                None
            },
        }
    }

    /// The closest nodes that a finished lookup found.
    ///
    /// Of a lookup of nodes these are the closest ones, as many as a bucket holds. Of another
    /// lookup these are the responding nodes that `take_until_secure` takes, given the estimated
    /// size of the network and the average number of subnets of the relevant routing table.
    pub fn closest_nodes_from_done_iterative_query<
        T: Fn(&Vec<Node>, usize, usize) -> Vec<Node>,
    >(&self, query: &IterativeQuery, take_until_secure: T) -> (nodes: Vec<Node>)
        requires
            forall|responders: &Vec<Node>, estimate: usize, subnets: usize|
                call_requires(take_until_secure, (responders, estimate, subnets)),
        ensures
            if query.request.request_type.kind() == RequestKind::FindNode {
                nodes@ == if query.closest.nodes@.len() <= MAX_BUCKET_SIZE_K {
                    query.closest.nodes@
                } else {
                    query.closest.nodes@.take(MAX_BUCKET_SIZE_K as int)
                }
            } else {
                let table = if uses_signed_peers_table(query.request.request_type) {
                    self.signed_peers_routing_table
                } else {
                    self.routing_table
                };
                call_ensures(
                    take_until_secure,
                    (
                        &query.responders.nodes,
                        table.responders_based_dht_size_estimate,
                        table.average_subnets,
                    ),
                    nodes,
                )
            },
            query.request.request_type is FindNode ==> {
                &&& nodes@.len() <= 20
                &&& nodes@.len() < 20 ==> nodes@.len() == query.closest.nodes@.len()
                &&& nodes@.len() <= query.closest.nodes@.len()
                &&& nodes@ == query.closest.nodes@.take(nodes@.len() as int)
            },
            query.request.request_type is GetSignedPeers ==> call_ensures(
                take_until_secure,
                (
                    &query.responders.nodes,
                    self.signed_peers_routing_table.responders_based_dht_size_estimate,
                    self.signed_peers_routing_table.average_subnets,
                ),
                nodes,
            ),
            !(query.request.request_type is GetSignedPeers || query.request.request_type
                is FindNode) ==> call_ensures(
                take_until_secure,
                (
                    &query.responders.nodes,
                    self.routing_table.responders_based_dht_size_estimate,
                    self.routing_table.average_subnets,
                ),
                nodes,
            ),
    {
        match &query.request.request_type {
            RequestTypeSpecific::FindNode(_) => {
                let mut nodes: Vec<Node> = Vec::new();
                let mut i: usize = 0;
                while i < query.closest.nodes.len() && i < MAX_BUCKET_SIZE_K
                    invariant
                        i <= query.closest.nodes@.len(),
                        i <= MAX_BUCKET_SIZE_K,
                        nodes@ == query.closest.nodes@.take(i as int),
                    decreases query.closest.nodes@.len() - i,
                {
                    nodes.push(query.closest.nodes[i]);
                    i = i + 1;
                    assert(nodes@ =~= query.closest.nodes@.take(i as int));
                }
                proof {
                    if query.closest.nodes@.len() <= MAX_BUCKET_SIZE_K {
                        assert(query.closest.nodes@.take(i as int) =~= query.closest.nodes@);
                    }
                }
                nodes
            },
            request_type => {
                let relevant_routing_table = choose_relevant_routing_table(
                    request_type,
                    &self.routing_table,
                    &self.signed_peers_routing_table,
                );
                take_until_secure(
                    &query.responders.nodes,
                    relevant_routing_table.responders_based_dht_size_estimate,
                    relevant_routing_table.average_subnets,
                )
            },
        }
    }

    /// Forgets the stale nodes of both routing tables, and returns the addresses of the nodes to
    /// ping.
    pub fn check_nodes_to_ping_and_remove_stale_nodes(&mut self, now: u64) -> (to_ping: Vec<
        SocketAddrV4,
    >)
        ensures
            to_ping@ == addresses_to_ping(old(self).routing_table.nodes@, now)
                + addresses_to_ping(old(self).signed_peers_routing_table.nodes@, now),
            final(self).routing_table.nodes@ == without_stale(old(self).routing_table.nodes@, now),
            final(self).signed_peers_routing_table.nodes@ == without_stale(
                old(self).signed_peers_routing_table.nodes@,
                now,
            ),
            final(self).routing_table.same_but_nodes(old(self).routing_table),
            final(self).signed_peers_routing_table.same_but_nodes(
                old(self).signed_peers_routing_table,
            ),
            *final(self) == (Core {
                routing_table: final(self).routing_table,
                signed_peers_routing_table: final(self).signed_peers_routing_table,
                ..*old(self)
            }),
            final(self).routing_table == (RoutingTable {
                nodes: final(self).routing_table.nodes,
                ..old(self).routing_table
            }),
            final(self).signed_peers_routing_table == (RoutingTable {
                nodes: final(self).signed_peers_routing_table.nodes,
                ..old(self).signed_peers_routing_table
            }),
            // First the nodes of the one table, then those of the other, in their order: those that
            // are not stale and past their quiet time.
            to_ping@ == old(self).routing_table.nodes@.filter(
                |node: Node| now <= node.fresh_until && now > node.quiet_until,
            ).map_values(|node: Node| node.address) + old(
                self,
            ).signed_peers_routing_table.nodes@.filter(
                |node: Node| now <= node.fresh_until && now > node.quiet_until,
            ).map_values(|node: Node| node.address),
            // Every such node has its address among those to ping, and every address is that of
            // such a node.
            forall|address: SocketAddrV4| #[trigger]
                to_ping@.contains(address) <==> (exists|i: int|
                    0 <= i < old(self).routing_table.nodes@.len() && (#[trigger] old(
                        self,
                    ).routing_table.nodes@[i]).address == address && now <= old(
                        self,
                    ).routing_table.nodes@[i].fresh_until && now > old(
                        self,
                    ).routing_table.nodes@[i].quiet_until) || (exists|i: int|
                    0 <= i < old(self).signed_peers_routing_table.nodes@.len() && (#[trigger] old(
                        self,
                    ).signed_peers_routing_table.nodes@[i]).address == address && now <= old(
                        self,
                    ).signed_peers_routing_table.nodes@[i].fresh_until && now > old(
                        self,
                    ).signed_peers_routing_table.nodes@[i].quiet_until),
            // A node stays exactly if no node of its table with its id is stale.
            forall|node: Node| #[trigger]
                final(self).routing_table.nodes@.contains(node) <==> old(
                    self,
                ).routing_table.nodes@.contains(node) && (forall|i: int|
                    0 <= i < old(self).routing_table.nodes@.len() && (#[trigger] old(
                        self,
                    ).routing_table.nodes@[i]).id == node.id ==> now <= old(
                        self,
                    ).routing_table.nodes@[i].fresh_until),
            forall|node: Node| #[trigger]
                final(self).signed_peers_routing_table.nodes@.contains(node) <==> old(
                    self,
                ).signed_peers_routing_table.nodes@.contains(node) && (forall|i: int|
                    0 <= i < old(self).signed_peers_routing_table.nodes@.len() && (#[trigger] old(
                        self,
                    ).signed_peers_routing_table.nodes@[i]).id == node.id ==> now <= old(
                        self,
                    ).signed_peers_routing_table.nodes@[i].fresh_until),
    {
        let mut to_ping: Vec<SocketAddrV4> = Vec::new();
        self.routing_table.check_nodes(now, &mut to_ping);
        self.signed_peers_routing_table.check_nodes(now, &mut to_ping);
        proof {
            let basic = old(self).routing_table.nodes@;
            let signed = old(self).signed_peers_routing_table.nodes@;
            let first = addresses_to_ping(basic, now);
            let second = addresses_to_ping(signed, now);
            assert(to_ping@ =~= first + second);
            assert forall|address: SocketAddrV4| #[trigger] to_ping@.contains(address) == (
            first.contains(address) || second.contains(address)) by {
                lemma_contains_sum(first, second, address);
            }
            assert forall|address: SocketAddrV4| #[trigger] to_ping@.contains(address) <==> (
            exists|i: int|
                0 <= i < basic.len() && (#[trigger] basic[i]).address == address && now
                    <= basic[i].fresh_until && now > basic[i].quiet_until) || (exists|i: int|
                0 <= i < signed.len() && (#[trigger] signed[i]).address == address && now
                    <= signed[i].fresh_until && now > signed[i].quiet_until) by {
                law_exactly_due_nodes_are_pinged(basic, now, address);
                law_exactly_due_nodes_are_pinged(signed, now, address);
            }
            assert forall|node: Node| #[trigger]
                self.routing_table.nodes@.contains(node) <==> basic.contains(node) && (forall|
                    i: int,
                |
                    0 <= i < basic.len() && (#[trigger] basic[i]).id == node.id ==> now
                        <= basic[i].fresh_until) by {
                law_fresh_nodes_are_kept(basic, now, node);
            }
            assert forall|node: Node| #[trigger]
                self.signed_peers_routing_table.nodes@.contains(node) <==> signed.contains(node) && (
            forall|i: int|
                0 <= i < signed.len() && (#[trigger] signed[i]).id == node.id ==> now
                    <= signed[i].fresh_until) by {
                law_fresh_nodes_are_kept(signed, now, node);
            }
        }
        to_ping
    }

    /// Whether a put would conflict with one of the same mutable item that is in progress. A put
    /// that knows of the item in progress takes its place: that one is given up.
    pub fn check_concurrency_errors(&mut self, request: &PutRequestSpecific) -> (outcome: Result<
        (),
        ConcurrencyError,
    >)
        ensures
            outcome == concurrency_outcome(
                *request,
                inflight_item(old(self).put_queries@, *request),
            ),
            final(self).put_queries@ == if overrides(
                *request,
                inflight_item(old(self).put_queries@, *request),
            ) {
                old(self).put_queries@.remove(request->PutMutable_0.target)
            } else {
                old(self).put_queries@
            },
            *final(self) == (Core { put_queries: final(self).put_queries, ..*old(self) }),
            match *request {
                PutRequestSpecific::PutMutable(new) => if old(self).put_queries@.contains_key(
                    new.target,
                ) && old(self).put_queries@[new.target].request is PutMutable {
                    let inflight = old(self).put_queries@[new.target].request->PutMutable_0;
                    if new.sig == inflight.sig {
                        outcome is Ok && final(self).put_queries@ == old(self).put_queries@
                    } else if new.seq < inflight.seq {
                        outcome == Err::<(), ConcurrencyError>(ConcurrencyError::NotMostRecent)
                            && final(self).put_queries@ == old(self).put_queries@
                    } else if new.cas is None {
                        outcome == Err::<(), ConcurrencyError>(ConcurrencyError::ConflictRisk)
                            && final(self).put_queries@ == old(self).put_queries@
                    } else if new.cas != Some(inflight.seq) {
                        outcome == Err::<(), ConcurrencyError>(ConcurrencyError::CasFailed)
                            && final(self).put_queries@ == old(self).put_queries@
                    } else {
                        outcome is Ok && final(self).put_queries@ == old(self).put_queries@.remove(
                            new.target,
                        )
                    }
                } else {
                    outcome is Ok && final(self).put_queries@ == old(self).put_queries@
                },
                _ => outcome is Ok && final(self).put_queries@ == old(self).put_queries@,
            },
    {
        match request {
            PutRequestSpecific::PutMutable(arguments) => {
                let overridden = match self.put_queries.get(&arguments.target) {
                    Some(existing) => match &existing.request {
                        PutRequestSpecific::PutMutable(inflight_request) => {
                            if bytes_eq(&arguments.sig, &inflight_request.sig) {
                                // The put in progress is sufficient.
                                return Ok(());
                            } else if arguments.seq < inflight_request.seq {
                                return Err(ConcurrencyError::NotMostRecent);
                            } else {
                                match arguments.cas {
                                    Some(cas) => {
                                        if cas != inflight_request.seq {
                                            return Err(ConcurrencyError::CasFailed);
                                        }
                                        // The caller knows of the put in progress and wants to
                                        // override it.
                                        true
                                    },
                                    None => {
                                        return Err(ConcurrencyError::ConflictRisk);
                                    },
                                }
                            }
                        },
                        _ => false,
                    },
                    None => false,
                };
                if overridden {
                    self.put_queries.remove(&arguments.target);
                }
                Ok(())
            },
            _ => Ok(()),
        }
    }

    /// If a signed peer or a mutable item is being put under the target, it might as well be
    /// returned to who asks for it.
    pub fn check_outgoing_put_request(&self, target: &Id) -> (found: Option<Response>)
        ensures
            if self.put_queries@.contains_key(*target) {
                match self.put_queries@[*target].request {
                    PutRequestSpecific::PutMutable(request) => found matches Some(
                        Response::Mutable(item),
                    ) && item.stored_by(request) && item.target == request.target && item.key
                        == request.k && item.seq == request.seq && item.value@ == request.v@
                        && item.signature == request.sig && match (request.salt, item.salt) {
                        (Some(a), Some(b)) => a@ == b@,
                        (None, None) => true,
                        _ => false,
                    },
                    PutRequestSpecific::AnnounceSignedPeer(request) => found matches Some(
                        Response::SignedPeers(peers),
                    ) && peers@ == seq![
                        SignedAnnounce {
                            key: request.k,
                            timestamp: request.t,
                            signature: request.sig,
                        },
                    ],
                    _ => found is None,
                }
            } else {
                found is None
            },
    {
        match self.put_queries.get(target) {
            Some(existing) => match &existing.request {
                PutRequestSpecific::PutMutable(request) => Some(
                    Response::Mutable(MutableItem::from_put_request(request)),
                ),
                PutRequestSpecific::AnnounceSignedPeer(request) => {
                    let mut peers: Vec<SignedAnnounce> = Vec::new();
                    peers.push(
                        SignedAnnounce {
                            key: request.k,
                            timestamp: request.t,
                            signature: request.sig,
                        },
                    );
                    assert(peers@ =~= seq![
                        SignedAnnounce {
                            key: request.k,
                            timestamp: request.t,
                            signature: request.sig,
                        },
                    ]);
                    Some(Response::SignedPeers(peers))
                },
                _ => None,
            },
            None => None,
        }
    }

    /// What a lookup in progress has found so far; if there is one, no new one is needed.
    pub fn check_responses_from_active_query(&self, target: &Id) -> (responses: Option<
        &[Response],
    >)
        ensures
            match responses {
                Some(found) => self.iterative_queries@.contains_key(*target) && found@
                    == self.iterative_queries@[*target].responses@,
                None => !self.iterative_queries@.contains_key(*target),
            },
    {
        match self.iterative_queries.get(target) {
            Some(query) => Some(query.responses.as_slice()),
            None => None,
        }
    }
}

/// The put of a mutable item that is in progress under the target of a put of a mutable item.
pub open spec fn inflight_item(puts: Map<Id, PutQuery>, request: PutRequestSpecific) -> Option<
    PutMutableRequestArguments,
> {
    match request {
        PutRequestSpecific::PutMutable(arguments) => if puts.contains_key(arguments.target) {
            match puts[arguments.target].request {
                PutRequestSpecific::PutMutable(inflight) => Some(inflight),
                _ => None,
            }
        } else {
            None
        },
        _ => None,
    }
}

/// What is said to a put while `inflight` is in progress: it may go on if nothing is in progress
/// or the same signature is; it is refused if it is older, if it expects another sequence number
/// than the one in progress, or if it expects none.
pub open spec fn concurrency_outcome(
    request: PutRequestSpecific,
    inflight: Option<PutMutableRequestArguments>,
) -> Result<(), ConcurrencyError> {
    match (request, inflight) {
        (PutRequestSpecific::PutMutable(arguments), Some(other)) => {
            if arguments.sig == other.sig {
                Ok(())
            } else if arguments.seq < other.seq {
                Err(ConcurrencyError::NotMostRecent)
            } else {
                match arguments.cas {
                    Some(cas) => if cas == other.seq {
                        Ok(())
                    } else {
                        Err(ConcurrencyError::CasFailed)
                    },
                    None => Err(ConcurrencyError::ConflictRisk),
                }
            }
        },
        _ => Ok(()),
    }
}

/// The put takes the place of the one in progress: it goes on, with another signature.
pub open spec fn overrides(
    request: PutRequestSpecific,
    inflight: Option<PutMutableRequestArguments>,
) -> bool {
    match (request, inflight) {
        (PutRequestSpecific::PutMutable(arguments), Some(other)) => arguments.sig != other.sig
            && concurrency_outcome(request, inflight) is Ok,
        _ => false,
    }
}

/// The nodes that a lookup starts from, and where it goes first: all nodes that are known of in the
/// order of their distance to the target, and the addresses of those of them to visit.
pub struct Ranking {
    pub closest: ClosestNodes,
    pub closest_candidates: Vec<SocketAddrV4>,
}

impl<S> Core<S> {
    /// `nodes` are those that `closest_secure` finds close to the target in the routing tables
    /// that a lookup starts from: in both tables for a lookup of nodes, in the table of nodes that
    /// know signed peers for a lookup of these, and in the other table for any other lookup.
    pub open spec fn closest_in_tables<C: Fn(&RoutingTable, Id) -> Vec<Node>>(
        self,
        request: GetRequestSpecific,
        closest_secure: C,
        nodes: Seq<Node>,
    ) -> bool {
        let target = request.looks_for();
        match request {
            GetRequestSpecific::FindNode(_) => exists|basic: Vec<Node>, signed: Vec<Node>|
                {
                    &&& #[trigger] call_ensures(
                        closest_secure,
                        (&self.routing_table, target),
                        basic,
                    )
                    &&& #[trigger] call_ensures(
                        closest_secure,
                        (&self.signed_peers_routing_table, target),
                        signed,
                    )
                    &&& nodes == basic@ + signed@
                },
            GetRequestSpecific::GetSignedPeers(_) => exists|signed: Vec<Node>|
                #[trigger] call_ensures(
                    closest_secure,
                    (&self.signed_peers_routing_table, target),
                    signed,
                ) && nodes == signed@,
            _ => exists|basic: Vec<Node>|
                #[trigger] call_ensures(closest_secure, (&self.routing_table, target), basic)
                    && nodes == basic@,
        }
    }

    /// The nodes of the routing tables that a lookup starts from.
    pub fn get_closest_nodes_from_routing_tables<C: Fn(&RoutingTable, Id) -> Vec<Node>>(
        &self,
        request: &GetRequestSpecific,
        closest_secure: C,
    ) -> (nodes: Vec<Node>)
        requires
            forall|table: &RoutingTable, target: Id| call_requires(closest_secure, (table, target)),
        ensures
            self.closest_in_tables(*request, closest_secure, nodes@),
            match *request {
                GetRequestSpecific::FindNode(arguments) => exists|
                    basic: Vec<Node>,
                    signed: Vec<Node>,
                |
                    {
                        &&& #[trigger] call_ensures(
                            closest_secure,
                            (&self.routing_table, arguments.target),
                            basic,
                        )
                        &&& #[trigger] call_ensures(
                            closest_secure,
                            (&self.signed_peers_routing_table, arguments.target),
                            signed,
                        )
                        &&& nodes@ == basic@ + signed@
                    },
                GetRequestSpecific::GetSignedPeers(arguments) => exists|signed: Vec<Node>|
                    #[trigger] call_ensures(
                        closest_secure,
                        (&self.signed_peers_routing_table, arguments.info_hash),
                        signed,
                    ) && nodes@ == signed@,
                GetRequestSpecific::GetPeers(arguments) => exists|basic: Vec<Node>|
                    #[trigger] call_ensures(
                        closest_secure,
                        (&self.routing_table, arguments.info_hash),
                        basic,
                    ) && nodes@ == basic@,
                GetRequestSpecific::GetValue(arguments) => exists|basic: Vec<Node>|
                    #[trigger] call_ensures(
                        closest_secure,
                        (&self.routing_table, arguments.target),
                        basic,
                    ) && nodes@ == basic@,
            },
    {
        let target = request.target();
        match request {
            // It is better to ask further away than needed here: lookups of nodes are rare.
            GetRequestSpecific::FindNode(_) => {
                let mut nodes = closest_secure(&self.routing_table, target);
                let ghost basic = nodes;
                let mut signed = closest_secure(&self.signed_peers_routing_table, target);
                let ghost found = signed;
                nodes.append(&mut signed);
                assert(nodes@ =~= basic@ + found@);
                nodes
            },
            GetRequestSpecific::GetSignedPeers(_) => closest_secure(
                &self.signed_peers_routing_table,
                target,
            ),
            _ => closest_secure(&self.routing_table, target),
        }
    }

    /// `query` is the lookup for `request` that knows the nodes of the routing tables and of an
    /// earlier lookup, and `to_visit` are the addresses that it visits first.
    pub open spec fn lookup_created<
        C: Fn(&RoutingTable, Id) -> Vec<Node>,
        R: Fn(Id, Vec<Node>) -> Ranking,
    >(
        self,
        request: GetRequestSpecific,
        extra_nodes: Seq<SocketAddrV4>,
        closest_secure: C,
        rank: R,
        now: u64,
        query: IterativeQuery,
        to_visit: Seq<SocketAddrV4>,
    ) -> bool {
        let target = request.looks_for();
        let earlier = match usable_nodes(value_of(self.stats().cache, target.bytes), now) {
            Some(nodes) => nodes,
            None => Seq::empty(),
        };
        exists|candidates: Vec<Node>, ranking: Ranking|
            {
                &&& self.candidates_found(request, closest_secure, earlier, candidates@)
                &&& #[trigger] call_ensures(rank, (target, candidates), ranking)
                &&& query.target == target
                &&& query.request == (RequestSpecific {
                    requester_id: self.routing_table.id,
                    request_type: request.sent_as(),
                })
                &&& query.closest == ranking.closest
                &&& query.responders.knows_none()
                &&& query.best_address is None
                &&& query.responses@ == Seq::<Response>::empty()
                &&& to_visit == first_visits(
                    ranking.closest_candidates@,
                    ranking.closest.nodes@.len(),
                    self.bootstrap@,
                    extra_nodes,
                )
            }
    }

    /// `candidates` are the nodes of the routing tables and then the earlier ones.
    pub open spec fn candidates_found<C: Fn(&RoutingTable, Id) -> Vec<Node>>(
        self,
        request: GetRequestSpecific,
        closest_secure: C,
        earlier: Seq<Node>,
        candidates: Seq<Node>,
    ) -> bool {
        exists|nodes: Seq<Node>|
            #[trigger] self.closest_in_tables(request, closest_secure, nodes) && candidates
                == nodes + earlier
    }

    /// Creates a lookup and gives it candidate nodes, but does not start it yet.
    ///
    /// Returns the lookup and the addresses, from the bootstrapping nodes or the routing tables,
    /// to visit to start it. Returns `None` if a lookup of the same target is in progress.
    ///
    /// `closest_secure` finds the nodes of a table that are close to a target, and `rank` orders
    /// candidate nodes by their distance to a target.
    pub fn create_iterative_query<
        C: Fn(&RoutingTable, Id) -> Vec<Node>,
        R: Fn(Id, Vec<Node>) -> Ranking,
    >(
        &mut self,
        request: GetRequestSpecific,
        extra_nodes: Option<&[SocketAddrV4]>,
        closest_secure: C,
        rank: R,
        now: u64,
    ) -> (created: Option<(IterativeQuery, Vec<SocketAddrV4>)>)
        requires
            old(self).wf(),
            forall|table: &RoutingTable, target: Id| call_requires(closest_secure, (table, target)),
            forall|target: Id, nodes: Vec<Node>| call_requires(rank, (target, nodes)),
        ensures
            final(self).wf(),
            match created {
                None => old(self).iterative_queries@.contains_key(request.looks_for())
                    && *final(self) == *old(self),
                Some((query, to_visit)) => {
                    &&& !old(self).iterative_queries@.contains_key(request.looks_for())
                    &&& final(self).same_but_stats(*old(self))
                    &&& final(self).stats() == (QueryStats {
                        cache: used(old(self).stats().cache, request.looks_for().bytes),
                        ..old(self).stats()
                    })
                    &&& old(self).lookup_created(
                        request,
                        match extra_nodes {
                            Some(nodes) => nodes@,
                            None => Seq::empty(),
                        },
                        closest_secure,
                        rank,
                        now,
                        query,
                        to_visit@,
                    )
                },
            },
            // There is none exactly if a lookup of the target is in progress.
            match request {
                GetRequestSpecific::FindNode(arguments) => created is None <==> old(
                    self,
                ).iterative_queries@.contains_key(arguments.target),
                GetRequestSpecific::GetPeers(arguments) => created is None <==> old(
                    self,
                ).iterative_queries@.contains_key(arguments.info_hash),
                GetRequestSpecific::GetSignedPeers(arguments) => created is None <==> old(
                    self,
                ).iterative_queries@.contains_key(arguments.info_hash),
                GetRequestSpecific::GetValue(arguments) => created is None <==> old(
                    self,
                ).iterative_queries@.contains_key(arguments.target),
            },
            // The lookup asks for the very thing that it was created for, in the name of this node.
            created matches Some((query, to_visit)) ==> {
                &&& query.request.requester_id == old(self).routing_table.id
                &&& match request {
                    GetRequestSpecific::FindNode(arguments) => query.target == arguments.target
                        && query.request.request_type == RequestTypeSpecific::FindNode(arguments),
                    GetRequestSpecific::GetPeers(arguments) => query.target == arguments.info_hash
                        && query.request.request_type == RequestTypeSpecific::GetPeers(arguments),
                    GetRequestSpecific::GetSignedPeers(arguments) => query.target
                        == arguments.info_hash && query.request.request_type
                        == RequestTypeSpecific::GetSignedPeers(arguments),
                    GetRequestSpecific::GetValue(arguments) => query.target == arguments.target
                        && query.request.request_type == RequestTypeSpecific::GetValue(arguments),
                }
                &&& query.responders.nodes@.len() == 0
                &&& query.responders.dht_size_estimate.bits == 0
                &&& query.responders.subnets_count == 0
                &&& query.best_address is None
                &&& query.responses@.len() == 0
            },
            // It knows and visits what the ranking of its candidates says, helped out by the
            // bootstrapping nodes, and what the caller adds.
            created matches Some((query, to_visit)) ==> exists|
                candidates: Vec<Node>,
                ranking: Ranking,
            |
                {
                    let added = match extra_nodes {
                        Some(nodes) => nodes@,
                        None => Seq::empty(),
                    };
                    let known = ranking.closest.nodes@.len();
                    &&& #[trigger] call_ensures(rank, (query.target, candidates), ranking)
                    // The candidates are the nodes of the tables, and then those of an earlier
                    // lookup of the target if one of them can still be put to.
                    &&& exists|in_tables: Seq<Node>|
                        {
                            let entries = query_entries(old(self).cached_iterative_queries);
                            &&& #[trigger] old(self).closest_in_tables(
                                request,
                                closest_secure,
                                in_tables,
                            )
                            &&& (forall|i: int|
                                0 <= i < entries.len() ==> (#[trigger] entries[i]).0
                                    != query.target.bytes) ==> candidates@ == in_tables
                            &&& forall|i: int|
                                0 <= i < entries.len() && (#[trigger] entries[i]).0
                                    == query.target.bytes ==> {
                                    let earlier = entries[i].1.closest_responding_nodes@;
                                    &&& (exists|k: int|
                                        0 <= k < earlier.len() && ((
                                        #[trigger] earlier[k]).token_valid_until matches Some(until)
                                            && now <= until)) ==> candidates@ == in_tables + earlier
                                    &&& (forall|k: int|
                                        0 <= k < earlier.len() ==> ((
                                        #[trigger] earlier[k]).token_valid_until matches Some(until)
                                            ==> now > until)) ==> candidates@ == in_tables
                                }
                        }
                    &&& query.closest == ranking.closest
                    &&& known == 0 || known < old(self).bootstrap@.len() ==> to_visit@
                        == ranking.closest_candidates@ + old(self).bootstrap@ + added
                    &&& known > 0 && known >= old(self).bootstrap@.len() ==> to_visit@
                        == ranking.closest_candidates@ + added
                },
            // Creating a lookup starts nothing and forgets nothing.
            *final(self) == (Core {
                cached_iterative_queries: final(self).cached_iterative_queries,
                ..*old(self)
            }),
    {
        let target = request.target();
        if self.iterative_queries.contains_key(&target) {
            return None;
        }
        // Which routing table is the appropriate one depends on the request.
        let mut candidates = self.get_closest_nodes_from_routing_tables(&request, closest_secure);
        let ghost in_tables = candidates@;
        let ghost earlier = match usable_nodes(
            value_of(self.stats().cache, target.bytes),
            now,
        ) {
            Some(nodes) => nodes,
            None => Seq::empty(),
        };
        proof {
            lemma_earlier_nodes(self, target, now, earlier);
        }
        // An earlier lookup of the same target knows nodes as well.
        match self.get_cached_closest_nodes(&target, now) {
            Some(nodes) => {
                let mut nodes = nodes;
                candidates.append(&mut nodes);
            },
            None => {},
        }
        proof {
            assert(candidates@ =~= in_tables + earlier);
            assert(earlier.len() == 0 ==> candidates@ =~= in_tables);
            assert(old(self).candidates_found(request, closest_secure, earlier, candidates@));
            assert(old(self).closest_in_tables(request, closest_secure, in_tables));
        }
        let mut query = IterativeQuery::new(self.id(), target, request);
        let ghost given = candidates;
        let ranking = rank(target, candidates);
        let ghost ranked = ranking;
        let ghost visits = ranking.closest_candidates@;
        let mut to_visit = ranking.closest_candidates;
        // The bootstrapping nodes help out if there are too few others.
        let known = ranking.closest.nodes.len();
        query.closest = ranking.closest;
        if known == 0 || known < self.bootstrap.len() {
            let mut i: usize = 0;
            while i < self.bootstrap.len()
                invariant
                    i <= self.bootstrap@.len(),
                    to_visit@ == visits + self.bootstrap@.take(i as int),
                decreases self.bootstrap@.len() - i,
            {
                to_visit.push(self.bootstrap[i]);
                i = i + 1;
                assert(to_visit@ =~= visits + self.bootstrap@.take(i as int));
            }
            assert(self.bootstrap@.take(i as int) =~= self.bootstrap@);
        }
        let ghost without_extra = to_visit@;
        match extra_nodes {
            Some(nodes) => {
                let mut i: usize = 0;
                while i < nodes.len()
                    invariant
                        i <= nodes@.len(),
                        to_visit@ == without_extra + nodes@.take(i as int),
                    decreases nodes@.len() - i,
                {
                    to_visit.push(nodes[i]);
                    i = i + 1;
                    assert(to_visit@ =~= without_extra + nodes@.take(i as int));
                }
                assert(nodes@.take(i as int) =~= nodes@);
            },
            None => {},
        }
        proof {
            let extra = match extra_nodes {
                Some(nodes) => nodes@,
                None => Seq::empty(),
            };
            assert(to_visit@ =~= first_visits(
                visits,
                ranked.closest.nodes@.len(),
                self.bootstrap@,
                extra,
            ));
            assert(call_ensures(rank, (target, given), ranked));
            assert(old(self).lookup_created(
                request,
                extra,
                closest_secure,
                rank,
                now,
                query,
                to_visit@,
            ));
        }
        Some((query, to_visit))
    }
}

/// What is usable of an earlier lookup, told by the entries of the cache.
proof fn lemma_earlier_nodes<S>(core: &Core<S>, target: Id, now: u64, earlier: Seq<Node>)
    requires
        core.wf(),
        earlier == match usable_nodes(value_of(core.stats().cache, target.bytes), now) {
            Some(nodes) => nodes,
            None => Seq::empty(),
        },
    ensures
        ({
            let entries = query_entries(core.cached_iterative_queries);
            &&& (forall|i: int| 0 <= i < entries.len() ==> (#[trigger] entries[i]).0 != target.bytes)
                ==> earlier.len() == 0
            &&& forall|i: int|
                0 <= i < entries.len() && (#[trigger] entries[i]).0 == target.bytes ==> {
                    let nodes = entries[i].1.closest_responding_nodes@;
                    &&& (exists|k: int|
                        0 <= k < nodes.len() && ((
                        #[trigger] nodes[k]).token_valid_until matches Some(until) && now <= until))
                        ==> earlier == nodes
                    &&& (forall|k: int|
                        0 <= k < nodes.len() ==> ((
                        #[trigger] nodes[k]).token_valid_until matches Some(until) ==> now > until))
                        ==> earlier.len() == 0
                }
        }),
{
    let entries = query_entries(core.cached_iterative_queries);
    let f = |cached: CachedIterativeQuery| cached@;
    lemma_map_entries(entries, f, target.bytes);
    assert forall|i: int| 0 <= i < entries.len() && (#[trigger] entries[i]).0 == target.bytes implies {
        let nodes = entries[i].1.closest_responding_nodes@;
        &&& (exists|k: int|
            0 <= k < nodes.len() && ((#[trigger] nodes[k]).token_valid_until matches Some(until) && now
                <= until)) ==> earlier == nodes
        &&& (forall|k: int|
            0 <= k < nodes.len() ==> ((#[trigger] nodes[k]).token_valid_until matches Some(until)
                ==> now > until)) ==> earlier.len() == 0
    } by {
        lemma_place_of(entries, i);
        law_cached_nodes_are_usable_while_a_token_is_valid(entries[i].1@, now);
    }
}

/// What is known of the address of this node, and the address that was voted for and is still to be
/// confirmed by a ping.
pub struct AddressVotes {
    pub public_address: Option<SocketAddrV4>,
    pub firewalled: bool,
    pub to_ping: Option<SocketAddrV4>,
}

impl AddressVotes {
    /// A vote for another address than the known one is taken over: until a ping confirms it, the
    /// node counts as firewalled. Any other vote changes nothing.
    pub open spec fn voted(self, vote: Option<SocketAddrV4>) -> Self {
        if vote is Some && vote != self.public_address {
            AddressVotes { public_address: vote, firewalled: true, to_ping: vote }
        } else {
            self
        }
    }
}

/// The part of the state that finished lookups change.
pub struct Lookups {
    pub stats: QueryStats,
    pub queries: Map<Id, IterativeQuery>,
    pub votes: AddressVotes,
}

impl Lookups {
    /// The lookup `id` is done and found `nodes`: if it was in progress, it is removed, cached, and
    /// its vote is counted.
    pub open spec fn one_done(self, id: Id, nodes: Seq<Node>) -> Self {
        if self.queries.contains_key(id) {
            Lookups {
                stats: self.stats.finished(self.queries[id], nodes),
                queries: self.queries.remove(id),
                votes: self.votes.voted(self.queries[id].best_address),
            }
        } else {
            self
        }
    }

    /// The lookups `done` are done, one after the other.
    pub open spec fn all_done(self, done: Seq<(Id, Vec<Node>)>) -> Self
        decreases done.len(),
    {
        if done.len() == 0 {
            self
        } else {
            self.all_done(done.drop_last()).one_done(done.last().0, done.last().1@)
        }
    }
}

/// The puts that are still in progress after `done` are done.
pub open spec fn puts_left(puts: Map<Id, PutQuery>, done: Seq<(Id, Option<PutError>)>) -> Map<
    Id,
    PutQuery,
>
    decreases done.len(),
{
    if done.len() == 0 {
        puts
    } else {
        puts_left(puts, done.drop_last()).remove(done.last().0)
    }
}

/// The targets of the lookups `done` under which a put is in progress.
pub open spec fn puts_ready(puts: Map<Id, PutQuery>, done: Seq<(Id, Vec<Node>)>) -> Seq<Id>
    decreases done.len(),
{
    if done.len() == 0 {
        Seq::empty()
    } else if puts.contains_key(done.last().0) {
        puts_ready(puts, done.drop_last()).push(done.last().0)
    } else {
        puts_ready(puts, done.drop_last())
    }
}

/// The cached lookups after the puts `done` are done: that of a failed put is forgotten, for its
/// nodes may no longer be valid.
pub open spec fn lookups_left(
    cache: Seq<([u8; 20], CachedQuery)>,
    done: Seq<(Id, Option<PutError>)>,
) -> Seq<([u8; 20], CachedQuery)>
    decreases done.len(),
{
    if done.len() == 0 {
        cache
    } else if done.last().1 is Some {
        without(lookups_left(cache, done.drop_last()), done.last().0.bytes)
    } else {
        lookups_left(cache, done.drop_last())
    }
}

impl<S> Core<S> {
    /// The part of the state that finished lookups change, before any of them.
    pub open spec fn lookups(self) -> Lookups {
        self.lookups_with(None)
    }

    /// The part of the state that finished lookups change.
    pub open spec fn lookups_with(self, to_ping: Option<SocketAddrV4>) -> Lookups {
        Lookups {
            stats: self.stats(),
            queries: self.iterative_queries@,
            votes: AddressVotes {
                public_address: self.public_address,
                firewalled: self.firewalled,
                to_ping,
            },
        }
    }

    /// Everything that neither finished lookups nor finished puts change is as in `before`.
    pub open spec fn same_but_queries(self, before: Self) -> bool {
        &&& self.routing_table.same_but_updates(before.routing_table)
        &&& self.signed_peers_routing_table.same_but_updates(before.signed_peers_routing_table)
        &&& self.bootstrap == before.bootstrap
        &&& self.last_table_refresh == before.last_table_refresh
        &&& self.last_table_ping == before.last_table_ping
        &&& self.server == before.server
        &&& self.server_mode == before.server_mode
    }

    /// Counts the vote of a lookup for the address of this node, and returns the address to ping
    /// if it is a new one.
    pub fn update_address_votes_from_iterative_query(&mut self, query: &IterativeQuery) -> (to_ping:
        Option<SocketAddrV4>)
        ensures
            ({
                let before = AddressVotes {
                    public_address: old(self).public_address,
                    firewalled: old(self).firewalled,
                    to_ping: None,
                };
                AddressVotes {
                    public_address: final(self).public_address,
                    firewalled: final(self).firewalled,
                    to_ping,
                } == before.voted(query.best_address)
            }),
            *final(self) == (Core {
                public_address: final(self).public_address,
                firewalled: final(self).firewalled,
                ..*old(self)
            }),
            // The vote is the public address afterwards, and is to be pinged if it was not before.
            match query.best_address {
                Some(vote) => {
                    &&& final(self).public_address == Some(vote)
                    &&& old(self).public_address == Some(vote) ==> to_ping is None
                        && final(self).firewalled == old(self).firewalled
                    &&& old(self).public_address != Some(vote) ==> to_ping == Some(vote)
                        && final(self).firewalled
                },
                None => to_ping is None && *final(self) == *old(self),
            },
    {
        match query.best_address {
            Some(new_address) => {
                let known = match self.public_address {
                    Some(address) => address == new_address,
                    None => false,
                };
                if known {
                    return None;
                }
                self.public_address = Some(new_address);
                self.firewalled = true;
                Some(new_address)
            },
            None => None,
        }
    }

    /// The puts that can start once the lookups `done_get_queries` are done: those in progress
    /// under the target of such a lookup, in the order of the lookups.
    pub fn puts_ready_to_start(&self, done_get_queries: &[(Id, Vec<Node>)]) -> (ready: Vec<Id>)
        ensures
            ready@ == puts_ready(self.put_queries@, done_get_queries@),
            forall|id: Id| #[trigger]
                ready@.contains(id) <==> self.put_queries@.contains_key(id) && exists|i: int|
                    0 <= i < done_get_queries@.len() && (#[trigger] done_get_queries@[i]).0 == id,
            ready@.len() <= done_get_queries@.len(),
    {
        let mut ready: Vec<Id> = Vec::new();
        let mut i: usize = 0;
        while i < done_get_queries.len()
            invariant
                i <= done_get_queries@.len(),
                ready@.len() <= i,
                ready@ == puts_ready(self.put_queries@, done_get_queries@.take(i as int)),
            decreases done_get_queries@.len() - i,
        {
            let (id, _) = &done_get_queries[i];
            if self.put_queries.contains_key(id) {
                ready.push(*id);
            }
            i = i + 1;
            proof {
                let upto = done_get_queries@.take(i as int);
                assert(upto.drop_last() =~= done_get_queries@.take(i - 1));
                assert(upto.last() == done_get_queries@[i - 1]);
            }
        }
        assert(done_get_queries@.take(i as int) =~= done_get_queries@);
        proof {
            let puts = self.put_queries@;
            let done = done_get_queries@;
            assert forall|id: Id| #[trigger]
                ready@.contains(id) <==> puts.contains_key(id) && exists|i: int|
                    0 <= i < done.len() && (#[trigger] done[i]).0 == id by {
                law_puts_start_after_their_lookups(puts, done, id);
            }
        }
        ready
    }

    /// Removes finished lookups and puts. If the lookups voted for a new public address, returns
    /// the address to be pinged.
    pub fn cleanup_done_queries(
        &mut self,
        done_get_queries: &[(Id, Vec<Node>)],
        done_put_queries: &[(Id, Option<PutError>)],
    ) -> (to_ping: Option<SocketAddrV4>)
        requires
            old(self).wf(),
        ensures
            final(self).wf(),
            ({
                let done = old(self).lookups().all_done(done_get_queries@);
                &&& final(self).iterative_queries@ == done.queries
                &&& final(self).stats() == (QueryStats {
                    cache: lookups_left(done.stats.cache, done_put_queries@),
                    ..done.stats
                })
                &&& final(self).public_address == done.votes.public_address
                &&& final(self).firewalled == done.votes.firewalled
                &&& to_ping == done.votes.to_ping
            }),
            final(self).put_queries@ == puts_left(old(self).put_queries@, done_put_queries@),
            final(self).same_but_queries(*old(self)),
            *final(self) == (Core {
                routing_table: final(self).routing_table,
                signed_peers_routing_table: final(self).signed_peers_routing_table,
                cached_iterative_queries: final(self).cached_iterative_queries,
                iterative_queries: final(self).iterative_queries,
                put_queries: final(self).put_queries,
                public_address: final(self).public_address,
                firewalled: final(self).firewalled,
                ..*old(self)
            }),
            final(self).routing_table == (RoutingTable {
                stats_updates: final(self).routing_table.stats_updates,
                ..old(self).routing_table
            }),
            final(self).signed_peers_routing_table == (RoutingTable {
                stats_updates: final(self).signed_peers_routing_table.stats_updates,
                ..old(self).signed_peers_routing_table
            }),
            // Exactly the lookups and puts that are not among the finished ones are left, as they
            // were.
            forall|id: Id| #[trigger]
                final(self).iterative_queries@.contains_key(id) <==> old(
                    self,
                ).iterative_queries@.contains_key(id) && forall|i: int|
                    0 <= i < done_get_queries@.len() ==> (#[trigger] done_get_queries@[i]).0 != id,
            forall|id: Id| #[trigger]
                final(self).iterative_queries@.contains_key(id)
                    ==> final(self).iterative_queries@[id] == old(self).iterative_queries@[id],
            forall|id: Id| #[trigger]
                final(self).put_queries@.contains_key(id) <==> old(self).put_queries@.contains_key(
                    id,
                ) && forall|i: int|
                    0 <= i < done_put_queries@.len() ==> (#[trigger] done_put_queries@[i]).0 != id,
            forall|id: Id| #[trigger]
                final(self).put_queries@.contains_key(id) ==> final(self).put_queries@[id] == old(
                    self,
                ).put_queries@[id],
            // Where no finished lookup that was in progress voted, what is known of the address
            // stays.
            (forall|i: int|
                0 <= i < done_get_queries@.len() && old(self).iterative_queries@.contains_key(
                    (#[trigger] done_get_queries@[i]).0,
                ) ==> old(self).iterative_queries@[done_get_queries@[i].0].best_address is None)
                ==> final(self).public_address == old(self).public_address
                && final(self).firewalled == old(self).firewalled && to_ping is None,
            // The last vote is the public address.
            forall|i: int|
                {
                    let id = (#[trigger] done_get_queries@[i]).0;
                    &&& 0 <= i < done_get_queries@.len()
                    &&& old(self).iterative_queries@.contains_key(id)
                    &&& old(self).iterative_queries@[id].best_address is Some
                    &&& forall|j: int|
                        0 <= j < done_get_queries@.len() && j != i ==> (
                        #[trigger] done_get_queries@[j]).0 != id
                    &&& forall|j: int|
                        i < j < done_get_queries@.len() && old(
                            self,
                        ).iterative_queries@.contains_key((#[trigger] done_get_queries@[j]).0)
                            ==> old(
                            self,
                        ).iterative_queries@[done_get_queries@[j].0].best_address is None
                } ==> final(self).public_address == old(
                    self,
                ).iterative_queries@[done_get_queries@[i].0].best_address,
            // An address to ping is a vote of one of them; without one, nothing is known anew.
            to_ping matches Some(address) ==> {
                &&& final(self).public_address == Some(address)
                &&& final(self).firewalled
                &&& exists|i: int|
                    0 <= i < done_get_queries@.len() && old(self).iterative_queries@.contains_key(
                        (#[trigger] done_get_queries@[i]).0,
                    ) && old(self).iterative_queries@[done_get_queries@[i].0].best_address == Some(
                        address,
                    )
            },
            to_ping is None ==> {
                &&& final(self).public_address == old(self).public_address
                &&& final(self).firewalled == old(self).firewalled
                &&& forall|i: int|
                    0 <= i < done_get_queries@.len() && old(self).iterative_queries@.contains_key(
                        (#[trigger] done_get_queries@[i]).0,
                    ) && old(self).iterative_queries@[done_get_queries@[i].0].best_address is Some
                        ==> old(self).iterative_queries@[done_get_queries@[i].0].best_address
                        == old(self).public_address
            },
    {
        let mut should_ping_alleged_new_address: Option<SocketAddrV4> = None;
        let mut i: usize = 0;
        while i < done_get_queries.len()
            invariant
                i <= done_get_queries@.len(),
                self.wf(),
                self.lookups_with(should_ping_alleged_new_address)
                    == old(self).lookups().all_done(done_get_queries@.take(i as int)),
                self.put_queries == old(self).put_queries,
                self.same_but_queries(*old(self)),
            decreases done_get_queries@.len() - i,
        {
            let (id, closest_nodes) = &done_get_queries[i];
            match self.iterative_queries.remove(id) {
                Some(query) => {
                    self.cache_iterative_query(&query, closest_nodes);
                    match self.update_address_votes_from_iterative_query(&query) {
                        Some(address) => {
                            should_ping_alleged_new_address = Some(address);
                        },
                        None => {},
                    }
                },
                None => {},
            }
            i = i + 1;
            proof {
                let upto = done_get_queries@.take(i as int);
                assert(upto.drop_last() =~= done_get_queries@.take(i - 1));
                assert(upto.last() == done_get_queries@[i - 1]);
                assert(self.lookups_with(should_ping_alleged_new_address).queries
                    =~= old(self).lookups().all_done(upto).queries);
            }
        }
        assert(done_get_queries@.take(i as int) =~= done_get_queries@);
        let ghost middle = *self;
        let ghost f = |cached: CachedIterativeQuery| cached@;
        i = 0;
        while i < done_put_queries.len()
            invariant
                i <= done_put_queries@.len(),
                self.wf(),
                self.stats() == (QueryStats {
                    cache: lookups_left(middle.stats().cache, done_put_queries@.take(i as int)),
                    ..middle.stats()
                }),
                self.put_queries@ == puts_left(
                    middle.put_queries@,
                    done_put_queries@.take(i as int),
                ),
                *self == (Core {
                    cached_iterative_queries: self.cached_iterative_queries,
                    put_queries: self.put_queries,
                    ..middle
                }),
                f == |cached: CachedIterativeQuery| cached@,
            decreases done_put_queries@.len() - i,
        {
            let (id, err) = &done_put_queries[i];
            self.put_queries.remove(id);
            // The cached nodes of a put that failed may be left over from an earlier run of a node
            // under the same address.
            if err.is_some() {
                proof {
                    let entries = query_entries(self.cached_iterative_queries);
                    lemma_map_entries(entries, f, id.bytes);
                    lemma_without(entries, id.bytes);
                }
                queries_pop(&mut self.cached_iterative_queries, &id.bytes);
            }
            i = i + 1;
            proof {
                let upto = done_put_queries@.take(i as int);
                assert(upto.drop_last() =~= done_put_queries@.take(i - 1));
                assert(upto.last() == done_put_queries@[i - 1]);
            }
        }
        assert(done_put_queries@.take(i as int) =~= done_put_queries@);
        proof {
            let lookups = old(self).lookups();
            let done = done_get_queries@;
            let queries = old(self).iterative_queries@;
            law_last_vote_is_the_public_address(lookups, done);
            assert forall|id: Id| #[trigger]
                self.iterative_queries@.contains_key(id) <==> queries.contains_key(id) && forall|
                    i: int,
                |
                    0 <= i < done.len() ==> (#[trigger] done[i]).0 != id by {
                law_finished_lookups_are_removed(lookups, done, id);
            }
            assert forall|id: Id| #[trigger] self.iterative_queries@.contains_key(id) implies
                self.iterative_queries@[id] == queries[id] by {
                law_finished_lookups_are_removed(lookups, done, id);
            }
            assert forall|id: Id| #[trigger]
                self.put_queries@.contains_key(id) <==> old(self).put_queries@.contains_key(id)
                    && forall|i: int|
                    0 <= i < done_put_queries@.len() ==> (#[trigger] done_put_queries@[i]).0 != id by {
                law_finished_puts_are_removed(old(self).put_queries@, done_put_queries@, id);
            }
            assert forall|id: Id| #[trigger] self.put_queries@.contains_key(id) implies
                self.put_queries@[id] == old(self).put_queries@[id] by {
                law_finished_puts_are_removed(old(self).put_queries@, done_put_queries@, id);
            }
            assert forall|i: int|
                {
                    let id = (#[trigger] done[i]).0;
                    &&& 0 <= i < done.len()
                    &&& queries.contains_key(id)
                    &&& queries[id].best_address is Some
                    &&& forall|j: int|
                        0 <= j < done.len() && j != i ==> (#[trigger] done[j]).0 != id
                    &&& forall|j: int|
                        i < j < done.len() && queries.contains_key((#[trigger] done[j]).0)
                            ==> queries[done[j].0].best_address is None
                } implies self.public_address == queries[done[i].0].best_address by {
                assert(votes_at(lookups, done, i));
                assert forall|j: int| i < j < done.len() implies !#[trigger] votes_at(
                    lookups,
                    done,
                    j,
                ) by {
                    assert(queries.contains_key(done[j].0)
                        ==> queries[done[j].0].best_address is None);
                }
            }
            if should_ping_alleged_new_address is None {
                assert forall|i: int|
                    0 <= i < done.len() && queries.contains_key((#[trigger] done[i]).0)
                        && queries[done[i].0].best_address is Some implies
                    queries[done[i].0].best_address == old(self).public_address by {
                    let k = lemma_first_of_target(done, i);
                    assert(votes_at(lookups, done, k));
                }
            } else {
                let i = choose|i: int| #[trigger]
                    votes_at(lookups, done, i) && queries[done[i].0].best_address
                        == should_ping_alleged_new_address;
                assert(queries.contains_key(done[i].0));
            }
        }
        should_ping_alleged_new_address
    }
}

} // verus!
