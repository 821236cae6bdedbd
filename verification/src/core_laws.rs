//! What holds of a node whatever its queries find.

use vstd::prelude::*;

use crate::address::SocketAddrV4;
use crate::dht_core::{
    concurrency_outcome, first_visits, lookups_left, overrides, puts_left, puts_ready, taken_back,
    usable_nodes, Core, Lookups, QueryStats, MAX_CACHED_ITERATIVE_QUERIES, PING_TABLE_INTERVAL,
    REFRESH_TABLE_INTERVAL,
};
use crate::id::Id;
use crate::id_map::{keys_distinct, lemma_place_of, place_of, value_of};
use crate::inflight::elapsed;
use crate::messages::{PutMutableRequestArguments, PutRequestSpecific, RequestKind};
use crate::query::{
    query_entries, CachedQuery, ConcurrencyError, GetRequestSpecific, IterativeQuery, PutError,
    PutQuery,
};
use crate::recency::{
    law_put_is_found, law_put_keeps_limit, law_put_keeps_others, lemma_drop_last, lemma_used,
    lemma_without, put, used, within_limit, without,
};
use crate::routing::{Node, RoutingTable, StatsUpdate};

verus! {

/// `id` is among the finished ones.
pub open spec fn among<T>(done: Seq<(Id, T)>, id: Id) -> bool {
    exists|i: int| 0 <= i < done.len() && (#[trigger] done[i]).0 == id
}

proof fn lemma_among<T>(done: Seq<(Id, T)>, id: Id)
    requires
        done.len() > 0,
    ensures
        among(done, id) == (among(done.drop_last(), id) || done.last().0 == id),
{
    if among(done.drop_last(), id) {
        let i = choose|i: int|
            0 <= i < done.drop_last().len() && (#[trigger] done.drop_last()[i]).0 == id;
        assert(done[i].0 == id);
    }
    if among(done, id) && done.last().0 != id {
        let i = choose|i: int| 0 <= i < done.len() && (#[trigger] done[i]).0 == id;
        assert(done.drop_last()[i].0 == id);
    }
    assert(done[done.len() - 1] == done.last());
}

/// After finished lookups are cleaned up, exactly the lookups that are not among them are still in
/// progress, each as it was.
pub proof fn law_finished_lookups_are_removed(
    lookups: Lookups,
    done: Seq<(Id, Vec<Node>)>,
    id: Id,
)
    ensures
        lookups.all_done(done).queries.contains_key(id) <==> lookups.queries.contains_key(id)
            && !among(done, id),
        lookups.all_done(done).queries.contains_key(id) <==> lookups.queries.contains_key(id)
            && !(exists|i: int|
            0 <= i < done.len() && (#[trigger] done[i]).0 == id),
        lookups.all_done(done).queries.contains_key(id) ==> lookups.all_done(done).queries[id]
            == lookups.queries[id],
    decreases done.len(),
{
    if done.len() > 0 {
        law_finished_lookups_are_removed(lookups, done.drop_last(), id);
        lemma_among(done, id);
    }
}

/// After finished puts are cleaned up, exactly the puts that are not among them are still in
/// progress, each as it was.
pub proof fn law_finished_puts_are_removed(
    puts: Map<Id, PutQuery>,
    done: Seq<(Id, Option<PutError>)>,
    id: Id,
)
    ensures
        puts_left(puts, done).contains_key(id) <==> puts.contains_key(id) && !among(done, id),
        puts_left(puts, done).contains_key(id) <==> puts.contains_key(id) && !(exists|i: int|
            0 <= i < done.len() && (#[trigger] done[i]).0 == id),
        puts_left(puts, done).contains_key(id) ==> puts_left(puts, done)[id] == puts[id],
    decreases done.len(),
{
    if done.len() > 0 {
        law_finished_puts_are_removed(puts, done.drop_last(), id);
        lemma_among(done, id);
    }
}

/// The puts that can start are exactly those in progress whose lookup is among the finished ones.
pub proof fn law_puts_start_after_their_lookups(
    puts: Map<Id, PutQuery>,
    done: Seq<(Id, Vec<Node>)>,
    id: Id,
)
    ensures
        puts_ready(puts, done).contains(id) <==> puts.contains_key(id) && among(done, id),
        puts_ready(puts, done).contains(id) <==> puts.contains_key(id) && (exists|i: int|
            0 <= i < done.len() && (#[trigger] done[i]).0 == id),
    decreases done.len(),
{
    if done.len() > 0 {
        let earlier = done.drop_last();
        let last = done.last().0;
        law_puts_start_after_their_lookups(puts, earlier, id);
        lemma_among(done, id);
        let ready = puts_ready(puts, earlier);
        assert(ready.push(last)[ready.len() as int] == last);
        if ready.contains(id) {
            let k = choose|k: int| 0 <= k < ready.len() && ready[k] == id;
            assert(ready.push(last)[k] == id);
        }
    }
}

/// A put under `id` is among the finished ones and failed.
pub open spec fn put_failed(done: Seq<(Id, Option<PutError>)>, id: Id) -> bool {
    exists|i: int| 0 <= i < done.len() && (#[trigger] done[i]).0 == id && done[i].1 is Some
}

/// The cached lookup of a target is forgotten exactly if a put under the target failed.
pub proof fn law_failed_put_forgets_its_lookup(
    cache: Seq<([u8; 20], CachedQuery)>,
    done: Seq<(Id, Option<PutError>)>,
    id: Id,
)
    requires
        keys_distinct(cache),
    ensures
        keys_distinct(lookups_left(cache, done)),
        value_of(lookups_left(cache, done), id.bytes) == if put_failed(done, id) {
            None
        } else {
            value_of(cache, id.bytes)
        },
        value_of(lookups_left(cache, done), id.bytes) == if exists|i: int|
            0 <= i < done.len() && (#[trigger] done[i]).0 == id && done[i].1 is Some {
            None
        } else {
            value_of(cache, id.bytes)
        },
    decreases done.len(),
{
    if done.len() > 0 {
        let earlier = done.drop_last();
        let last = done.last();
        law_failed_put_forgets_its_lookup(cache, earlier, id);
        lemma_without(lookups_left(cache, earlier), last.0.bytes);
        assert(put_failed(done, id) == (put_failed(earlier, id) || (last.0 == id
            && last.1 is Some))) by {
            assert(done[done.len() - 1] == last);
            if put_failed(earlier, id) {
                let i = choose|i: int|
                    0 <= i < earlier.len() && (#[trigger] earlier[i]).0 == id && earlier[i].1 is Some;
                assert(done[i] == earlier[i]);
            }
            if put_failed(done, id) && !(last.0 == id && last.1 is Some) {
                let i = choose|i: int|
                    0 <= i < done.len() && (#[trigger] done[i]).0 == id && done[i].1 is Some;
                assert(earlier[i] == done[i]);
            }
        }
        if last.0.bytes == id.bytes {
            assert(last.0 == id);
        }
    }
}

/// Making room in the cache keeps its keys distinct and leaves room.
proof fn lemma_with_room(stats: QueryStats)
    requires
        within_limit(stats.cache, MAX_CACHED_ITERATIVE_QUERIES as nat),
    ensures
        within_limit(stats.with_room().cache, MAX_CACHED_ITERATIVE_QUERIES as nat),
        stats.with_room().cache.len() < MAX_CACHED_ITERATIVE_QUERIES,
{
    if stats.cache.len() >= MAX_CACHED_ITERATIVE_QUERIES {
        lemma_drop_last(stats.cache);
    }
}

/// However many lookups finish, no more than the limit are cached, and none of them twice.
pub proof fn law_cache_keeps_its_limit(lookups: Lookups, done: Seq<(Id, Vec<Node>)>)
    requires
        within_limit(lookups.stats.cache, MAX_CACHED_ITERATIVE_QUERIES as nat),
    ensures
        within_limit(lookups.all_done(done).stats.cache, MAX_CACHED_ITERATIVE_QUERIES as nat),
    decreases done.len(),
{
    if done.len() > 0 {
        law_cache_keeps_its_limit(lookups, done.drop_last());
        let before = lookups.all_done(done.drop_last());
        let id = done.last().0;
        if before.queries.contains_key(id) {
            let query = before.queries[id];
            lemma_with_room(before.stats);
            law_put_keeps_limit(
                before.stats.with_room().cache,
                MAX_CACHED_ITERATIVE_QUERIES as nat,
                query.target.bytes,
                cached_of(query, done.last().1@),
            );
        }
    }
}

/// What is cached of a finished lookup.
pub open spec fn cached_of(query: IterativeQuery, nodes: Seq<Node>) -> CachedQuery {
    CachedQuery {
        nodes,
        dht_size_estimate: query.closest.dht_size_estimate,
        responders_dht_size_estimate: query.responders.dht_size_estimate,
        subnets: query.responders.subnets_count,
        request: query.request.request_type@,
    }
}

/// What is known of a finished lookup that found nodes is cached under its target: the nodes, the
/// estimates, and what was asked for.
pub proof fn law_finished_lookup_is_cached(
    stats: QueryStats,
    query: IterativeQuery,
    nodes: Seq<Node>,
)
    requires
        within_limit(stats.cache, MAX_CACHED_ITERATIVE_QUERIES as nat),
        query.closest.nodes@.len() > 0,
    ensures
        value_of(stats.finished(query, nodes).cache, query.target.bytes) == Some(
            cached_of(query, nodes),
        ),
{
    lemma_with_room(stats);
    law_put_is_found(
        stats.with_room().cache,
        MAX_CACHED_ITERATIVE_QUERIES as nat,
        query.target.bytes,
        cached_of(query, nodes),
    );
}

/// What a finished lookup found is what a later one of the same target is given, as long as one of
/// the nodes can still be put to.
pub proof fn law_finished_lookup_is_found_again(
    stats: QueryStats,
    query: IterativeQuery,
    nodes: Seq<Node>,
    now: u64,
    i: int,
)
    requires
        within_limit(stats.cache, MAX_CACHED_ITERATIVE_QUERIES as nat),
        query.closest.nodes@.len() > 0,
        0 <= i < nodes.len(),
        nodes[i].token_valid(now),
    ensures
        usable_nodes(
            value_of(stats.finished(query, nodes).cache, query.target.bytes),
            now,
        ) == Some(nodes),
{
    law_finished_lookup_is_cached(stats, query, nodes);
    assert(cached_of(query, nodes).nodes[i].token_valid(now));
}

/// A finished lookup leaves the cached lookup of another target as it is, unless the cache was full
/// and that one was used least recently.
pub proof fn law_finishing_keeps_other_lookups(
    stats: QueryStats,
    query: IterativeQuery,
    nodes: Seq<Node>,
    other: Id,
)
    requires
        within_limit(stats.cache, MAX_CACHED_ITERATIVE_QUERIES as nat),
        other != query.target,
        stats.cache.len() < MAX_CACHED_ITERATIVE_QUERIES || other.bytes != stats.cache.last().0,
    ensures
        value_of(stats.finished(query, nodes).cache, other.bytes) == value_of(
            stats.cache,
            other.bytes,
        ),
{
    lemma_with_room(stats);
    if stats.cache.len() >= MAX_CACHED_ITERATIVE_QUERIES {
        lemma_drop_last(stats.cache);
    }
    law_put_keeps_others(
        stats.with_room().cache,
        MAX_CACHED_ITERATIVE_QUERIES as nat,
        query.target.bytes,
        cached_of(query, nodes),
        other.bytes,
    );
}

/// An address that is to be pinged after lookups finished is taken to be the address of this node,
/// which counts as firewalled; if there is none, what is known of the address stays as it is.
pub proof fn law_new_address_is_pinged(lookups: Lookups, done: Seq<(Id, Vec<Node>)>)
    requires
        lookups.votes.to_ping is None,
    ensures
        match lookups.all_done(done).votes.to_ping {
            Some(address) => lookups.all_done(done).votes.public_address == Some(address)
                && lookups.all_done(done).votes.firewalled,
            None => lookups.all_done(done).votes == lookups.votes,
        },
    decreases done.len(),
{
    if done.len() > 0 {
        law_new_address_is_pinged(lookups, done.drop_last());
    }
}

/// A lookup among the finished ones that was in progress and voted for another address than the
/// known one has an address pinged.
pub proof fn law_vote_for_new_address_is_not_lost(
    lookups: Lookups,
    done: Seq<(Id, Vec<Node>)>,
    id: Id,
)
    requires
        lookups.votes.to_ping is None,
        lookups.queries.contains_key(id),
        among(done, id),
        lookups.queries[id].best_address is Some,
        lookups.queries[id].best_address != lookups.votes.public_address,
    ensures
        lookups.all_done(done).votes.to_ping is Some,
    decreases done.len(),
{
    let earlier = done.drop_last();
    lemma_among(done, id);
    law_new_address_is_pinged(lookups, earlier);
    law_finished_lookups_are_removed(lookups, earlier, id);
    if among(earlier, id) {
        law_vote_for_new_address_is_not_lost(lookups, earlier, id);
    }
}

/// A put that is refused leaves the one in progress as it is; one that is let go on is either the
/// same, or knows of the one in progress and takes its place.
pub proof fn law_put_in_progress_is_not_lost(
    request: PutRequestSpecific,
    inflight: Option<PutMutableRequestArguments>,
)
    ensures
        concurrency_outcome(request, inflight) is Err ==> !overrides(request, inflight),
        concurrency_outcome(request, inflight) is Ok && request is PutMutable && inflight is Some
            ==> request->PutMutable_0.sig == inflight->0.sig || overrides(request, inflight),
        overrides(request, inflight) ==> request->PutMutable_0.cas == Some(
            inflight->0.seq,
        ) && request->PutMutable_0.seq >= inflight->0.seq,
{
}

/// After its nodes were pinged or it was refreshed at `now`, the routing table is due again exactly
/// once more than the interval has passed.
pub proof fn law_table_is_due_after_its_interval<S>(core: Core<S>, now: u64, later: u64)
    ensures
        ({
            let pinged = Core { last_table_ping: now, ..core };
            elapsed(later, pinged.last_table_ping) > PING_TABLE_INTERVAL <==> later > now
                + PING_TABLE_INTERVAL
        }),
        ({
            let refreshed = Core { last_table_refresh: now, ..core };
            elapsed(later, refreshed.last_table_refresh) > REFRESH_TABLE_INTERVAL <==> later > now
                + REFRESH_TABLE_INTERVAL
        }),
{
}

/// Asking for the cached lookup of a target changes the cached lookup of none.
pub proof fn law_reading_keeps_cached_lookups(
    cache: Seq<([u8; 20], CachedQuery)>,
    target: Id,
    other: Id,
)
    requires
        within_limit(cache, MAX_CACHED_ITERATIVE_QUERIES as nat),
    ensures
        value_of(used(cache, target.bytes), other.bytes) == value_of(cache, other.bytes),
        within_limit(used(cache, target.bytes), MAX_CACHED_ITERATIVE_QUERIES as nat),
{
    lemma_used(cache, target.bytes);
}

/// How many more lookups were added to the sums than taken back.
pub open spec fn net(updates: Seq<StatsUpdate>) -> int
    decreases updates.len(),
{
    if updates.len() == 0 {
        0
    } else {
        net(updates.drop_last()) + (if updates.last() is IncrementResponders {
            1int
        } else {
            -1int
        })
    }
}

/// One for a lookup that starts from the table of nodes that know signed peers if `signed`, and
/// one for any other lookup if not.
pub open spec fn counts(query: CachedQuery, signed: bool) -> int {
    if (query.request.kind() == RequestKind::GetSignedPeers) == signed {
        1
    } else {
        0
    }
}

/// How many cached lookups start from the table of nodes that know signed peers, or from the other
/// one.
pub open spec fn cached_count(cache: Seq<([u8; 20], CachedQuery)>, signed: bool) -> int
    decreases cache.len(),
{
    if cache.len() == 0 {
        0
    } else {
        cached_count(cache.drop_last(), signed) + counts(cache.last().1, signed)
    }
}

proof fn lemma_count_in_front(
    entry: ([u8; 20], CachedQuery),
    cache: Seq<([u8; 20], CachedQuery)>,
    signed: bool,
)
    ensures
        cached_count(seq![entry] + cache, signed) == counts(entry.1, signed) + cached_count(
            cache,
            signed,
        ),
    decreases cache.len(),
{
    let all = seq![entry] + cache;
    if cache.len() > 0 {
        lemma_count_in_front(entry, cache.drop_last(), signed);
        assert(all.drop_last() =~= seq![entry] + cache.drop_last());
        assert(all.last() == cache.last());
    } else {
        assert(all.drop_last() =~= cache);
        assert(all.last() == entry);
    }
}

proof fn lemma_count_remove(cache: Seq<([u8; 20], CachedQuery)>, i: int, signed: bool)
    requires
        0 <= i < cache.len(),
    ensures
        cached_count(cache.remove(i), signed) == cached_count(cache, signed) - counts(
            cache[i].1,
            signed,
        ),
    decreases cache.len(),
{
    if i == cache.len() - 1 {
        assert(cache.remove(i) =~= cache.drop_last());
    } else {
        lemma_count_remove(cache.drop_last(), i, signed);
        assert(cache.remove(i).drop_last() =~= cache.drop_last().remove(i));
        assert(cache.remove(i).last() == cache.last());
    }
}

proof fn lemma_net_push(updates: Seq<StatsUpdate>, update: StatsUpdate)
    ensures
        net(updates.push(update)) == net(updates) + (if update is IncrementResponders {
            1int
        } else {
            -1int
        }),
{
    assert(updates.push(update).drop_last() =~= updates);
}

/// One finished lookup changes the sums of each routing table as it changes the cache.
proof fn lemma_sums_follow_the_cache(stats: QueryStats, query: IterativeQuery, nodes: Seq<Node>)
    requires
        within_limit(stats.cache, MAX_CACHED_ITERATIVE_QUERIES as nat),
    ensures
        net(stats.finished(query, nodes).basic) - net(stats.basic) == cached_count(
            stats.finished(query, nodes).cache,
            false,
        ) - cached_count(stats.cache, false),
        net(stats.finished(query, nodes).signed) - net(stats.signed) == cached_count(
            stats.finished(query, nodes).cache,
            true,
        ) - cached_count(stats.cache, true),
{
    lemma_with_room(stats);
    let roomy = stats.with_room();
    if stats.cache.len() >= MAX_CACHED_ITERATIVE_QUERIES {
        let last = stats.cache.last().1;
        lemma_net_push(stats.basic, taken_back(last));
        lemma_net_push(stats.signed, taken_back(last));
    }
    if query.closest.nodes@.len() > 0 {
        let key = query.target.bytes;
        let cached = cached_of(query, nodes);
        let rest = without(roomy.cache, key);
        assert(put(roomy.cache, MAX_CACHED_ITERATIVE_QUERIES as nat, key, cached) =~= seq![
            (key, cached),
        ] + rest);
        lemma_count_in_front((key, cached), rest, true);
        lemma_count_in_front((key, cached), rest, false);
        let replaced = value_of(roomy.cache, key);
        if replaced is Some {
            let p = place_of(roomy.cache, key);
            lemma_count_remove(roomy.cache, p, true);
            lemma_count_remove(roomy.cache, p, false);
            lemma_net_push(roomy.basic, taken_back(replaced.unwrap()));
            lemma_net_push(roomy.signed, taken_back(replaced.unwrap()));
        }
        let dropped = roomy.dropped(replaced);
        let update = StatsUpdate::IncrementResponders {
            dht_size_estimate: cached.dht_size_estimate,
            responders_dht_size_estimate: cached.responders_dht_size_estimate,
            subnets: cached.subnets,
        };
        lemma_net_push(dropped.basic, update);
        lemma_net_push(dropped.signed, update);
    }
}

/// The sums of each routing table follow the cache: however many lookups finish, the number of
/// lookups that the sums hold changes as the number of cached lookups that start from the table
/// does.
pub proof fn law_sums_follow_the_cache(lookups: Lookups, done: Seq<(Id, Vec<Node>)>)
    requires
        within_limit(lookups.stats.cache, MAX_CACHED_ITERATIVE_QUERIES as nat),
    ensures
        net(lookups.all_done(done).stats.basic) - net(lookups.stats.basic) == cached_count(
            lookups.all_done(done).stats.cache,
            false,
        ) - cached_count(lookups.stats.cache, false),
        net(lookups.all_done(done).stats.signed) - net(lookups.stats.signed) == cached_count(
            lookups.all_done(done).stats.cache,
            true,
        ) - cached_count(lookups.stats.cache, true),
    decreases done.len(),
{
    if done.len() > 0 {
        let before = lookups.all_done(done.drop_last());
        let id = done.last().0;
        law_sums_follow_the_cache(lookups, done.drop_last());
        law_cache_keeps_its_limit(lookups, done.drop_last());
        if before.queries.contains_key(id) {
            lemma_sums_follow_the_cache(before.stats, before.queries[id], done.last().1@);
        }
    }
}

/// The change that takes back what a cached lookup added to the sums: of a lookup of nodes only the
/// estimate from all its nodes, of any other lookup all that it added.
pub proof fn law_taken_back_is_what_was_added(query: CachedQuery)
    ensures
        query.request is FindNode ==> taken_back(query) == (StatsUpdate::DecrementDhtSize {
            dht_size_estimate: query.dht_size_estimate,
        }),
        !(query.request is FindNode) ==> taken_back(query) == (StatsUpdate::DecrementResponders {
            dht_size_estimate: query.dht_size_estimate,
            responders_dht_size_estimate: query.responders_dht_size_estimate,
            subnets: query.subnets,
        }),
{
}

/// A finished lookup of a target that is not cached comes first in the cache, before all others in
/// their order, and its results are added to the sums of the table that it started from; the sums
/// of the other table stay. A lookup that found no nodes changes nothing.
pub proof fn law_new_lookup_is_added(stats: QueryStats, query: IterativeQuery, nodes: Seq<Node>)
    requires
        stats.cache.len() < 1000,
        forall|i: int|
            0 <= i < stats.cache.len() ==> (#[trigger] stats.cache[i]).0 != query.target.bytes,
    ensures
        query.closest.nodes@.len() == 0 ==> stats.finished(query, nodes) == stats,
        query.closest.nodes@.len() > 0 ==> {
            let after = stats.finished(query, nodes);
            let added = StatsUpdate::IncrementResponders {
                dht_size_estimate: query.closest.dht_size_estimate,
                responders_dht_size_estimate: query.responders.dht_size_estimate,
                subnets: query.responders.subnets_count,
            };
            &&& after.cache == seq![
                (
                    query.target.bytes,
                    CachedQuery {
                        nodes,
                        dht_size_estimate: query.closest.dht_size_estimate,
                        responders_dht_size_estimate: query.responders.dht_size_estimate,
                        subnets: query.responders.subnets_count,
                        request: query.request.request_type@,
                    },
                ),
            ] + stats.cache
            &&& query.request.request_type is GetSignedPeers ==> after.signed == stats.signed.push(
                added,
            ) && after.basic == stats.basic
            &&& !(query.request.request_type is GetSignedPeers) ==> after.basic == stats.basic.push(
                added,
            ) && after.signed == stats.signed
        },
{
}

/// A finished lookup of a target that is cached takes the place of the earlier one: it comes first,
/// the others follow in their order, and what the earlier one added to the sums of its table is
/// taken back before the new results are added.
pub proof fn law_repeated_lookup_replaces_the_earlier_one(
    stats: QueryStats,
    query: IterativeQuery,
    nodes: Seq<Node>,
    i: int,
)
    requires
        stats.cache.len() < 1000,
        keys_distinct(stats.cache),
        0 <= i < stats.cache.len(),
        stats.cache[i].0 == query.target.bytes,
        query.closest.nodes@.len() > 0,
    ensures
        ({
            let after = stats.finished(query, nodes);
            let earlier = stats.cache[i].1;
            let added = StatsUpdate::IncrementResponders {
                dht_size_estimate: query.closest.dht_size_estimate,
                responders_dht_size_estimate: query.responders.dht_size_estimate,
                subnets: query.responders.subnets_count,
            };
            let taken = if earlier.request is FindNode {
                StatsUpdate::DecrementDhtSize { dht_size_estimate: earlier.dht_size_estimate }
            } else {
                StatsUpdate::DecrementResponders {
                    dht_size_estimate: earlier.dht_size_estimate,
                    responders_dht_size_estimate: earlier.responders_dht_size_estimate,
                    subnets: earlier.subnets,
                }
            };
            let (basic, signed) = if earlier.request is GetSignedPeers {
                (stats.basic, stats.signed.push(taken))
            } else {
                (stats.basic.push(taken), stats.signed)
            };
            &&& after.cache[0].0 == query.target.bytes
            &&& after.cache[0].1.nodes == nodes
            &&& after.cache[0].1.request == query.request.request_type@
            &&& after.cache[0].1.dht_size_estimate == query.closest.dht_size_estimate
            &&& after.cache[0].1.responders_dht_size_estimate == query.responders.dht_size_estimate
            &&& after.cache[0].1.subnets == query.responders.subnets_count
            &&& after.cache.skip(1) == stats.cache.remove(i)
            &&& query.request.request_type is GetSignedPeers ==> after.signed == signed.push(added)
                && after.basic == basic
            &&& !(query.request.request_type is GetSignedPeers) ==> after.basic == basic.push(added)
                && after.signed == signed
        }),
{
    lemma_place_of(stats.cache, i);
    assert(stats.finished(query, nodes).cache.skip(1) =~= stats.cache.remove(i));
}

/// A full cache first gives its least recently used lookup up: what that one added to the sums of
/// its table is taken back, and the finished lookup is then added to what is left.
pub proof fn law_full_cache_gives_up_the_last(
    stats: QueryStats,
    query: IterativeQuery,
    nodes: Seq<Node>,
)
    requires
        stats.cache.len() == 1000,
    ensures
        ({
            let last = stats.cache.last().1;
            let taken = if last.request is FindNode {
                StatsUpdate::DecrementDhtSize { dht_size_estimate: last.dht_size_estimate }
            } else {
                StatsUpdate::DecrementResponders {
                    dht_size_estimate: last.dht_size_estimate,
                    responders_dht_size_estimate: last.responders_dht_size_estimate,
                    subnets: last.subnets,
                }
            };
            stats.finished(query, nodes) == (QueryStats {
                cache: stats.cache.take(999),
                basic: if last.request is GetSignedPeers {
                    stats.basic
                } else {
                    stats.basic.push(taken)
                },
                signed: if last.request is GetSignedPeers {
                    stats.signed.push(taken)
                } else {
                    stats.signed
                },
            }).finished(query, nodes)
        }),
{
    assert(stats.cache.drop_last() =~= stats.cache.take(999));
}

/// The statistics of a node are its cached lookups and the recorded changes to the sums of its two
/// tables, each under its own name.
pub proof fn law_stats_are_those_of_the_node<S>(core: Core<S>, i: int)
    ensures
        core.stats().basic == core.routing_table.stats_updates@,
        core.stats().signed == core.signed_peers_routing_table.stats_updates@,
        core.stats().cache.len() == query_entries(core.cached_iterative_queries).len(),
        0 <= i < core.stats().cache.len() ==> {
            let (key, cached) = query_entries(core.cached_iterative_queries)[i];
            &&& core.stats().cache[i].0 == key
            &&& core.stats().cache[i].1.nodes == cached.closest_responding_nodes@
            &&& core.stats().cache[i].1.dht_size_estimate == cached.dht_size_estimate
            &&& core.stats().cache[i].1.responders_dht_size_estimate
                == cached.responders_dht_size_estimate
            &&& core.stats().cache[i].1.subnets == cached.subnets
            &&& core.stats().cache[i].1.request == cached.request_type@
        },
{
}

/// Finished lookups are handled one after the other: one that is in progress is removed and leaves
/// its results and its vote, one that is not changes nothing.
pub proof fn law_lookups_finish_one_after_the_other(
    lookups: Lookups,
    done: Seq<(Id, Vec<Node>)>,
    id: Id,
    nodes: Vec<Node>,
)
    ensures
        lookups.all_done(Seq::empty()) == lookups,
        ({
            let before = lookups.all_done(done);
            let after = lookups.all_done(done.push((id, nodes)));
            &&& !before.queries.contains_key(id) ==> after == before
            &&& before.queries.contains_key(id) ==> {
                &&& after.stats == before.stats.finished(before.queries[id], nodes@)
                &&& after.queries == before.queries.remove(id)
                &&& before.queries[id].best_address is None ==> after.votes == before.votes
                &&& before.queries[id].best_address is Some ==> after.votes.public_address
                    == before.queries[id].best_address
            }
        }),
{
    assert(done.push((id, nodes)).drop_last() =~= done);
}

/// The place of the first of the finished ones with the same target as the one at `i`.
pub proof fn lemma_first_of_target(done: Seq<(Id, Vec<Node>)>, i: int) -> (first: int)
    requires
        0 <= i < done.len(),
    ensures
        0 <= first <= i,
        done[first].0 == done[i].0,
        forall|j: int| 0 <= j < first ==> (#[trigger] done[j]).0 != done[i].0,
    decreases i,
{
    if exists|j: int| 0 <= j < i && (#[trigger] done[j]).0 == done[i].0 {
        let j = choose|j: int| 0 <= j < i && (#[trigger] done[j]).0 == done[i].0;
        lemma_first_of_target(done, j)
    } else {
        i
    }
}

/// The lookup at `i` is the first one of its target among the finished ones, was in progress, and
/// voted for an address.
pub open spec fn votes_at(lookups: Lookups, done: Seq<(Id, Vec<Node>)>, i: int) -> bool {
    &&& 0 <= i < done.len()
    &&& lookups.queries.contains_key(done[i].0)
    &&& lookups.queries[done[i].0].best_address is Some
    &&& forall|j: int| 0 <= j < i ==> (#[trigger] done[j]).0 != done[i].0
}

proof fn lemma_votes_at(lookups: Lookups, done: Seq<(Id, Vec<Node>)>, i: int)
    requires
        0 <= i < done.len() - 1,
    ensures
        votes_at(lookups, done, i) == votes_at(lookups, done.drop_last(), i),
        done.drop_last()[i] == done[i],
{
    let front = done.drop_last();
    assert(front[i] == done[i]);
    if votes_at(lookups, done, i) {
        assert forall|j: int| 0 <= j < i implies (#[trigger] front[j]).0 != front[i].0 by {
            assert(front[j] == done[j]);
        }
    }
    if votes_at(lookups, front, i) {
        assert forall|j: int| 0 <= j < i implies (#[trigger] done[j]).0 != done[i].0 by {
            assert(front[j] == done[j]);
        }
    }
}

/// After finished lookups are handled, the public address is the vote of the last of them that was
/// in progress and voted, whatever was known before; where none voted, everything known of the
/// address stays. An address to ping is the vote of one of them, and there is none exactly if each
/// of them voted for the address that was known already.
pub proof fn law_last_vote_is_the_public_address(lookups: Lookups, done: Seq<(Id, Vec<Node>)>)
    requires
        lookups.votes.to_ping is None,
    ensures
        ({
            let after = lookups.all_done(done).votes;
            &&& (forall|i: int| 0 <= i < done.len() ==> !#[trigger] votes_at(lookups, done, i))
                ==> after == lookups.votes
            &&& forall|i: int| #[trigger]
                votes_at(lookups, done, i) && (forall|j: int|
                    i < j < done.len() ==> !#[trigger] votes_at(lookups, done, j))
                    ==> after.public_address == lookups.queries[done[i].0].best_address
            &&& after.to_ping is Some ==> exists|i: int| #[trigger]
                votes_at(lookups, done, i) && lookups.queries[done[i].0].best_address
                    == after.to_ping
            &&& after.to_ping is None <==> forall|i: int| #[trigger]
                votes_at(lookups, done, i) ==> lookups.queries[done[i].0].best_address
                    == lookups.votes.public_address
            &&& after.to_ping is Some ==> after.firewalled && after.public_address == after.to_ping
            &&& after.to_ping is None ==> after == lookups.votes
        }),
    decreases done.len(),
{
    if done.len() > 0 {
        let front = done.drop_last();
        let last = done.len() - 1;
        let id = done.last().0;
        law_last_vote_is_the_public_address(lookups, front);
        law_finished_lookups_are_removed(lookups, front, id);
        assert(done[last] == done.last());
        let before = lookups.all_done(front);
        let after = lookups.all_done(done);
        assert forall|i: int| 0 <= i < last implies votes_at(lookups, done, i) == #[trigger] votes_at(
            lookups,
            front,
            i,
        ) && front[i] == done[i] by {
            lemma_votes_at(lookups, done, i);
        }
        assert forall|i: int| 0 <= i < last implies #[trigger] votes_at(lookups, done, i) == votes_at(
            lookups,
            front,
            i,
        ) && front[i] == done[i] by {
            lemma_votes_at(lookups, done, i);
        }
        // The last one counts exactly if it is still in progress and voted.
        assert(votes_at(lookups, done, last) == (before.queries.contains_key(id)
            && before.queries[id].best_address is Some)) by {
            if among(front, id) {
                let j = choose|j: int| 0 <= j < front.len() && (#[trigger] front[j]).0 == id;
                assert(done[j] == front[j]);
            } else {
                assert forall|j: int| 0 <= j < last implies (#[trigger] done[j]).0 != id by {
                    assert(front[j] == done[j]);
                }
            }
        }
        if after.votes.to_ping is Some && !votes_at(lookups, done, last) {
            let i = choose|i: int| #[trigger]
                votes_at(lookups, front, i) && lookups.queries[front[i].0].best_address
                    == before.votes.to_ping;
            assert(votes_at(lookups, done, i));
        }
        if after.votes.to_ping is Some && votes_at(lookups, done, last) && before.votes.to_ping
            == after.votes.to_ping && before.votes.to_ping is Some {
            let i = choose|i: int| #[trigger]
                votes_at(lookups, front, i) && lookups.queries[front[i].0].best_address
                    == before.votes.to_ping;
            assert(votes_at(lookups, done, i));
        }
        if before.votes.to_ping is Some {
            let i = choose|i: int| #[trigger]
                votes_at(lookups, front, i) && lookups.queries[front[i].0].best_address
                    != lookups.votes.public_address;
            assert(votes_at(lookups, done, i));
        }
    }
}

/// What is usable of a cached lookup are all its nodes, exactly if one of them handed out a token
/// that is still valid.
pub proof fn law_cached_nodes_are_usable_while_a_token_is_valid(cached: CachedQuery, now: u64)
    ensures
        usable_nodes(None, now) is None,
        (exists|i: int|
            0 <= i < cached.nodes.len() && ((#[trigger] cached.nodes[i]).token_valid_until matches Some(
                until,
            ) && now <= until)) ==> usable_nodes(Some(cached), now) == Some(cached.nodes),
        (forall|i: int|
            0 <= i < cached.nodes.len() ==> ((
            #[trigger] cached.nodes[i]).token_valid_until matches Some(until) ==> now > until))
            ==> usable_nodes(Some(cached), now) is None,
{
    if exists|i: int|
        0 <= i < cached.nodes.len() && ((#[trigger] cached.nodes[i]).token_valid_until matches Some(
            until,
        ) && now <= until) {
        let i = choose|i: int|
            0 <= i < cached.nodes.len() && ((
            #[trigger] cached.nodes[i]).token_valid_until matches Some(until) && now <= until);
        assert(cached.nodes[i].token_valid(now));
    }
}

/// The closest candidates are visited first and what the caller adds last; the bootstrapping nodes
/// are visited in between exactly if no nodes or fewer than them are known.
pub proof fn law_bootstrapping_nodes_help_out(
    candidates: Seq<SocketAddrV4>,
    closest_len: nat,
    bootstrap: Seq<SocketAddrV4>,
    extra_nodes: Seq<SocketAddrV4>,
)
    ensures
        closest_len > 0 && closest_len >= bootstrap.len() ==> first_visits(
            candidates,
            closest_len,
            bootstrap,
            extra_nodes,
        ) == candidates + extra_nodes,
        closest_len == 0 || closest_len < bootstrap.len() ==> first_visits(
            candidates,
            closest_len,
            bootstrap,
            extra_nodes,
        ) == candidates + bootstrap + extra_nodes,
{
}

/// A put may go on exactly if nothing of the same mutable item is in progress, the same signature
/// is, or it is not older and expects exactly the one in progress; and only in the last of these
/// does it take its place.
pub proof fn law_put_goes_on_if_it_knows_of_the_one_in_progress(
    arguments: PutMutableRequestArguments,
    inflight: PutMutableRequestArguments,
)
    ensures
        ({
            let request = PutRequestSpecific::PutMutable(arguments);
            let outcome = concurrency_outcome(request, Some(inflight));
            let expects_it = arguments.cas == Some(inflight.seq);
            &&& concurrency_outcome(request, None) is Ok
            &&& outcome is Ok <==> arguments.sig == inflight.sig || (arguments.seq >= inflight.seq
                && expects_it)
            &&& overrides(request, Some(inflight)) <==> outcome is Ok && arguments.sig
                != inflight.sig
            &&& outcome is Err ==> match outcome->Err_0 {
                ConcurrencyError::NotMostRecent => arguments.seq < inflight.seq,
                ConcurrencyError::CasFailed => arguments.seq >= inflight.seq && arguments.cas
                    is Some && !expects_it,
                ConcurrencyError::ConflictRisk => arguments.seq >= inflight.seq && arguments.cas
                    is None,
            }
        }),
{
}

/// A lookup of nodes starts from what is close in both tables, one of signed peers from what is
/// close in the table of nodes that know them, and any other one from what is close in the other
/// table; each table is asked for its own target.
pub proof fn law_lookups_start_from_their_tables<S, C: Fn(&RoutingTable, Id) -> Vec<Node>>(
    core: Core<S>,
    request: GetRequestSpecific,
    closest_secure: C,
    nodes: Seq<Node>,
)
    requires
        core.closest_in_tables(request, closest_secure, nodes),
    ensures
        match request {
            GetRequestSpecific::FindNode(arguments) => exists|basic: Vec<Node>, signed: Vec<Node>|
                {
                    &&& #[trigger] call_ensures(
                        closest_secure,
                        (&core.routing_table, arguments.target),
                        basic,
                    )
                    &&& #[trigger] call_ensures(
                        closest_secure,
                        (&core.signed_peers_routing_table, arguments.target),
                        signed,
                    )
                    &&& nodes == basic@ + signed@
                },
            GetRequestSpecific::GetSignedPeers(arguments) => exists|signed: Vec<Node>|
                #[trigger] call_ensures(
                    closest_secure,
                    (&core.signed_peers_routing_table, arguments.info_hash),
                    signed,
                ) && nodes == signed@,
            GetRequestSpecific::GetPeers(arguments) => exists|basic: Vec<Node>|
                #[trigger] call_ensures(
                    closest_secure,
                    (&core.routing_table, arguments.info_hash),
                    basic,
                ) && nodes == basic@,
            GetRequestSpecific::GetValue(arguments) => exists|basic: Vec<Node>|
                #[trigger] call_ensures(
                    closest_secure,
                    (&core.routing_table, arguments.target),
                    basic,
                ) && nodes == basic@,
        },
{
}

/// The routing table is pinged every five minutes and refreshed every fifteen, and a thousand
/// lookups are cached.
pub proof fn law_tables_are_pinged_three_times_as_often_as_refreshed()
    ensures
        PING_TABLE_INTERVAL == 5 * 60 * 1_000_000_000,
        REFRESH_TABLE_INTERVAL == 3 * PING_TABLE_INTERVAL,
        MAX_CACHED_ITERATIVE_QUERIES == 1000,
{
}

} // verus!
