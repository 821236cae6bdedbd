//! Nodes, and the tables of nodes that queries start from.
//!
//! Times are nanoseconds since some fixed moment.

use vstd::prelude::*;

use crate::address::SocketAddrV4;
use crate::id::Id;
use crate::messages::{RequestKind, RequestTypeSpecific};
use crate::sequences::{
    lemma_filter_all, lemma_filter_push, lemma_filter_same, lemma_filter_twice,
};

verus! {

/// The most nodes that a bucket of a routing table, or the answer to a lookup of nodes, holds.
pub const MAX_BUCKET_SIZE_K: usize = 20;

/// A node that is known of.
#[derive(Clone, Copy, Debug, PartialEq, Eq)]
pub struct Node {
    pub id: Id,
    pub address: SocketAddrV4,
    /// The last moment at which the token that the node handed out is valid, if it handed out one.
    pub token_valid_until: Option<u64>,
    /// The last moment at which the node does not count as stale.
    pub fresh_until: u64,
    /// The last moment at which the node does not have to be pinged again.
    pub quiet_until: u64,
}

impl Node {
    /// The node handed out a token that is valid at `now`.
    pub open spec fn token_valid(self, now: u64) -> bool {
        match self.token_valid_until {
            Some(until) => now <= until,
            None => false,
        }
    }

    /// The node counts as stale at `now`.
    pub open spec fn stale(self, now: u64) -> bool {
        now > self.fresh_until
    }

    /// The node has to be pinged again at `now`.
    pub open spec fn ping_due(self, now: u64) -> bool {
        now > self.quiet_until
    }

    /// Whether the node handed out a token that is valid at `now`.
    pub fn valid_token(&self, now: u64) -> (valid: bool)
        ensures
            valid == self.token_valid(now),
            valid == (self.token_valid_until matches Some(until) && now <= until),
    {
        match self.token_valid_until {
            Some(until) => now <= until,
            None => false,
        }
    }

    /// Whether the node counts as stale at `now`.
    pub fn is_stale(&self, now: u64) -> (stale: bool)
        ensures
            stale == self.stale(now),
            stale == (now > self.fresh_until),
    {
        now > self.fresh_until
    }

    /// Whether the node has to be pinged again at `now`.
    pub fn should_ping(&self, now: u64) -> (due: bool)
        ensures
            due == self.ping_due(now),
            due == (now > self.quiet_until),
    {
        now > self.quiet_until
    }
}

/// An estimate of the size of the network, a floating-point number given by its bits.
#[derive(Clone, Copy, Debug, PartialEq, Eq, Structural)]
pub struct Estimate {
    pub bits: u64,
}

/// A change to the sums from which a routing table's estimates are made.
#[derive(Clone, Copy, Debug, PartialEq, Eq, Structural)]
pub enum StatsUpdate {
    /// The results of a query are added.
    IncrementResponders {
        dht_size_estimate: Estimate,
        responders_dht_size_estimate: Estimate,
        subnets: u8,
    },
    /// The results of a query are taken back.
    DecrementResponders {
        dht_size_estimate: Estimate,
        responders_dht_size_estimate: Estimate,
        subnets: u8,
    },
    /// Of the results of a query, only the estimate from all its nodes is taken back.
    DecrementDhtSize { dht_size_estimate: Estimate },
}

/// The nodes closest to this node, and what the queries that started from them found out about the
/// size of the network.
#[derive(Debug)]
pub struct RoutingTable {
    pub id: Id,
    pub nodes: Vec<Node>,
    /// The changes to the sums that are not accounted for in the two estimates yet.
    pub stats_updates: Vec<StatsUpdate>,
    /// The estimated size of the network, made from responding nodes.
    pub responders_based_dht_size_estimate: usize,
    /// The average number of subnets that the responding nodes of a query are in.
    pub average_subnets: usize,
}

/// The addresses of the nodes that have to be pinged at `now`, in the order of the nodes.
pub open spec fn addresses_to_ping(nodes: Seq<Node>, now: u64) -> Seq<SocketAddrV4> {
    nodes.filter(|node: Node| !node.stale(now) && node.ping_due(now)).map_values(
        |node: Node| node.address,
    )
}

/// A node with this id is stale at `now`.
pub open spec fn stale_id(nodes: Seq<Node>, id: Id, now: u64) -> bool {
    exists|i: int| 0 <= i < nodes.len() && (#[trigger] nodes[i]).id == id && nodes[i].stale(now)
}

/// The nodes whose ids are not those of stale nodes.
pub open spec fn without_stale(nodes: Seq<Node>, now: u64) -> Seq<Node> {
    nodes.filter(|node: Node| !stale_id(nodes, node.id, now))
}

/// No two nodes have the same id.
pub open spec fn ids_distinct(nodes: Seq<Node>) -> bool {
    forall|i: int, j: int|
        #![trigger nodes[i], nodes[j]]
        0 <= i < j < nodes.len() ==> nodes[i].id != nodes[j].id
}

impl RoutingTable {
    /// The table of the node `id`, which knows of no nodes yet.
    pub fn new(id: Id) -> (table: Self)
        ensures
            table.id == id,
            table.nodes@ == Seq::<Node>::empty(),
            table.stats_updates@ == Seq::<StatsUpdate>::empty(),
            table.responders_based_dht_size_estimate == 0,
            table.average_subnets == 0,
    {
        RoutingTable {
            id,
            nodes: Vec::new(),
            stats_updates: Vec::new(),
            responders_based_dht_size_estimate: 0,
            average_subnets: 0,
        }
    }

    /// Everything but the nodes is as in `before`.
    pub open spec fn same_but_nodes(self, before: Self) -> bool {
        &&& self.id == before.id
        &&& self.stats_updates == before.stats_updates
        &&& self.responders_based_dht_size_estimate == before.responders_based_dht_size_estimate
        &&& self.average_subnets == before.average_subnets
    }

    /// Everything but the changes to the sums is as in `before`.
    pub open spec fn same_but_updates(self, before: Self) -> bool {
        &&& self.id == before.id
        &&& self.nodes == before.nodes
        &&& self.responders_based_dht_size_estimate == before.responders_based_dht_size_estimate
        &&& self.average_subnets == before.average_subnets
    }

    /// The number of nodes.
    pub fn size(&self) -> (size: usize)
        ensures
            size == self.nodes@.len(),
    {
        self.nodes.len()
    }

    /// Forgets the node with this id.
    pub fn remove(&mut self, id: &Id)
        ensures
            final(self).nodes@ == old(self).nodes@.filter(|node: Node| node.id != *id),
            final(self).same_but_nodes(*old(self)),
            final(self).id == old(self).id,
            final(self).stats_updates == old(self).stats_updates,
            final(self).responders_based_dht_size_estimate
                == old(self).responders_based_dht_size_estimate,
            final(self).average_subnets == old(self).average_subnets,
    {
        let ghost p = |node: Node| node.id != *id;
        let mut kept: Vec<Node> = Vec::new();
        let mut i: usize = 0;
        proof {
            reveal(Seq::filter);
        }
        while i < self.nodes.len()
            invariant
                i <= self.nodes@.len(),
                p == |node: Node| node.id != *id,
                kept@ == self.nodes@.take(i as int).filter(p),
            decreases self.nodes@.len() - i,
        {
            let node = self.nodes[i];
            proof {
                assert(self.nodes@.take(i + 1) =~= self.nodes@.take(i as int).push(node));
                lemma_filter_push(self.nodes@.take(i as int), node, p);
            }
            if node.id != *id {
                kept.push(node);
            }
            i = i + 1;
        }
        assert(self.nodes@.take(i as int) =~= self.nodes@);
        self.nodes = kept;
    }

    /// Adds the results of a query.
    pub fn increment_responders_stats(
        &mut self,
        dht_size_estimate: Estimate,
        responders_dht_size_estimate: Estimate,
        subnets: u8,
    )
        ensures
            final(self).stats_updates@ == old(self).stats_updates@.push(
                (StatsUpdate::IncrementResponders {
                    dht_size_estimate,
                    responders_dht_size_estimate,
                    subnets,
                }),
            ),
            final(self).same_but_updates(*old(self)),
            final(self).id == old(self).id,
            final(self).nodes == old(self).nodes,
            final(self).responders_based_dht_size_estimate
                == old(self).responders_based_dht_size_estimate,
            final(self).average_subnets == old(self).average_subnets,
    {
        self.stats_updates.push(
            StatsUpdate::IncrementResponders {
                dht_size_estimate,
                responders_dht_size_estimate,
                subnets,
            },
        );
    }

    /// Takes the results of a query back.
    pub fn decrement_responders_stats(
        &mut self,
        dht_size_estimate: Estimate,
        responders_dht_size_estimate: Estimate,
        subnets: u8,
    )
        ensures
            final(self).stats_updates@ == old(self).stats_updates@.push(
                (StatsUpdate::DecrementResponders {
                    dht_size_estimate,
                    responders_dht_size_estimate,
                    subnets,
                }),
            ),
            final(self).same_but_updates(*old(self)),
            final(self).id == old(self).id,
            final(self).nodes == old(self).nodes,
            final(self).responders_based_dht_size_estimate
                == old(self).responders_based_dht_size_estimate,
            final(self).average_subnets == old(self).average_subnets,
    {
        self.stats_updates.push(
            StatsUpdate::DecrementResponders {
                dht_size_estimate,
                responders_dht_size_estimate,
                subnets,
            },
        );
    }

    /// Takes the estimate from all nodes of a query back.
    pub fn decrement_dht_size_estimate(&mut self, dht_size_estimate: Estimate)
        ensures
            final(self).stats_updates@ == old(self).stats_updates@.push(
                (StatsUpdate::DecrementDhtSize { dht_size_estimate }),
            ),
            final(self).same_but_updates(*old(self)),
            final(self).id == old(self).id,
            final(self).nodes == old(self).nodes,
            final(self).responders_based_dht_size_estimate
                == old(self).responders_based_dht_size_estimate,
            final(self).average_subnets == old(self).average_subnets,
    {
        self.stats_updates.push(StatsUpdate::DecrementDhtSize { dht_size_estimate });
    }

    /// Hands out the changes to the sums since the last time, in their order.
    pub fn take_stats_updates(&mut self) -> (updates: Vec<StatsUpdate>)
        ensures
            updates@ == old(self).stats_updates@,
            final(self).stats_updates@ == Seq::<StatsUpdate>::empty(),
            final(self).same_but_updates(*old(self)),
            final(self).id == old(self).id,
            final(self).nodes == old(self).nodes,
            final(self).responders_based_dht_size_estimate
                == old(self).responders_based_dht_size_estimate,
            final(self).average_subnets == old(self).average_subnets,
    {
        let mut updates: Vec<StatsUpdate> = Vec::new();
        std::mem::swap(&mut updates, &mut self.stats_updates);
        updates
    }

    /// Forgets the stale nodes, and appends the addresses of the nodes to ping to `to_ping`.
    pub fn check_nodes(&mut self, now: u64, to_ping: &mut Vec<SocketAddrV4>)
        ensures
            final(self).nodes@ == without_stale(old(self).nodes@, now),
            final(self).same_but_nodes(*old(self)),
            final(to_ping)@ == old(to_ping)@ + addresses_to_ping(old(self).nodes@, now),
            final(self).id == old(self).id,
            final(self).stats_updates == old(self).stats_updates,
            final(self).responders_based_dht_size_estimate
                == old(self).responders_based_dht_size_estimate,
            final(self).average_subnets == old(self).average_subnets,
            // In the order of the nodes, those that are not stale and past their quiet time.
            final(to_ping)@ == old(to_ping)@ + old(self).nodes@.filter(
                |node: Node| now <= node.fresh_until && now > node.quiet_until,
            ).map_values(|node: Node| node.address),
            // In their order, the nodes that share no id with a stale one.
            final(self).nodes@ == old(self).nodes@.filter(
                |node: Node|
                    forall|i: int|
                        0 <= i < old(self).nodes@.len() && (#[trigger] old(self).nodes@[i]).id
                            == node.id ==> now <= old(self).nodes@[i].fresh_until,
            ),
    {
        let ghost nodes = self.nodes@;
        let ghost due = |node: Node| !node.stale(now) && node.ping_due(now);
        let ghost address = |node: Node| node.address;
        let ghost pinged_before = to_ping@;
        let mut to_remove: Vec<Id> = Vec::with_capacity(self.size());
        let mut i: usize = 0;
        proof {
            reveal(Seq::filter);
            assert(to_ping@ =~= pinged_before + nodes.take(0).filter(due).map_values(address));
        }
        while i < self.nodes.len()
            invariant
                i <= self.nodes@.len(),
                nodes == self.nodes@,
                *self == *old(self),
                due == |node: Node| !node.stale(now) && node.ping_due(now),
                address == |node: Node| node.address,
                to_ping@ == pinged_before + nodes.take(i as int).filter(due).map_values(address),
                forall|k: int|
                    0 <= k < to_remove@.len() ==> stale_id(nodes, #[trigger] to_remove@[k], now),
                forall|j: int|
                    0 <= j < i && (#[trigger] nodes[j]).stale(now) ==> to_remove@.contains(
                        nodes[j].id,
                    ),
            decreases self.nodes@.len() - i,
        {
            let node = self.nodes[i];
            proof {
                assert(nodes.take(i + 1) =~= nodes.take(i as int).push(node));
                lemma_filter_push(nodes.take(i as int), node, due);
            }
            let ghost removed_before = to_remove@;
            if node.is_stale(now) {
                to_remove.push(node.id);
                assert(nodes[i as int].stale(now));
                assert(to_remove@[removed_before.len() as int] == node.id);
                assert forall|j: int|
                    0 <= j < i + 1 && (#[trigger] nodes[j]).stale(now) implies to_remove@.contains(
                    nodes[j].id,
                ) by {
                    if j < i {
                        let k = choose|k: int|
                            0 <= k < removed_before.len() && removed_before[k] == nodes[j].id;
                        assert(to_remove@[k] == nodes[j].id);
                    }
                }
            } else if node.should_ping(now) {
                let ghost before = nodes.take(i as int).filter(due);
                to_ping.push(node.address);
                assert(before.push(node).map_values(address) =~= before.map_values(address).push(
                    node.address,
                ));
                assert(to_ping@ =~= pinged_before + before.push(node).map_values(address));
            }
            i = i + 1;
        }
        assert(nodes.take(i as int) =~= nodes);
        let mut k: usize = 0;
        assert(nodes =~= nodes.filter(|node: Node| !to_remove@.take(0).contains(node.id))) by {
            assert(to_remove@.take(0) =~= Seq::<Id>::empty());
            lemma_filter_all(nodes, |node: Node| !to_remove@.take(0).contains(node.id));
        }
        while k < to_remove.len()
            invariant
                k <= to_remove@.len(),
                self.nodes@ == nodes.filter(
                    |node: Node| !to_remove@.take(k as int).contains(node.id),
                ),
                self.same_but_nodes(*old(self)),
            decreases to_remove@.len() - k,
        {
            let id = to_remove[k];
            let ghost p = |node: Node| !to_remove@.take(k as int).contains(node.id);
            let ghost q = |node: Node| node.id != id;
            self.remove(&id);
            proof {
                lemma_filter_twice(nodes, p, q);
                let next = |node: Node| !to_remove@.take(k + 1).contains(node.id);
                assert(to_remove@.take(k + 1) =~= to_remove@.take(k as int).push(id));
                assert forall|i: int| 0 <= i < nodes.len() implies (|node: Node|
                    p(node) && q(node))(#[trigger] nodes[i]) == next(nodes[i]) by {
                    lemma_contains_push(to_remove@.take(k as int), id, nodes[i].id);
                }
                lemma_filter_same(nodes, |node: Node| p(node) && q(node), next);
            }
            k = k + 1;
        }
        proof {
            assert(to_remove@.take(k as int) =~= to_remove@);
            let p = |node: Node| !to_remove@.take(k as int).contains(node.id);
            let q = |node: Node| !stale_id(nodes, node.id, now);
            assert forall|i: int| 0 <= i < nodes.len() implies p(#[trigger] nodes[i]) == q(
                nodes[i],
            ) by {
                if stale_id(nodes, nodes[i].id, now) {
                    let j = choose|j: int|
                        0 <= j < nodes.len() && (#[trigger] nodes[j]).id == nodes[i].id
                            && nodes[j].stale(now);
                    assert(to_remove@.contains(nodes[j].id));
                }
            }
            lemma_filter_same(nodes, p, q);
            let fresh = |node: Node|
                forall|i: int|
                    0 <= i < nodes.len() && (#[trigger] nodes[i]).id == node.id ==> now
                        <= nodes[i].fresh_until;
            lemma_filter_same(nodes, q, fresh);
            let past_quiet = |node: Node| now <= node.fresh_until && now > node.quiet_until;
            lemma_filter_same(nodes, due, past_quiet);
        }
    }
}

proof fn lemma_contains_push(ids: Seq<Id>, id: Id, other: Id)
    ensures
        ids.push(id).contains(other) == (ids.contains(other) || other == id),
{
    assert(ids.push(id)[ids.len() as int] == id);
    if ids.contains(other) {
        let k = choose|k: int| 0 <= k < ids.len() && ids[k] == other;
        assert(ids.push(id)[k] == other);
    }
}

/// In a table without repeated ids, forgetting the stale nodes forgets exactly those.
pub proof fn law_exactly_stale_nodes_are_forgotten(nodes: Seq<Node>, now: u64)
    requires
        ids_distinct(nodes),
    ensures
        without_stale(nodes, now) == nodes.filter(|node: Node| !node.stale(now)),
        forall|i: int|
            0 <= i < without_stale(nodes, now).len() ==> !(#[trigger] without_stale(
                nodes,
                now,
            )[i]).stale(now),
{
    let p = |node: Node| !stale_id(nodes, node.id, now);
    let q = |node: Node| !node.stale(now);
    assert forall|i: int| 0 <= i < nodes.len() implies p(#[trigger] nodes[i]) == q(nodes[i]) by {
        if stale_id(nodes, nodes[i].id, now) {
            let j = choose|j: int|
                0 <= j < nodes.len() && (#[trigger] nodes[j]).id == nodes[i].id && nodes[j].stale(
                    now,
                );
            assert(nodes[i].id == nodes[j].id);
        }
    }
    lemma_filter_same(nodes, p, q);
    assert forall|i: int| 0 <= i < without_stale(nodes, now).len() implies !(
    #[trigger] without_stale(nodes, now)[i]).stale(now) by {
        nodes.lemma_filter_pred(q, i);
    }
}

/// Exactly the nodes that are not stale and past their quiet time are pinged: each of them has its
/// address among those to ping, and each address to ping is that of such a node. Whether a node
/// handed out a token, and anything else about it, does not matter.
pub proof fn law_exactly_due_nodes_are_pinged(nodes: Seq<Node>, now: u64, address: SocketAddrV4)
    ensures
        addresses_to_ping(nodes, now).contains(address) <==> exists|i: int|
            0 <= i < nodes.len() && (#[trigger] nodes[i]).address == address && now
                <= nodes[i].fresh_until && now > nodes[i].quiet_until,
    decreases nodes.len(),
{
    reveal(Seq::filter);
    let due = |node: Node| !node.stale(now) && node.ping_due(now);
    let of = |node: Node| node.address;
    if nodes.len() > 0 {
        let front = nodes.drop_last();
        let last = nodes.last();
        law_exactly_due_nodes_are_pinged(front, now, address);
        let before = addresses_to_ping(front, now);
        assert(nodes[nodes.len() - 1] == last);
        if due(last) {
            let kept = front.filter(due);
            assert(kept.push(last).map_values(of) =~= kept.map_values(of).push(last.address));
            assert(before.push(last.address)[before.len() as int] == last.address);
            if before.contains(address) {
                let k = choose|k: int| 0 <= k < before.len() && before[k] == address;
                assert(before.push(last.address)[k] == address);
            }
        }
        if exists|i: int|
            0 <= i < front.len() && (#[trigger] front[i]).address == address && now
                <= front[i].fresh_until && now > front[i].quiet_until {
            let i = choose|i: int|
                0 <= i < front.len() && (#[trigger] front[i]).address == address && now
                    <= front[i].fresh_until && now > front[i].quiet_until;
            assert(nodes[i] == front[i]);
        }
        if exists|i: int|
            0 <= i < nodes.len() - 1 && (#[trigger] nodes[i]).address == address && now
                <= nodes[i].fresh_until && now > nodes[i].quiet_until {
            let i = choose|i: int|
                0 <= i < nodes.len() - 1 && (#[trigger] nodes[i]).address == address && now
                    <= nodes[i].fresh_until && now > nodes[i].quiet_until;
            assert(front[i] == nodes[i]);
        }
    }
}

/// A node is kept exactly if no node with its id is past the moment up to which it is fresh; nodes
/// that are kept were there before.
pub proof fn law_fresh_nodes_are_kept(nodes: Seq<Node>, now: u64, node: Node)
    ensures
        without_stale(nodes, now).contains(node) <==> nodes.contains(node) && (forall|i: int|
            0 <= i < nodes.len() && (#[trigger] nodes[i]).id == node.id ==> now
                <= nodes[i].fresh_until),
{
    let p = |n: Node| !stale_id(nodes, n.id, now);
    if nodes.contains(node) && p(node) {
        let i = choose|i: int| 0 <= i < nodes.len() && nodes[i] == node;
        nodes.lemma_filter_contains(p, i);
    }
    if without_stale(nodes, now).contains(node) {
        let i = choose|i: int|
            0 <= i < without_stale(nodes, now).len() && without_stale(nodes, now)[i] == node;
        nodes.lemma_filter_pred(p, i);
        nodes.lemma_filter_contains_rev(p, node);
    }
}

/// The request is about signed peers, so that its query starts from the nodes that know them.
pub open spec fn uses_signed_peers_table(request_type: RequestTypeSpecific) -> bool {
    request_type.kind() == RequestKind::GetSignedPeers
}

/// The routing table that a query starts from.
pub fn choose_relevant_routing_table<'a>(
    request_type: &RequestTypeSpecific,
    basic_routing_table: &'a RoutingTable,
    signed_peers_routing_table: &'a RoutingTable,
) -> (table: &'a RoutingTable)
    ensures
        *table == if uses_signed_peers_table(*request_type) {
            *signed_peers_routing_table
        } else {
            *basic_routing_table
        },
        *table == if *request_type is GetSignedPeers {
            *signed_peers_routing_table
        } else {
            *basic_routing_table
        },
{
    match request_type {
        RequestTypeSpecific::GetSignedPeers(_) => signed_peers_routing_table,
        _ => basic_routing_table,
    }
}

/// The routing table that a query starts from, to be changed; the other one stays as it is.
pub fn choose_relevant_routing_table_mut<'a>(
    request_type: &RequestTypeSpecific,
    basic_routing_table: &'a mut RoutingTable,
    signed_peers_routing_table: &'a mut RoutingTable,
) -> (table: &'a mut RoutingTable)
    ensures
        if uses_signed_peers_table(*request_type) {
            &&& *table == *old(signed_peers_routing_table)
            &&& *final(signed_peers_routing_table) == *final(table)
            &&& *final(basic_routing_table) == *old(basic_routing_table)
        } else {
            &&& *table == *old(basic_routing_table)
            &&& *final(basic_routing_table) == *final(table)
            &&& *final(signed_peers_routing_table) == *old(signed_peers_routing_table)
        },
        if *request_type is GetSignedPeers {
            &&& *table == *old(signed_peers_routing_table)
            &&& *final(signed_peers_routing_table) == *final(table)
            &&& *final(basic_routing_table) == *old(basic_routing_table)
        } else {
            &&& *table == *old(basic_routing_table)
            &&& *final(basic_routing_table) == *final(table)
            &&& *final(signed_peers_routing_table) == *old(signed_peers_routing_table)
        },
{
    match request_type {
        RequestTypeSpecific::GetSignedPeers(_) => signed_peers_routing_table,
        _ => basic_routing_table,
    }
}

} // verus!
