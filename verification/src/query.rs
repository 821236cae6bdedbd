//! Lookups that visit closer and closer nodes, puts that follow them, and the cache of what
//! finished lookups found.

use vstd::prelude::*;

use lru::LruCache;

use crate::address::SocketAddrV4;
use crate::id::Id;
use crate::id_map::value_of;
use crate::messages::{
    AskedFor, ErrorSpecific, FindNodeRequestArguments, GetPeersRequestArguments,
    GetValueRequestArguments, PutRequestSpecific, RequestSpecific, RequestTypeSpecific, Response,
};
use crate::recency::{put, used, without, MAX_CACHE_LIMIT};
use crate::routing::{Estimate, Node};

verus! {

/// What a lookup looks for.
#[derive(Clone, Debug, PartialEq, Eq)]
pub enum GetRequestSpecific {
    FindNode(FindNodeRequestArguments),
    GetPeers(GetPeersRequestArguments),
    GetSignedPeers(GetPeersRequestArguments),
    GetValue(GetValueRequestArguments),
}

impl GetRequestSpecific {
    /// The target of the lookup.
    pub open spec fn looks_for(self) -> Id {
        match self {
            GetRequestSpecific::FindNode(arguments) => arguments.target,
            GetRequestSpecific::GetPeers(arguments) => arguments.info_hash,
            GetRequestSpecific::GetSignedPeers(arguments) => arguments.info_hash,
            GetRequestSpecific::GetValue(arguments) => arguments.target,
        }
    }

    /// The request that the nodes on the way are sent.
    pub open spec fn sent_as(self) -> RequestTypeSpecific {
        match self {
            GetRequestSpecific::FindNode(arguments) => RequestTypeSpecific::FindNode(arguments),
            GetRequestSpecific::GetPeers(arguments) => RequestTypeSpecific::GetPeers(arguments),
            GetRequestSpecific::GetSignedPeers(arguments) => RequestTypeSpecific::GetSignedPeers(
                arguments,
            ),
            GetRequestSpecific::GetValue(arguments) => RequestTypeSpecific::GetValue(arguments),
        }
    }

    /// The target of the lookup.
    pub fn target(&self) -> (target: Id)
        ensures
            target == self.looks_for(),
            match *self {
                GetRequestSpecific::FindNode(arguments) => target == arguments.target,
                GetRequestSpecific::GetPeers(arguments) => target == arguments.info_hash,
                GetRequestSpecific::GetSignedPeers(arguments) => target == arguments.info_hash,
                GetRequestSpecific::GetValue(arguments) => target == arguments.target,
            },
    {
        match self {
            GetRequestSpecific::FindNode(arguments) => arguments.target,
            GetRequestSpecific::GetPeers(arguments) => arguments.info_hash,
            GetRequestSpecific::GetSignedPeers(arguments) => arguments.info_hash,
            GetRequestSpecific::GetValue(arguments) => arguments.target,
        }
    }

    /// The request that the nodes on the way are sent.
    pub fn into_request_type(self) -> (request_type: RequestTypeSpecific)
        ensures
            request_type == self.sent_as(),
            match self {
                GetRequestSpecific::FindNode(arguments) => request_type
                    == RequestTypeSpecific::FindNode(arguments),
                GetRequestSpecific::GetPeers(arguments) => request_type
                    == RequestTypeSpecific::GetPeers(arguments),
                GetRequestSpecific::GetSignedPeers(arguments) => request_type
                    == RequestTypeSpecific::GetSignedPeers(arguments),
                GetRequestSpecific::GetValue(arguments) => request_type
                    == RequestTypeSpecific::GetValue(arguments),
            },
    {
        match self {
            GetRequestSpecific::FindNode(arguments) => RequestTypeSpecific::FindNode(arguments),
            GetRequestSpecific::GetPeers(arguments) => RequestTypeSpecific::GetPeers(arguments),
            GetRequestSpecific::GetSignedPeers(arguments) => RequestTypeSpecific::GetSignedPeers(
                arguments,
            ),
            GetRequestSpecific::GetValue(arguments) => RequestTypeSpecific::GetValue(arguments),
        }
    }
}

/// A lookup is sent as a request for the very thing that is looked for: nodes, peers, signed peers
/// or a value, with the same target, sequence number and salt. So two lookups are sent as the same
/// request only if they look for the same.
pub proof fn law_lookup_asks_for_what_it_looks_for(a: GetRequestSpecific, b: GetRequestSpecific)
    ensures
        match a {
            GetRequestSpecific::FindNode(x) => a.sent_as() == RequestTypeSpecific::FindNode(x)
                && a.looks_for() == x.target,
            GetRequestSpecific::GetPeers(x) => a.sent_as() == RequestTypeSpecific::GetPeers(x)
                && a.looks_for() == x.info_hash,
            GetRequestSpecific::GetSignedPeers(x) => a.sent_as()
                == RequestTypeSpecific::GetSignedPeers(x) && a.looks_for() == x.info_hash,
            GetRequestSpecific::GetValue(x) => a.sent_as() == RequestTypeSpecific::GetValue(x)
                && a.looks_for() == x.target,
        },
        a.sent_as() == b.sent_as() ==> a == b,
{
}

/// Nodes in the order of their distance to a target, and what their distances tell.
#[derive(Debug)]
pub struct ClosestNodes {
    pub nodes: Vec<Node>,
    pub dht_size_estimate: Estimate,
    pub subnets_count: u8,
}

impl ClosestNodes {
    /// There are no nodes, so nothing is told.
    pub open spec fn knows_none(self) -> bool {
        &&& self.nodes@ == Seq::<Node>::empty()
        &&& self.dht_size_estimate == (Estimate { bits: 0 })
        &&& self.subnets_count == 0
    }

    /// No nodes.
    pub fn empty() -> (closest: Self)
        ensures
            closest.knows_none(),
            closest.nodes@.len() == 0,
            closest.dht_size_estimate.bits == 0,
            closest.subnets_count == 0,
    {
        ClosestNodes {
            nodes: Vec::new(),
            dht_size_estimate: Estimate { bits: 0 },
            subnets_count: 0,
        }
    }
}

/// A lookup in progress.
#[derive(Debug)]
pub struct IterativeQuery {
    pub target: Id,
    pub request: RequestSpecific,
    /// The closest nodes that are known of.
    pub closest: ClosestNodes,
    /// The closest nodes that responded.
    pub responders: ClosestNodes,
    /// The address under which most of the responding nodes see this one.
    pub best_address: Option<SocketAddrV4>,
    /// What was found so far.
    pub responses: Vec<Response>,
}

impl IterativeQuery {
    /// A lookup that knows of no nodes yet.
    pub fn new(requester_id: Id, target: Id, request: GetRequestSpecific) -> (query: Self)
        ensures
            query.target == target,
            query.request == (RequestSpecific { requester_id, request_type: request.sent_as() }),
            query.request.requester_id == requester_id,
            query.closest.knows_none(),
            query.responders.knows_none(),
            query.closest.nodes@.len() == 0,
            query.closest.dht_size_estimate.bits == 0,
            query.closest.subnets_count == 0,
            query.responders.nodes@.len() == 0,
            query.responders.dht_size_estimate.bits == 0,
            query.responders.subnets_count == 0,
            match request {
                GetRequestSpecific::FindNode(arguments) => query.request.request_type
                    == RequestTypeSpecific::FindNode(arguments),
                GetRequestSpecific::GetPeers(arguments) => query.request.request_type
                    == RequestTypeSpecific::GetPeers(arguments),
                GetRequestSpecific::GetSignedPeers(arguments) => query.request.request_type
                    == RequestTypeSpecific::GetSignedPeers(arguments),
                GetRequestSpecific::GetValue(arguments) => query.request.request_type
                    == RequestTypeSpecific::GetValue(arguments),
            },
            query.best_address is None,
            query.responses@ == Seq::<Response>::empty(),
    {
        IterativeQuery {
            target,
            request: RequestSpecific { requester_id, request_type: request.into_request_type() },
            closest: ClosestNodes::empty(),
            responders: ClosestNodes::empty(),
            best_address: None,
            responses: Vec::new(),
        }
    }
}

/// A put in progress. It waits for the lookup of the nodes that are to store it.
#[derive(Debug)]
pub struct PutQuery {
    pub target: Id,
    pub request: PutRequestSpecific,
}

/// Why a put of a mutable item is refused while another one is in progress.
#[derive(Clone, Copy, Debug, PartialEq, Eq, Structural)]
pub enum ConcurrencyError {
    /// The item in progress could get lost, and the new put does not say that it knows of it.
    ConflictRisk,
    /// The item in progress is more recent.
    NotMostRecent,
    /// The new put expects another item than the one in progress.
    CasFailed,
}

/// Why the nodes did not store what was put.
#[derive(Clone, Debug, PartialEq, Eq)]
pub enum PutQueryError {
    NoClosestNodes,
    ErrorResponse(ErrorSpecific),
    Timeout,
}

/// Why a put failed.
#[derive(Clone, Debug, PartialEq, Eq)]
pub enum PutError {
    Query(PutQueryError),
    Concurrency(ConcurrencyError),
}

/// What a finished lookup found.
pub struct CachedIterativeQuery {
    pub closest_responding_nodes: Vec<Node>,
    pub dht_size_estimate: Estimate,
    pub responders_dht_size_estimate: Estimate,
    pub subnets: u8,
    pub request_type: RequestTypeSpecific,
}

/// What is read from a cached lookup.
pub struct CachedQuery {
    pub nodes: Seq<Node>,
    pub dht_size_estimate: Estimate,
    pub responders_dht_size_estimate: Estimate,
    pub subnets: u8,
    pub request: AskedFor,
}

impl View for CachedIterativeQuery {
    type V = CachedQuery;

    open spec fn view(&self) -> CachedQuery {
        CachedQuery {
            nodes: self.closest_responding_nodes@,
            dht_size_estimate: self.dht_size_estimate,
            responders_dht_size_estimate: self.responders_dht_size_estimate,
            subnets: self.subnets,
            request: self.request_type@,
        }
    }
}

/// Nothing of a cached lookup is left out of what is read from it: two say the same exactly if
/// their nodes, their estimates, their subnets and what was asked for agree.
pub proof fn law_cached_lookups_say_all_their_fields(
    a: CachedIterativeQuery,
    b: CachedIterativeQuery,
)
    ensures
        a@ == b@ <==> a.closest_responding_nodes@ == b.closest_responding_nodes@
            && a.dht_size_estimate == b.dht_size_estimate && a.responders_dht_size_estimate
            == b.responders_dht_size_estimate && a.subnets == b.subnets && a.request_type@
            == b.request_type@,
        a@.nodes == a.closest_responding_nodes@,
        a@.dht_size_estimate == a.dht_size_estimate,
        a@.responders_dht_size_estimate == a.responders_dht_size_estimate,
        a@.subnets == a.subnets,
        a@.request == a.request_type@,
{
}

/// The cache of finished lookups by their targets.
pub type QueryCache = LruCache<[u8; 20], CachedIterativeQuery>;

/// The entries of a cache of lookups, the most recently used first.
pub uninterp spec fn query_entries(
    cache: LruCache<[u8; 20], CachedIterativeQuery>,
) -> Seq<([u8; 20], CachedIterativeQuery)>;

/// The limit that a cache of lookups was made with.
pub uninterp spec fn query_limit(cache: LruCache<[u8; 20], CachedIterativeQuery>) -> nat;

/// Calls `LruCache::new`: a new cache is empty and keeps at most `limit` entries.
#[verifier::external_body]
pub(crate) fn queries_new(limit: usize) -> (cache: LruCache<[u8; 20], CachedIterativeQuery>)
    requires
        0 < limit <= MAX_CACHE_LIMIT,
    ensures
        query_entries(cache) == Seq::<([u8; 20], CachedIterativeQuery)>::empty(),
        query_limit(cache) == limit,
{
    LruCache::new(std::num::NonZeroUsize::new(limit).unwrap())
}

/// Calls `LruCache::len`: the number of entries.
#[verifier::external_body]
pub(crate) fn queries_len(cache: &LruCache<[u8; 20], CachedIterativeQuery>) -> (len: usize)
    ensures
        len == query_entries(*cache).len(),
{
    cache.len()
}

/// Calls `LruCache::get`: the value of the key, whose entry becomes the most recently used one.
#[verifier::external_body]
pub(crate) fn queries_get<'a>(
    cache: &'a mut LruCache<[u8; 20], CachedIterativeQuery>,
    key: &[u8; 20],
) -> (value: Option<&'a CachedIterativeQuery>)
    ensures
        query_entries(*final(cache)) == used(query_entries(*old(cache)), *key),
        query_limit(*final(cache)) == query_limit(*old(cache)),
        match value {
            Some(v) => value_of(query_entries(*old(cache)), *key) == Some(*v),
            None => value_of(query_entries(*old(cache)), *key) is None,
        },
{
    cache.get(key)
}

/// Calls `LruCache::put`: the value becomes the most recently used entry, in place of the earlier
/// value of the key or, in a full cache, of the least recently used entry; what is returned is the
/// earlier value of the key.
#[verifier::external_body]
pub(crate) fn queries_put(
    cache: &mut LruCache<[u8; 20], CachedIterativeQuery>,
    key: [u8; 20],
    value: CachedIterativeQuery,
) -> (replaced: Option<CachedIterativeQuery>)
    ensures
        query_entries(*final(cache)) == put(
            query_entries(*old(cache)),
            query_limit(*old(cache)),
            key,
            value,
        ),
        query_limit(*final(cache)) == query_limit(*old(cache)),
        replaced == value_of(query_entries(*old(cache)), key),
{
    cache.put(key, value)
}

/// Calls `LruCache::pop`: the entry of the key is taken out and its value returned.
#[verifier::external_body]
pub(crate) fn queries_pop(
    cache: &mut LruCache<[u8; 20], CachedIterativeQuery>,
    key: &[u8; 20],
) -> (value: Option<CachedIterativeQuery>)
    ensures
        query_entries(*final(cache)) == without(query_entries(*old(cache)), *key),
        query_limit(*final(cache)) == query_limit(*old(cache)),
        value == value_of(query_entries(*old(cache)), *key),
{
    cache.pop(key)
}

/// Calls `LruCache::pop_lru`: the least recently used entry is taken out and returned.
#[verifier::external_body]
pub(crate) fn queries_pop_lru(cache: &mut LruCache<[u8; 20], CachedIterativeQuery>) -> (entry:
    Option<([u8; 20], CachedIterativeQuery)>)
    ensures
        query_limit(*final(cache)) == query_limit(*old(cache)),
        match entry {
            Some(e) => query_entries(*old(cache)).len() > 0 && e == query_entries(
                *old(cache),
            ).last() && query_entries(*final(cache)) == query_entries(*old(cache)).drop_last(),
            None => query_entries(*old(cache)).len() == 0 && query_entries(*final(cache))
                == query_entries(*old(cache)),
        },
{
    cache.pop_lru()
}

} // verus!
