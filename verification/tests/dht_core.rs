use mainline_core::address::SocketAddrV4;
use mainline_core::dht_core::{
    Core, Ranking, MAX_CACHED_ITERATIVE_QUERIES, PING_TABLE_INTERVAL, REFRESH_TABLE_INTERVAL,
};
use mainline_core::id::Id;
use mainline_core::messages::{
    AnnouncePeerRequestArguments, AnnounceSignedPeerRequestArguments, FindNodeRequestArguments,
    GetPeersRequestArguments, GetValueRequestArguments, MutableItem, PutImmutableRequestArguments,
    PutMutableRequestArguments, PutRequestSpecific, RequestTypeSpecific, Response, SignedAnnounce,
};
use mainline_core::query::{
    ClosestNodes, ConcurrencyError, GetRequestSpecific, IterativeQuery, PutError, PutQuery,
    PutQueryError,
};
use mainline_core::routing::{
    choose_relevant_routing_table, choose_relevant_routing_table_mut, Estimate, Node, RoutingTable,
    StatsUpdate, MAX_BUCKET_SIZE_K,
};

fn id(number: u16) -> Id {
    let mut bytes = [0; 20];
    bytes[0] = (number / 256) as u8;
    bytes[1] = (number % 256) as u8;
    Id { bytes }
}

fn address(port: u16) -> SocketAddrV4 {
    SocketAddrV4::new([10, 0, 0, 1], port)
}

fn node(number: u16) -> Node {
    Node {
        id: id(number),
        address: address(number),
        token_valid_until: Some(1000),
        fresh_until: 2000,
        quiet_until: 500,
    }
}

fn new_core() -> Core<&'static str> {
    Core::new(id(0), vec![address(9001), address(9002)], true, "server", 0)
}

fn find_node(target: Id) -> GetRequestSpecific {
    GetRequestSpecific::FindNode(FindNodeRequestArguments { target })
}

fn get_peers(info_hash: Id) -> GetRequestSpecific {
    GetRequestSpecific::GetPeers(GetPeersRequestArguments { info_hash })
}

fn get_signed_peers(info_hash: Id) -> GetRequestSpecific {
    GetRequestSpecific::GetSignedPeers(GetPeersRequestArguments { info_hash })
}

fn closest(nodes: Vec<Node>, estimate: u64, subnets_count: u8) -> ClosestNodes {
    ClosestNodes {
        nodes,
        dht_size_estimate: Estimate { bits: estimate },
        subnets_count,
    }
}

/// A lookup that is ready to be finished; its number tells its estimates apart from others.
fn lookup(request: GetRequestSpecific, number: u16) -> IterativeQuery {
    let mut query = IterativeQuery::new(id(0), request.target(), request);
    query.closest = closest(vec![node(1), node(2)], number as u64, 1);
    query.responders = closest(vec![node(2)], 10_000 + number as u64, 7);
    query
}

fn increment(number: u16) -> StatsUpdate {
    StatsUpdate::IncrementResponders {
        dht_size_estimate: Estimate {
            bits: number as u64,
        },
        responders_dht_size_estimate: Estimate {
            bits: 10_000 + number as u64,
        },
        subnets: 7,
    }
}

fn decrement(number: u16) -> StatsUpdate {
    StatsUpdate::DecrementResponders {
        dht_size_estimate: Estimate {
            bits: number as u64,
        },
        responders_dht_size_estimate: Estimate {
            bits: 10_000 + number as u64,
        },
        subnets: 7,
    }
}

fn finish(core: &mut Core<&'static str>, query: IterativeQuery, nodes: Vec<Node>) {
    let target = query.target;
    core.iterative_queries.insert(target, query);
    core.cleanup_done_queries(&[(target, nodes)], &[]);
}

fn failed() -> Option<PutError> {
    Some(PutError::Query(PutQueryError::Timeout))
}

fn mutable(target: Id, seq: i64, sig: u8, cas: Option<i64>) -> PutRequestSpecific {
    PutRequestSpecific::PutMutable(PutMutableRequestArguments {
        target,
        v: vec![1, 2, 3],
        k: [4; 32],
        seq,
        sig: [sig; 64],
        salt: Some(vec![5]),
        cas,
    })
}

fn put_in_progress(core: &mut Core<&'static str>, target: Id, request: PutRequestSpecific) {
    core.put_queries.insert(target, PutQuery { target, request });
}

fn all_nodes(table: &RoutingTable, _target: Id) -> Vec<Node> {
    table.nodes.clone()
}

/// Every node is a candidate, and the first two are visited.
fn rank_first_two(_target: Id, nodes: Vec<Node>) -> Ranking {
    let closest_candidates = nodes.iter().take(2).map(|node| node.address).collect();
    Ranking {
        closest: closest(nodes, 0, 0),
        closest_candidates,
    }
}

#[test]
fn new_core_knows_nothing() {
    let mut core = new_core();
    assert_eq!(core.id(), id(0));
    assert_eq!(core.routing_table.size(), 0);
    assert_eq!(core.signed_peers_routing_table.size(), 0);
    assert_eq!(core.public_address, None);
    assert!(core.firewalled);
    assert!(core.server_mode);
    assert_eq!(core.server, "server");
    assert_eq!(core.get_cached_closest_nodes(&id(1), 0), None);
    assert!(core.check_responses_from_active_query(&id(1)).is_none());
    assert_eq!(core.check_outgoing_put_request(&id(1)), None);
}

#[test]
fn table_is_due_after_its_interval() {
    let mut core = new_core();
    assert!(!core.should_ping_table(PING_TABLE_INTERVAL));
    assert!(core.should_ping_table(PING_TABLE_INTERVAL + 1));
    core.update_last_table_ping(5);
    assert!(!core.should_ping_table(PING_TABLE_INTERVAL + 5));
    assert!(core.should_ping_table(PING_TABLE_INTERVAL + 6));

    assert!(!core.should_refresh_table(REFRESH_TABLE_INTERVAL));
    assert!(core.should_refresh_table(REFRESH_TABLE_INTERVAL + 1));
    core.update_last_table_refresh(5);
    assert!(!core.should_refresh_table(REFRESH_TABLE_INTERVAL + 5));
    assert!(core.should_refresh_table(REFRESH_TABLE_INTERVAL + 6));

    assert_eq!(PING_TABLE_INTERVAL, 5 * 60 * 1_000_000_000);
    assert_eq!(REFRESH_TABLE_INTERVAL, 15 * 60 * 1_000_000_000);
}

#[test]
fn finished_lookup_is_cached_while_a_token_is_valid() {
    let mut core = new_core();
    finish(&mut core, lookup(get_peers(id(7)), 1), vec![node(3), node(4)]);
    assert!(!core.iterative_queries.contains_key(&id(7)));
    assert_eq!(
        core.get_cached_closest_nodes(&id(7), 1000),
        Some(vec![node(3), node(4)])
    );
    assert_eq!(core.get_cached_closest_nodes(&id(7), 1001), None);
    assert_eq!(core.get_cached_closest_nodes(&id(8), 0), None);
}

#[test]
fn nodes_without_a_token_are_of_no_use() {
    let silent = Node {
        token_valid_until: None,
        ..node(3)
    };
    assert!(!silent.valid_token(0));
    let mut core = new_core();
    finish(&mut core, lookup(get_peers(id(7)), 1), vec![silent]);
    assert_eq!(core.get_cached_closest_nodes(&id(7), 0), None);
    finish(&mut core, lookup(get_peers(id(7)), 1), vec![silent, node(4)]);
    assert_eq!(
        core.get_cached_closest_nodes(&id(7), 0),
        Some(vec![silent, node(4)])
    );
}

#[test]
fn finished_lookup_without_nodes_is_of_no_use() {
    let mut core = new_core();
    finish(&mut core, lookup(get_peers(id(7)), 1), vec![]);
    assert_eq!(core.get_cached_closest_nodes(&id(7), 0), None);
}

#[test]
fn offline_lookup_is_not_cached() {
    let mut core = new_core();
    let mut query = lookup(get_peers(id(7)), 1);
    query.closest = closest(vec![], 0, 0);
    finish(&mut core, query, vec![node(3)]);
    assert_eq!(core.get_cached_closest_nodes(&id(7), 0), None);
    assert!(core.routing_table.take_stats_updates().is_empty());
}

#[test]
fn finished_lookups_change_the_sums_of_their_table() {
    let mut core = new_core();
    finish(&mut core, lookup(get_peers(id(1)), 1), vec![node(3)]);
    finish(&mut core, lookup(get_signed_peers(id(2)), 2), vec![node(3)]);
    finish(&mut core, lookup(find_node(id(3)), 3), vec![node(3)]);
    assert_eq!(
        core.routing_table.take_stats_updates(),
        vec![increment(1), increment(3)]
    );
    assert_eq!(
        core.signed_peers_routing_table.take_stats_updates(),
        vec![increment(2)]
    );
    assert!(core.routing_table.take_stats_updates().is_empty());

    // A later lookup of the same target takes back what the earlier one added.
    finish(&mut core, lookup(get_peers(id(1)), 4), vec![node(4)]);
    finish(&mut core, lookup(get_signed_peers(id(2)), 5), vec![node(4)]);
    finish(&mut core, lookup(find_node(id(3)), 6), vec![node(4)]);
    assert_eq!(
        core.routing_table.take_stats_updates(),
        vec![
            decrement(1),
            increment(4),
            StatsUpdate::DecrementDhtSize {
                dht_size_estimate: Estimate { bits: 3 },
            },
            increment(6),
        ]
    );
    assert_eq!(
        core.signed_peers_routing_table.take_stats_updates(),
        vec![decrement(2), increment(5)]
    );
    assert_eq!(core.get_cached_closest_nodes(&id(1), 0), Some(vec![node(4)]));
}

#[test]
fn full_cache_drops_the_least_recently_used_lookup() {
    let mut core = new_core();
    let limit = MAX_CACHED_ITERATIVE_QUERIES as u16;
    for number in 0..limit {
        finish(&mut core, lookup(get_peers(id(number)), number), vec![node(3)]);
    }
    assert_eq!(
        core.routing_table.take_stats_updates(),
        (0..limit).map(increment).collect::<Vec<_>>()
    );
    // The first lookup is used again, so the second one is the first to go.
    assert!(core.get_cached_closest_nodes(&id(0), 0).is_some());
    finish(&mut core, lookup(get_peers(id(limit)), limit), vec![node(3)]);
    assert_eq!(
        core.routing_table.take_stats_updates(),
        vec![decrement(1), increment(limit)]
    );
    assert_eq!(core.get_cached_closest_nodes(&id(1), 0), None);
    assert!(core.get_cached_closest_nodes(&id(0), 0).is_some());
    assert!(core.get_cached_closest_nodes(&id(2), 0).is_some());
    assert!(core.get_cached_closest_nodes(&id(limit), 0).is_some());
}

#[test]
fn done_queries_are_removed_and_others_stay() {
    let mut core = new_core();
    for number in 1..4 {
        core.iterative_queries
            .insert(id(number), lookup(get_peers(id(number)), number));
        put_in_progress(&mut core, id(number), mutable(id(number), 1, 1, None));
    }
    let done_lookups = vec![(id(1), vec![node(3)]), (id(9), vec![])];
    assert_eq!(core.puts_ready_to_start(&done_lookups), vec![id(1)]);
    let to_ping = core.cleanup_done_queries(&done_lookups, &[(id(2), None), (id(8), None)]);
    assert_eq!(to_ping, None);
    assert!(!core.iterative_queries.contains_key(&id(1)));
    assert!(core.iterative_queries.contains_key(&id(2)));
    assert!(core.iterative_queries.contains_key(&id(3)));
    assert!(core.put_queries.contains_key(&id(1)));
    assert!(!core.put_queries.contains_key(&id(2)));
    assert!(core.put_queries.contains_key(&id(3)));
}

#[test]
fn failed_put_forgets_the_cached_lookup() {
    let mut core = new_core();
    for number in 1..4 {
        finish(&mut core, lookup(get_peers(id(number)), number), vec![node(3)]);
        put_in_progress(&mut core, id(number), mutable(id(number), 1, 1, None));
    }
    core.cleanup_done_queries(&[], &[(id(1), failed()), (id(2), None)]);
    assert_eq!(core.get_cached_closest_nodes(&id(1), 0), None);
    assert!(core.get_cached_closest_nodes(&id(2), 0).is_some());
    assert!(core.get_cached_closest_nodes(&id(3), 0).is_some());
    assert!(!core.put_queries.contains_key(&id(1)));
}

#[test]
fn votes_for_a_new_address_have_it_pinged() {
    let voting = |number: u16, vote: Option<SocketAddrV4>| {
        let mut query = lookup(get_peers(id(number)), number);
        query.best_address = vote;
        query
    };
    let mut core = new_core();
    core.iterative_queries.insert(id(1), voting(1, Some(address(77))));
    core.iterative_queries.insert(id(2), voting(2, None));
    let to_ping =
        core.cleanup_done_queries(&[(id(1), vec![node(3)]), (id(2), vec![node(3)])], &[]);
    assert_eq!(to_ping, Some(address(77)));
    assert_eq!(core.public_address, Some(address(77)));
    assert!(core.firewalled);

    // The known address is not pinged again.
    core.firewalled = false;
    core.iterative_queries.insert(id(1), voting(1, Some(address(77))));
    assert_eq!(core.cleanup_done_queries(&[(id(1), vec![node(3)])], &[]), None);
    assert_eq!(core.public_address, Some(address(77)));
    assert!(!core.firewalled);

    // Another one is, and the node counts as firewalled until then.
    let query = voting(1, Some(address(78)));
    assert_eq!(
        core.update_address_votes_from_iterative_query(&query),
        Some(address(78))
    );
    assert_eq!(core.public_address, Some(address(78)));
    assert!(core.firewalled);
}

#[test]
fn stale_nodes_are_forgotten_and_quiet_ones_pinged() {
    let with_times = |number: u16, fresh_until: u64, quiet_until: u64| Node {
        fresh_until,
        quiet_until,
        ..node(number)
    };
    let mut core = new_core();
    core.routing_table.nodes = vec![
        with_times(1, 99, 50),
        with_times(2, 100, 99),
        with_times(3, 200, 100),
    ];
    core.signed_peers_routing_table.nodes = vec![with_times(4, 200, 0), with_times(5, 10, 500)];
    assert_eq!(
        core.check_nodes_to_ping_and_remove_stale_nodes(100),
        vec![address(2), address(4)]
    );
    let left = |table: &RoutingTable| table.nodes.iter().map(|n| n.id).collect::<Vec<_>>();
    assert_eq!(left(&core.routing_table), vec![id(2), id(3)]);
    assert_eq!(left(&core.signed_peers_routing_table), vec![id(4)]);
}

#[test]
fn concurrent_puts_of_a_mutable_item() {
    let target = id(7);
    let fresh = || {
        let mut core = new_core();
        put_in_progress(&mut core, target, mutable(target, 5, 1, None));
        core
    };

    // The same signature is already on its way.
    let mut core = fresh();
    assert_eq!(
        core.check_concurrency_errors(&mutable(target, 5, 1, None)),
        Ok(())
    );
    assert!(core.put_queries.contains_key(&target));

    for (request, error) in vec![
        (mutable(target, 4, 2, None), ConcurrencyError::NotMostRecent),
        (mutable(target, 4, 2, Some(5)), ConcurrencyError::NotMostRecent),
        (mutable(target, 6, 2, Some(4)), ConcurrencyError::CasFailed),
        (mutable(target, 5, 2, None), ConcurrencyError::ConflictRisk),
        (mutable(target, 6, 2, None), ConcurrencyError::ConflictRisk),
    ] {
        let mut core = fresh();
        assert_eq!(core.check_concurrency_errors(&request), Err(error));
        assert!(core.put_queries.contains_key(&target));
    }

    // Whoever knows of the put in progress may override it.
    let mut core = fresh();
    assert_eq!(
        core.check_concurrency_errors(&mutable(target, 6, 2, Some(5))),
        Ok(())
    );
    assert!(!core.put_queries.contains_key(&target));
}

#[test]
fn other_puts_do_not_conflict() {
    let target = id(7);
    let mut core = new_core();
    put_in_progress(&mut core, target, mutable(target, 5, 1, None));
    let immutable = PutRequestSpecific::PutImmutable(PutImmutableRequestArguments {
        target,
        v: vec![1],
    });
    assert_eq!(core.check_concurrency_errors(&immutable), Ok(()));
    assert_eq!(
        core.check_concurrency_errors(&mutable(id(8), 1, 2, None)),
        Ok(())
    );
    assert!(core.put_queries.contains_key(&target));

    let mut core = new_core();
    put_in_progress(&mut core, target, immutable);
    assert_eq!(
        core.check_concurrency_errors(&mutable(target, 1, 2, None)),
        Ok(())
    );
    assert!(core.put_queries.contains_key(&target));
}

#[test]
fn outgoing_puts_answer_requests_for_their_target() {
    let mut core = new_core();
    put_in_progress(&mut core, id(1), mutable(id(1), 5, 9, Some(4)));
    put_in_progress(
        &mut core,
        id(2),
        PutRequestSpecific::AnnounceSignedPeer(AnnounceSignedPeerRequestArguments {
            info_hash: id(2),
            k: [6; 32],
            t: 7,
            sig: [8; 64],
        }),
    );
    put_in_progress(
        &mut core,
        id(3),
        PutRequestSpecific::AnnouncePeer(AnnouncePeerRequestArguments {
            info_hash: id(3),
            port: 1,
            implied_port: Some(true),
        }),
    );
    assert_eq!(
        core.check_outgoing_put_request(&id(1)),
        Some(Response::Mutable(MutableItem {
            target: id(1),
            key: [4; 32],
            seq: 5,
            value: vec![1, 2, 3],
            signature: [9; 64],
            salt: Some(vec![5]),
        }))
    );
    assert_eq!(
        core.check_outgoing_put_request(&id(2)),
        Some(Response::SignedPeers(vec![SignedAnnounce {
            key: [6; 32],
            timestamp: 7,
            signature: [8; 64],
        }]))
    );
    assert_eq!(core.check_outgoing_put_request(&id(3)), None);
    assert_eq!(core.check_outgoing_put_request(&id(4)), None);
}

#[test]
fn active_lookup_answers_with_what_it_found() {
    let mut core = new_core();
    let mut query = lookup(get_peers(id(1)), 1);
    query.responses.push(Response::Peers(vec![address(3)]));
    core.iterative_queries.insert(id(1), query);
    assert_eq!(
        core.check_responses_from_active_query(&id(1)),
        Some(&[Response::Peers(vec![address(3)])][..])
    );
    assert_eq!(core.check_responses_from_active_query(&id(2)), None);
}

#[test]
fn lookups_start_from_the_relevant_tables() {
    let mut core = new_core();
    core.routing_table.nodes = vec![node(1), node(2)];
    core.signed_peers_routing_table.nodes = vec![node(3)];
    let get_value = GetRequestSpecific::GetValue(GetValueRequestArguments {
        target: id(9),
        seq: Some(1),
        salt: None,
    });
    for (request, expected) in vec![
        (find_node(id(9)), vec![node(1), node(2), node(3)]),
        (get_signed_peers(id(9)), vec![node(3)]),
        (get_peers(id(9)), vec![node(1), node(2)]),
        (get_value, vec![node(1), node(2)]),
    ] {
        assert_eq!(
            core.get_closest_nodes_from_routing_tables(&request, all_nodes),
            expected
        );
    }
}

#[test]
fn created_lookup_knows_tables_and_earlier_lookups() {
    let mut core = new_core();
    core.routing_table.nodes = vec![node(1)];
    finish(&mut core, lookup(get_peers(id(9)), 1), vec![node(5), node(6)]);
    let (query, to_visit) = core
        .create_iterative_query(
            get_peers(id(9)),
            Some(&[address(8001)]),
            all_nodes,
            rank_first_two,
            0,
        )
        .unwrap();
    assert_eq!(query.target, id(9));
    assert_eq!(query.request.requester_id, id(0));
    assert_eq!(
        query.request.request_type,
        RequestTypeSpecific::GetPeers(GetPeersRequestArguments { info_hash: id(9) })
    );
    assert_eq!(query.closest.nodes, vec![node(1), node(5), node(6)]);
    assert!(query.responders.nodes.is_empty());
    assert!(query.responses.is_empty());
    // Three known nodes are enough to do without the two bootstrapping nodes.
    assert_eq!(to_visit, vec![address(1), address(5), address(8001)]);
    // The lookup is not in progress yet.
    assert!(!core.iterative_queries.contains_key(&id(9)));

    core.iterative_queries.insert(id(9), query);
    assert!(core
        .create_iterative_query(get_peers(id(9)), None, all_nodes, rank_first_two, 0)
        .is_none());
}

#[test]
fn bootstrapping_nodes_help_out_when_few_nodes_are_known() {
    for (known, expected) in vec![
        (vec![], vec![address(9001), address(9002)]),
        (vec![node(1)], vec![address(1), address(9001), address(9002)]),
        (vec![node(1), node(2)], vec![address(1), address(2)]),
    ] {
        let mut core = new_core();
        core.routing_table.nodes = known;
        let (_, to_visit) = core
            .create_iterative_query(get_peers(id(9)), None, all_nodes, rank_first_two, 0)
            .unwrap();
        assert_eq!(to_visit, expected);
    }
}

#[test]
fn closest_nodes_of_a_done_lookup() {
    let mut core = new_core();
    core.routing_table.responders_based_dht_size_estimate = 11;
    core.routing_table.average_subnets = 12;
    core.signed_peers_routing_table.responders_based_dht_size_estimate = 21;
    core.signed_peers_routing_table.average_subnets = 22;
    let take = |responders: &Vec<Node>, estimate: usize, subnets: usize| {
        let mut nodes = responders.clone();
        nodes.push(node(estimate as u16));
        nodes.push(node(subnets as u16));
        nodes
    };
    assert_eq!(
        core.closest_nodes_from_done_iterative_query(&lookup(get_peers(id(9)), 1), take),
        vec![node(2), node(11), node(12)]
    );
    assert_eq!(
        core.closest_nodes_from_done_iterative_query(&lookup(get_signed_peers(id(9)), 1), take),
        vec![node(2), node(21), node(22)]
    );
    assert_eq!(
        core.closest_nodes_from_done_iterative_query(&lookup(find_node(id(9)), 1), take),
        vec![node(1), node(2)]
    );
    let mut many = lookup(find_node(id(9)), 1);
    many.closest = closest((0..30).map(node).collect(), 0, 0);
    let found = core.closest_nodes_from_done_iterative_query(&many, take);
    assert_eq!(found, (0..MAX_BUCKET_SIZE_K as u16).map(node).collect::<Vec<_>>());
}

#[test]
fn relevant_table_is_told_by_the_request() {
    let mut basic = RoutingTable::new(id(1));
    let mut signed = RoutingTable::new(id(2));
    let arguments = GetPeersRequestArguments { info_hash: id(9) };
    let about_signed = RequestTypeSpecific::GetSignedPeers(arguments);
    let others = vec![
        RequestTypeSpecific::Ping,
        RequestTypeSpecific::GetPeers(arguments),
        RequestTypeSpecific::FindNode(FindNodeRequestArguments { target: id(9) }),
    ];
    assert_eq!(
        choose_relevant_routing_table(&about_signed, &basic, &signed).id,
        id(2)
    );
    for request_type in &others {
        assert_eq!(
            choose_relevant_routing_table(request_type, &basic, &signed).id,
            id(1)
        );
        choose_relevant_routing_table_mut(request_type, &mut basic, &mut signed).average_subnets +=
            1;
    }
    choose_relevant_routing_table_mut(&about_signed, &mut basic, &mut signed).average_subnets = 50;
    assert_eq!(basic.average_subnets, 3);
    assert_eq!(signed.average_subnets, 50);
}
