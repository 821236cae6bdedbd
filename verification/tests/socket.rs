use std::time::Duration;

use mainline_core::address::{compare_socket_addr, SocketAddrV4};
use mainline_core::id::Id;
use mainline_core::inflight::{
    elapsed_since, InflightRequest, InflightRequests, RttEstimates, MAX_INFLIGHT_REQUESTS,
    MIN_REQUEST_TIMEOUT,
};
use mainline_core::messages::{
    AnnouncePeerRequestArguments, AnnounceSignedPeerRequestArguments, ErrorSpecific,
    FindNodeRequestArguments, GetPeersRequestArguments, Message, MessageType,
    PingResponseArguments, PutRequest, PutRequestSpecific, RequestSpecific, RequestTypeSpecific,
    ResponseSpecific, LEGACY_VERSION, VERSION,
};
use mainline_core::socket::{
    Config, KrpcSocket, RecvEvent, RecvOutcome, DEFAULT_PORT, MAX_POLL_INTERVAL, MIN_POLL_INTERVAL,
};

const MILLISECOND: u64 = 1_000_000;

fn random_id() -> Id {
    let mut bytes = [0; 20];
    getrandom::fill(&mut bytes).unwrap();
    Id { bytes }
}

fn smooth(estimated_rtt: u64, deviation_rtt: u64, sample_rtt: u64) -> RttEstimates {
    let sample = Duration::from_nanos(sample_rtt).as_secs_f64();
    let new_est = 0.875 * Duration::from_nanos(estimated_rtt).as_secs_f64() + 0.125 * sample;
    let new_dev = 0.75 * Duration::from_nanos(deviation_rtt).as_secs_f64()
        + 0.25 * (sample - new_est).abs();
    let estimated = Duration::from_secs_f64(new_est);
    let deviation = Duration::from_secs_f64(new_dev);
    RttEstimates {
        estimated_rtt: estimated.as_nanos() as u64,
        deviation_rtt: deviation.as_nanos() as u64,
    }
}

fn grow(interval: u64) -> u64 {
    Duration::from_nanos(interval).mul_f32(1.1).as_nanos() as u64
}

fn socket(server_mode: bool, port: u16) -> KrpcSocket {
    let config = Config {
        server_mode,
        ..Config::default()
    };
    KrpcSocket::new(&config, SocketAddrV4::new([0, 0, 0, 0], port))
}

fn server() -> KrpcSocket {
    socket(true, 6881)
}

fn client() -> KrpcSocket {
    socket(false, 50123)
}

fn legacy_server() -> KrpcSocket {
    let config = Config {
        server_mode: true,
        disable_announce_signed_peers: true,
        ..Config::default()
    };
    KrpcSocket::new(&config, SocketAddrV4::new([0, 0, 0, 0], 6881))
}

/// Where a datagram of a socket on the same machine comes from.
fn origin(socket: &KrpcSocket) -> SocketAddrV4 {
    SocketAddrV4::new([127, 0, 0, 1], socket.local_addr().port)
}

fn deliver(to: &mut KrpcSocket, message: Message, from: SocketAddrV4, now: u64) -> RecvOutcome {
    to.prepare_recv(now);
    let event = RecvEvent::Datagram {
        from,
        message: Some(message),
    };
    to.recv_from(event, now, smooth, grow)
}

fn ping() -> RequestSpecific {
    RequestSpecific {
        requester_id: random_id(),
        request_type: RequestTypeSpecific::Ping,
    }
}

fn pong() -> ResponseSpecific {
    ResponseSpecific::Ping(PingResponseArguments {
        responder_id: random_id(),
    })
}

fn sent(tid: u32, sent_at: u64) -> InflightRequest {
    InflightRequest {
        tid,
        to: SocketAddrV4::new([1, 2, 3, 4], 99),
        sent_at,
    }
}

#[test]
fn tid() {
    let mut socket = server();

    assert_eq!(socket.inflight_requests.tid(), 0);
    assert_eq!(socket.inflight_requests.tid(), 1);
    assert_eq!(socket.inflight_requests.tid(), 2);

    socket.inflight_requests.next_tid = u32::MAX;

    assert_eq!(socket.inflight_requests.tid(), u32::MAX);
    assert_eq!(socket.inflight_requests.tid(), 0);
}

#[test]
fn recv_request() {
    let mut server = server();
    let server_address = server.local_addr();

    let mut client = client();
    client.inflight_requests.next_tid = 120;

    let client_address = client.local_addr();
    let request = ping();
    let expected_request = request.clone();

    let (tid, message) = client.request(server_address, request, 0);
    assert_eq!(tid, 120);

    let outcome = deliver(&mut server, message, origin(&client), 1);
    let (message, from) = outcome.received.unwrap();
    assert_eq!(from.port, client_address.port);
    assert_eq!(message.transaction_id, 120);
    assert!(message.read_only, "Read-only should be true");
    assert_eq!(message.version, Some(VERSION), "Version should be 'RS'");
    assert_eq!(message.message_type, MessageType::Request(expected_request));
}

#[test]
fn recv_response() {
    let client = client();
    let client_address = client.local_addr();

    let responder_id = random_id();
    let response = ResponseSpecific::Ping(PingResponseArguments { responder_id });

    let mut server = socket(false, 6881);
    let server_address = server.local_addr();

    server.inflight_requests.requests.push(InflightRequest {
        tid: 8,
        to: client_address,
        sent_at: 0,
    });

    let message = client.response(server_address, 8, response);
    let outcome = deliver(&mut server, message, origin(&client), 1);

    let (message, from) = outcome.received.unwrap();
    assert_eq!(from.port, client_address.port);
    assert_eq!(message.transaction_id, 8);
    assert!(message.read_only, "Read-only should be true");
    assert_eq!(message.version, Some(VERSION), "Version should be 'RS'");
    assert_eq!(
        message.message_type,
        MessageType::Response(ResponseSpecific::Ping(PingResponseArguments {
            responder_id,
        }))
    );
}

#[test]
fn ignore_response_from_wrong_address() {
    let mut server = socket(false, 6881);
    let server_address = server.local_addr();

    let client = client();
    let client_address = client.local_addr();

    server.inflight_requests.requests.push(InflightRequest {
        tid: 8,
        to: SocketAddrV4::new([127, 0, 0, 1], client_address.port + 1),
        sent_at: 0,
    });

    let message = client.response(server_address, 8, pong());

    assert!(
        deliver(&mut server, message, origin(&client), 5 * MILLISECOND)
            .received
            .is_none(),
        "Should not receive a response from wrong address"
    );
}

#[test]
fn inflight_request_timeout() {
    let mut server = socket(false, 6881);

    let tid = 8;
    let sent_at = 17;

    server.inflight_requests.requests.push(InflightRequest {
        tid,
        to: SocketAddrV4::new([0, 0, 0, 0], 0),
        sent_at,
    });

    let now = sent_at + server.inflight_requests.request_timeout();

    assert!(!server.inflight(&tid, now));
}

#[test]
fn request_is_inflight_until_the_timeout() {
    let mut client = client();
    let (tid, _) = client.request(SocketAddrV4::new([9, 9, 9, 9], 9), ping(), 1000);
    assert!(client.inflight(&tid, 1000));
    assert!(client.inflight(&tid, 1000 + MIN_REQUEST_TIMEOUT - 1));
    assert!(!client.inflight(&tid, 1000 + MIN_REQUEST_TIMEOUT));
    assert!(!client.inflight(&(tid + 1), 1000));
}

#[test]
fn response_is_let_through_once() {
    let mut requester = client();
    let responder = server();
    let to = SocketAddrV4::new([127, 0, 0, 1], 6881);
    let (first, _) = requester.request(to, ping(), 0);
    let (second, _) = requester.request(to, ping(), 1);

    let message = responder.response(origin(&requester), first, pong());
    let outcome = deliver(&mut requester, message.clone(), to, 2);
    assert_eq!(outcome.received, Some((message.clone(), to)));
    assert!(deliver(&mut requester, message, to, 3).received.is_none());
    assert!(!requester.inflight(&first, 3));
    assert!(requester.inflight(&second, 3));
}

#[test]
fn response_from_wrong_address_uses_the_request_up() {
    let mut requester = client();
    let responder = server();
    let to = SocketAddrV4::new([127, 0, 0, 1], 6881);
    let (tid, _) = requester.request(to, ping(), 0);
    let message = responder.response(origin(&requester), tid, pong());

    let other_ip = SocketAddrV4::new([127, 0, 0, 2], 6881);
    assert!(deliver(&mut requester, message.clone(), other_ip, 1)
        .received
        .is_none());
    assert!(deliver(&mut requester, message, to, 2).received.is_none());
}

#[test]
fn errors_answer_requests_too() {
    let mut requester = client();
    let responder = server();
    let to = SocketAddrV4::new([127, 0, 0, 1], 6881);
    let error = ErrorSpecific {
        code: 203,
        description: String::from("Bad token"),
    };
    let unasked = responder.error(origin(&requester), 0, error.clone());
    assert!(deliver(&mut requester, unasked, to, 0).received.is_none());

    let (tid, _) = requester.request(to, ping(), 0);
    let message = responder.error(origin(&requester), tid, error.clone());
    let (received, _) = deliver(&mut requester, message, to, 1).received.unwrap();
    assert_eq!(received.message_type, MessageType::Error(error));
    assert_eq!(received.requester_ip, Some(origin(&requester)));
}

#[test]
fn late_response_is_still_let_through() {
    let mut requester = client();
    let responder = server();
    let to = SocketAddrV4::new([127, 0, 0, 1], 6881);
    let (tid, _) = requester.request(to, ping(), 0);
    let late = 1300 * MILLISECOND;
    assert!(!requester.inflight(&tid, late));
    let message = responder.response(origin(&requester), tid, pong());
    let event = RecvEvent::Datagram {
        from: to,
        message: Some(message),
    };
    let outcome = requester.recv_from(event, late, smooth, grow);
    assert!(outcome.received.is_some());
    assert_eq!(
        requester.inflight_requests.rtt,
        RttEstimates {
            estimated_rtt: 600 * MILLISECOND,
            deviation_rtt: 175 * MILLISECOND,
        }
    );
    assert_eq!(
        requester.inflight_requests.request_timeout(),
        1300 * MILLISECOND
    );
}

#[test]
fn messages_say_who_sends_them() {
    let mut client = client();
    let (_, message) = client.request(SocketAddrV4::new([9, 9, 9, 9], 9), ping(), 0);
    assert!(message.read_only);
    assert_eq!(message.requester_ip, None);
    assert_eq!(message.version, Some([82, 83, 0, 6]));

    let requester = SocketAddrV4::new([9, 9, 9, 9], 9);
    let answer = legacy_server().response(requester, 77, pong());
    assert!(!answer.read_only);
    assert_eq!(answer.requester_ip, Some(requester));
    assert_eq!(answer.transaction_id, 77);
    assert_eq!(answer.version, Some([82, 83, 0, 5]));
}

#[test]
fn legacy_nodes_ignore_signed_peers() {
    let info_hash = random_id();
    let announce_signed = RequestTypeSpecific::Put(PutRequest {
        token: vec![1, 2, 3, 4],
        put_request_type: PutRequestSpecific::AnnounceSignedPeer(
            AnnounceSignedPeerRequestArguments {
                info_hash,
                k: [1; 32],
                t: 5,
                sig: [2; 64],
            },
        ),
    });
    let announce = RequestTypeSpecific::Put(PutRequest {
        token: vec![1, 2, 3, 4],
        put_request_type: PutRequestSpecific::AnnouncePeer(AnnouncePeerRequestArguments {
            info_hash,
            port: 9,
            implied_port: None,
        }),
    });
    let get = GetPeersRequestArguments { info_hash };
    let cases = vec![
        (announce_signed, false),
        (RequestTypeSpecific::GetSignedPeers(get), false),
        (announce, true),
        (RequestTypeSpecific::GetPeers(get), true),
        (
            RequestTypeSpecific::FindNode(FindNodeRequestArguments { target: info_hash }),
            true,
        ),
        (RequestTypeSpecific::Ping, true),
    ];
    for (request_type, legacy_answers) in cases {
        let request = RequestSpecific {
            requester_id: info_hash,
            request_type,
        };
        let mut client = client();
        let (_, message) = client.request(SocketAddrV4::new([127, 0, 0, 1], 6881), request, 0);
        let from = origin(&client);
        let old = deliver(&mut legacy_server(), message.clone(), from, 1);
        assert_eq!(old.received.is_some(), legacy_answers);
        let new = deliver(&mut server(), message.clone(), from, 1);
        assert_eq!(new.received, Some((message, from)));
    }
    assert_eq!(legacy_server().version, LEGACY_VERSION);
}

#[test]
fn datagrams_without_message_or_port_are_ignored() {
    let mut server = server();
    let from = SocketAddrV4::new([127, 0, 0, 1], 50123);
    let garbage = RecvEvent::Datagram {
        from,
        message: None,
    };
    assert!(server.recv_from(garbage, 0, smooth, grow).received.is_none());

    let (_, message) = client().request(server.local_addr(), ping(), 0);
    let no_port = SocketAddrV4::new([127, 0, 0, 1], 0);
    assert!(deliver(&mut server, message, no_port, 0).received.is_none());
}

#[test]
fn ipv6_datagrams_and_failures_change_nothing() {
    let mut socket = client();
    socket.poll_interval = 7 * MILLISECOND;
    for event in vec![RecvEvent::Ipv6Datagram, RecvEvent::Failed] {
        let outcome = socket.recv_from(event, 0, smooth, grow);
        assert!(outcome.received.is_none());
        assert_eq!(outcome.read_timeout, None);
        assert_eq!(socket.poll_interval, 7 * MILLISECOND);
    }
}

#[test]
fn poll_interval_grows_while_nothing_arrives() {
    let mut socket = client();
    assert_eq!(socket.poll_interval, MIN_POLL_INTERVAL);
    let mut expected = MIN_POLL_INTERVAL;
    let mut steps = 0;
    while expected < MAX_POLL_INTERVAL {
        expected = grow(expected).min(MAX_POLL_INTERVAL);
        let outcome = socket.recv_from(RecvEvent::WouldBlock, 0, smooth, grow);
        assert_eq!(socket.poll_interval, expected);
        assert_eq!(outcome.read_timeout, Some(expected));
        steps += 1;
    }
    assert!(steps > 80);
    let outcome = socket.recv_from(RecvEvent::WouldBlock, 0, smooth, grow);
    assert_eq!(socket.poll_interval, MAX_POLL_INTERVAL);
    assert_eq!(outcome.read_timeout, None);

    socket.request(SocketAddrV4::new([9, 9, 9, 9], 9), ping(), 0);
    assert_eq!(socket.poll_interval, MIN_POLL_INTERVAL);
}

#[test]
fn poll_interval_shrinks_with_datagrams() {
    let from = SocketAddrV4::new([127, 0, 0, 1], 50123);
    let datagram = || RecvEvent::Datagram {
        from,
        message: None,
    };

    let mut waiting_for_requests = server();
    waiting_for_requests.poll_interval = 1_000_001;
    let outcome = waiting_for_requests.recv_from(datagram(), 0, smooth, grow);
    assert_eq!(waiting_for_requests.poll_interval, 500_000);
    assert_eq!(outcome.read_timeout, Some(500_000));
    waiting_for_requests.poll_interval = 150_000;
    waiting_for_requests.recv_from(datagram(), 0, smooth, grow);
    assert_eq!(waiting_for_requests.poll_interval, MIN_POLL_INTERVAL);
    let outcome = waiting_for_requests.recv_from(datagram(), 0, smooth, grow);
    assert_eq!(outcome.read_timeout, None);

    let mut idle = client();
    idle.poll_interval = 1_000_000;
    let outcome = idle.recv_from(datagram(), 0, smooth, grow);
    assert_eq!(idle.poll_interval, 1_000_000);
    assert_eq!(outcome.read_timeout, Some(1_000_000));

    let mut waiting_for_response = client();
    waiting_for_response.request(from, ping(), 0);
    waiting_for_response.poll_interval = 1_000_000;
    let outcome = waiting_for_response.recv_from(datagram(), 0, smooth, grow);
    assert_eq!(waiting_for_response.poll_interval, MIN_POLL_INTERVAL);
    assert_eq!(outcome.read_timeout, Some(MIN_POLL_INTERVAL));
}

#[test]
fn default_port_is_tried_before_any_other() {
    assert_eq!(Config::default().ports_to_try(), vec![DEFAULT_PORT, 0]);
    let config = Config {
        port: Some(4242),
        ..Config::default()
    };
    assert_eq!(config.ports_to_try(), vec![4242]);
}

#[test]
fn addresses_compare_without_an_unspecified_ip() {
    let any = SocketAddrV4::new([0, 0, 0, 0], 5);
    let one = SocketAddrV4::new([1, 2, 3, 4], 5);
    let two = SocketAddrV4::new([1, 2, 3, 5], 5);
    let other_port = SocketAddrV4::new([1, 2, 3, 4], 6);
    assert!(compare_socket_addr(&any, &one));
    assert!(!compare_socket_addr(&one, &any));
    assert!(compare_socket_addr(&one, &one));
    assert!(!compare_socket_addr(&one, &two));
    assert!(!compare_socket_addr(&one, &other_port));
    assert!(!compare_socket_addr(&any, &other_port));
}

#[test]
fn requests_are_found_by_their_ids() {
    let mut inflight = InflightRequests::new();
    for tid in vec![3, 5, 6, 9, 200] {
        inflight.requests.push(sent(tid, 0));
    }
    assert_eq!(inflight.find_by_tid(3), Ok(0));
    assert_eq!(inflight.find_by_tid(9), Ok(3));
    assert_eq!(inflight.find_by_tid(200), Ok(4));
    assert_eq!(inflight.find_by_tid(0), Err(0));
    assert_eq!(inflight.find_by_tid(4), Err(1));
    assert_eq!(inflight.find_by_tid(201), Err(5));
    assert_eq!(inflight.remove(5, 1, smooth), Some(sent(5, 0)));
    assert_eq!(inflight.remove(5, 1, smooth), None);
    assert_eq!(inflight.requests.len(), 4);
}

#[test]
fn requests_are_found_after_the_ids_start_over() {
    let mut requester = client();
    requester.inflight_requests.next_tid = u32::MAX - 1;
    let to = SocketAddrV4::new([127, 0, 0, 1], 6881);
    let tids: Vec<u32> = (0..5).map(|i| requester.request(to, ping(), i).0).collect();
    assert_eq!(tids, vec![u32::MAX - 1, u32::MAX, 0, 1, 2]);
    for tid in &tids {
        assert!(requester.inflight(tid, 10));
    }
    assert!(!requester.inflight(&3, 10));
    assert!(!requester.inflight(&(u32::MAX - 2), 10));
    for tid in &tids {
        let message = server().response(origin(&requester), *tid, pong());
        let outcome = deliver(&mut requester, message, to, 10);
        assert!(outcome.received.is_some());
        assert!(!requester.inflight(tid, 10));
    }
    assert!(requester.inflight_requests.is_empty());
}

#[test]
fn an_id_that_is_used_again_is_inflight_again() {
    let mut inflight = InflightRequests::new();
    inflight.requests = vec![sent(7, 0), sent(8, 0), sent(7, 2 * MIN_REQUEST_TIMEOUT)];
    let now = 2 * MIN_REQUEST_TIMEOUT + 1;
    assert_eq!(
        inflight.get(7, now),
        Some(&sent(7, 2 * MIN_REQUEST_TIMEOUT))
    );
    assert_eq!(inflight.get(8, now), None);
}

#[test]
fn timeout_is_the_estimate_and_four_deviations() {
    let mut inflight = InflightRequests::new();
    let samples = vec![500, 501, 1300, 40, 9000, 700, 123_456, 500, 600, 2000];
    for sample in samples {
        inflight.update_rtt_estimates(sample * MILLISECOND, smooth);
        let rtt = inflight.rtt;
        assert!(rtt.estimated_rtt >= MIN_REQUEST_TIMEOUT);
        assert_eq!(
            inflight.request_timeout(),
            rtt.estimated_rtt + 4 * rtt.deviation_rtt
        );
    }
}

#[test]
fn timeout_agrees_with_floating_point() {
    let mut inflight = InflightRequests::new();
    for estimated_rtt in vec![500 * MILLISECOND, 600_000_001, 7_654_321_987, 86_400_000_000_000] {
        for deviation_rtt in vec![0, 1, 175_000_003, 123_456_789_012, 86_400_000_000_001] {
            inflight.rtt = RttEstimates {
                estimated_rtt,
                deviation_rtt,
            };
            let timeout = Duration::from_nanos(estimated_rtt)
                + Duration::from_nanos(deviation_rtt).mul_f64(4.0);
            assert_eq!(inflight.request_timeout(), timeout.as_nanos() as u64);
        }
    }
    inflight.rtt.deviation_rtt = u64::MAX;
    assert_eq!(inflight.request_timeout(), u64::MAX);
}

#[test]
fn estimate_is_never_below_the_shortest_timeout() {
    let mut inflight = InflightRequests::new();
    let too_low = |_: u64, _: u64, _: u64| RttEstimates {
        estimated_rtt: MIN_REQUEST_TIMEOUT - 1,
        deviation_rtt: 3,
    };
    inflight.update_rtt_estimates(MIN_REQUEST_TIMEOUT, too_low);
    assert_eq!(
        inflight.rtt,
        RttEstimates {
            estimated_rtt: MIN_REQUEST_TIMEOUT,
            deviation_rtt: 3,
        }
    );
    assert_eq!(inflight.request_timeout(), MIN_REQUEST_TIMEOUT + 12);
}

#[test]
fn full_list_gives_its_oldest_request_up() {
    assert_eq!(MAX_INFLIGHT_REQUESTS, 65536);
    let mut requester = client();
    let to = SocketAddrV4::new([127, 0, 0, 1], 6881);
    for i in 0..MAX_INFLIGHT_REQUESTS as u32 {
        assert_eq!(requester.inflight_requests.add(to, 0), i);
    }
    assert_eq!(requester.inflight_requests.requests.len(), 65536);
    assert!(requester.inflight(&0, 1));

    let (tid, _) = requester.request(to, ping(), 1);
    assert_eq!(tid, 65536);
    assert_eq!(requester.inflight_requests.requests.len(), 65536);
    assert!(!requester.inflight(&0, 1));
    assert!(requester.inflight(&1, 1));
    assert!(requester.inflight(&65535, 1));
    assert!(requester.inflight(&65536, 1));
}

#[test]
fn only_long_round_trips_change_the_estimates() {
    let mut inflight = InflightRequests::new();
    let fresh = RttEstimates {
        estimated_rtt: 500 * MILLISECOND,
        deviation_rtt: 0,
    };
    assert_eq!(inflight.rtt, fresh);
    inflight.update_rtt_estimates(MIN_REQUEST_TIMEOUT - 1, smooth);
    assert_eq!(inflight.rtt, fresh);
    inflight.update_rtt_estimates(1300 * MILLISECOND, smooth);
    assert_eq!(
        inflight.rtt,
        RttEstimates {
            estimated_rtt: 600 * MILLISECOND,
            deviation_rtt: 175 * MILLISECOND,
        }
    );
    assert_eq!(inflight.request_timeout(), 1300 * MILLISECOND);
}

#[test]
fn expired_requests_are_dropped_from_the_front() {
    let mut inflight = InflightRequests::new();
    for i in 0..6 {
        inflight.requests.push(sent(i, i as u64 * 100));
    }
    let now = MIN_REQUEST_TIMEOUT + 250;
    assert_eq!(
        inflight.not_expired(now),
        vec![sent(3, 300), sent(4, 400), sent(5, 500)]
    );
    inflight.remove_expired_if_full(7, now);
    assert_eq!(inflight.requests.len(), 6);
    inflight.remove_expired_if_full(6, now);
    assert_eq!(
        inflight.requests,
        vec![sent(3, 300), sent(4, 400), sent(5, 500)]
    );
    inflight.remove_expired(now);
    assert_eq!(inflight.requests.len(), 3);
    inflight.remove_expired(u64::MAX);
    assert!(inflight.is_empty());
}

#[test]
fn cleanup_waits_until_there_is_no_room() {
    let mut inflight = InflightRequests::new();
    inflight.requests = Vec::with_capacity(8);
    inflight.requests.push(sent(0, 0));
    inflight.cleanup(u64::MAX);
    assert_eq!(inflight.requests.len(), 1);
    let mut tid = 1;
    while inflight.requests.len() < inflight.requests.capacity() {
        inflight.requests.push(sent(tid, 0));
        tid += 1;
    }
    inflight.cleanup(MIN_REQUEST_TIMEOUT - 1);
    assert_eq!(inflight.requests.len(), tid as usize);
    inflight.cleanup(MIN_REQUEST_TIMEOUT + 1);
    assert!(inflight.is_empty());
    assert_eq!(inflight.next_tid, 0);
}

#[test]
fn time_does_not_run_backwards() {
    assert_eq!(elapsed_since(10, 3), 7);
    assert_eq!(elapsed_since(3, 10), 0);
}
