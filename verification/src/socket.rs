//! The side of the socket that decides: which messages go out, which incoming ones are let
//! through, and how eagerly the socket is polled. Datagrams are sent and received elsewhere.

use vstd::prelude::*;

use crate::address::{address_expected, compare_socket_addr, SocketAddrV4};
use crate::inflight::{
    awaits, expired_dropped, inflight_at, law_ids_stay_distinct,
    law_request_is_inflight_while_the_timeout_has_not_passed, law_request_is_taken_once,
    lemma_with_room, room_given, tid_after, tids_distinct, tids_increase, timeout_follows, with_room,
    InflightRequest, InflightRequests, RttEstimates, MAX_INFLIGHT_REQUESTS, MIN_REQUEST_TIMEOUT,
};
use crate::messages::{
    concerns_signed_peers, supports_request, ErrorSpecific, Message, MessageType, RequestSpecific,
    RequestTypeSpecific, ResponseSpecific, LEGACY_VERSION, VERSION,
};

verus! {

/// The largest datagram that is read.
pub const MTU: usize = 8192;

/// The port that is tried first where none is asked for.
pub const DEFAULT_PORT: u16 = 6881;

/// The shortest time between two looks at the socket, in nanoseconds: lower latency, more work.
pub const MIN_POLL_INTERVAL: u64 = 100_000;

/// The longest time between two looks at the socket, in nanoseconds: higher latency, less work.
pub const MAX_POLL_INTERVAL: u64 = 500_000_000;

/// How a socket is set up.
#[derive(Clone, Copy, Debug, PartialEq, Eq)]
pub struct Config {
    /// The port to listen on.
    pub port: Option<u16>,
    /// Whether requests of others are answered.
    pub server_mode: bool,
    /// Whether to act as a node that does not know signed peers.
    pub disable_announce_signed_peers: bool,
}

impl Default for Config {
    fn default() -> (config: Self)
        ensures
            config == (Config {
                port: None,
                server_mode: false,
                disable_announce_signed_peers: false,
            }),
    {
        Config { port: None, server_mode: false, disable_announce_signed_peers: false }
    }
}

impl Config {
    /// The ports to bind to, in the order in which they are tried until one is free: the one that
    /// is asked for, or else the default port and then one that the system picks.
    pub fn ports_to_try(&self) -> (ports: Vec<u16>)
        ensures
            ports@ == match self.port {
                Some(port) => seq![port],
                None => seq![DEFAULT_PORT, 0u16],
            },
    {
        let mut ports: Vec<u16> = Vec::new();
        match self.port {
            Some(port) => {
                ports.push(port);
            },
            None => {
                ports.push(DEFAULT_PORT);
                ports.push(0);
            },
        }
        assert(ports@ =~= match self.port {
            Some(port) => seq![port],
            None => seq![DEFAULT_PORT, 0u16],
        });
        ports
    }
}

/// `grow` never makes an interval shorter.
pub open spec fn grows<G: Fn(u64) -> u64>(grow: G) -> bool {
    forall|interval: u64, grown: u64| #[trigger]
        call_ensures(grow, (interval,), grown) ==> grown >= interval
}

/// What came of a look at the socket.
pub enum RecvEvent {
    /// A datagram from an IPv4 address, with the message in it if it holds one.
    Datagram { from: SocketAddrV4, message: Option<Message> },
    /// A datagram from an IPv6 address.
    Ipv6Datagram,
    /// Nothing arrived in time.
    WouldBlock,
    /// The socket failed.
    Failed,
}

/// What a look at the socket leads to.
pub struct RecvOutcome {
    /// The message that is let through and where it comes from.
    pub received: Option<(Message, SocketAddrV4)>,
    /// How long to wait from now on, where that has to be set on the socket again.
    pub read_timeout: Option<u64>,
}

/// Formats requests and responses and tells which response belongs to which request.
#[derive(Debug)]
pub struct KrpcSocket {
    pub server_mode: bool,
    pub local_addr: SocketAddrV4,
    pub inflight_requests: InflightRequests,
    pub poll_interval: u64,
    pub version: [u8; 4],
}

impl KrpcSocket {
    /// The socket bound to `local_addr`.
    pub fn new(config: &Config, local_addr: SocketAddrV4) -> (socket: Self)
        ensures
            socket.server_mode == config.server_mode,
            socket.local_addr == local_addr,
            socket.inflight_requests.next_tid == 0,
            socket.inflight_requests.requests@ == Seq::<InflightRequest>::empty(),
            socket.inflight_requests.rtt == (RttEstimates {
                estimated_rtt: MIN_REQUEST_TIMEOUT,
                deviation_rtt: 0,
            }),
            socket.inflight_requests.unwrapped(),
            socket.poll_interval == MIN_POLL_INTERVAL,
            socket.version == if config.disable_announce_signed_peers {
                LEGACY_VERSION
            } else {
                VERSION
            },
    {
        KrpcSocket {
            server_mode: config.server_mode,
            local_addr,
            inflight_requests: InflightRequests::new(),
            poll_interval: MIN_POLL_INTERVAL,
            version: if config.disable_announce_signed_peers {
                LEGACY_VERSION
            } else {
                VERSION
            },
        }
    }

    /// The address that the socket listens to.
    pub fn local_addr(&self) -> (address: SocketAddrV4)
        ensures
            address == self.local_addr,
    {
        self.local_addr
    }

    /// Whether the request with this transaction id still waits for its response.
    pub fn inflight(&self, transaction_id: &u32, now: u64) -> (inflight: bool)
        ensures
            inflight == inflight_at(
                self.inflight_requests.requests@,
                self.inflight_requests.rtt.timeout(),
                *transaction_id,
                now,
            ),
            0 < self.inflight_requests.rtt.estimated_rtt + 4
                * self.inflight_requests.rtt.deviation_rtt <= u64::MAX ==> (inflight
                <==> exists|i: int|
                0 <= i < self.inflight_requests.requests@.len() && (
                #[trigger] self.inflight_requests.requests@[i]).tid == *transaction_id && now
                    < self.inflight_requests.requests@[i].sent_at
                    + self.inflight_requests.rtt.estimated_rtt + 4
                    * self.inflight_requests.rtt.deviation_rtt),
    {
        proof {
            if 0 < self.inflight_requests.rtt.estimated_rtt + 4
                * self.inflight_requests.rtt.deviation_rtt <= u64::MAX {
                law_request_is_inflight_while_the_timeout_has_not_passed(
                    self.inflight_requests.requests@,
                    self.inflight_requests.rtt,
                    *transaction_id,
                    now,
                );
            }
        }

        match self.inflight_requests.get(*transaction_id, now) {
            Some(_) => true,
            None => false,
        }
    }

    /// Everything but the inflight requests and the poll interval is as in `before`.
    pub open spec fn same_setup(self, before: Self) -> bool {
        &&& self.server_mode == before.server_mode
        &&& self.local_addr == before.local_addr
        &&& self.version == before.version
    }

    /// The message of a request: it carries no requester ip.
    pub open spec fn request_to_send(
        self,
        transaction_id: u32,
        request: RequestSpecific,
    ) -> Message {
        Message {
            transaction_id,
            message_type: MessageType::Request(request),
            version: Some(self.version),
            read_only: !self.server_mode,
            requester_ip: None,
        }
    }

    /// The message that answers a request: it carries the address that the request came from.
    pub open spec fn answer_to_send(
        self,
        transaction_id: u32,
        message_type: MessageType,
        requester_ip: SocketAddrV4,
    ) -> Message {
        Message {
            transaction_id,
            message_type,
            version: Some(self.version),
            read_only: !self.server_mode,
            requester_ip: Some(requester_ip),
        }
    }

    /// Starts a request to `address`: returns its transaction id and the message to send there.
    /// The response is polled for eagerly. Where too many requests wait, the oldest is given up.
    pub fn request(&mut self, address: SocketAddrV4, request: RequestSpecific, now: u64) -> (sent: (
        u32,
        Message,
    ))
        ensures
            sent.0 == old(self).inflight_requests.next_tid,
            sent.1 == old(self).request_to_send(sent.0, request),
            sent.1.transaction_id == sent.0,
            sent.1.message_type == MessageType::Request(request),
            sent.1.version == Some(old(self).version),
            sent.1.read_only == !old(self).server_mode,
            sent.1.requester_ip is None,
            final(self).same_setup(*old(self)),
            final(self).server_mode == old(self).server_mode,
            final(self).local_addr == old(self).local_addr,
            final(self).version == old(self).version,
            // The request waits from now on for an answer from the address.
            final(self).inflight_requests.requests@.last().tid == sent.0,
            final(self).inflight_requests.requests@.last().to == address,
            final(self).inflight_requests.requests@.last().sent_at == now,
            sent.0 < u32::MAX ==> final(self).inflight_requests.next_tid == sent.0 + 1,
            sent.0 == u32::MAX ==> final(self).inflight_requests.next_tid == 0,
            final(self).poll_interval == MIN_POLL_INTERVAL,
            final(self).inflight_requests.next_tid == tid_after(sent.0),
            final(self).inflight_requests.requests@
                == with_room(old(self).inflight_requests.requests@).push(
                (InflightRequest { tid: sent.0, to: address, sent_at: now }),
            ),
            final(self).inflight_requests.requests@.len() <= MAX_INFLIGHT_REQUESTS,
            final(self).inflight_requests.rtt == old(self).inflight_requests.rtt,
            old(self).inflight_requests.unwrapped() ==> tids_increase(
                final(self).inflight_requests.requests@,
            ),
            old(self).inflight_requests.unwrapped() && sent.0 < u32::MAX
                ==> final(self).inflight_requests.unwrapped(),
    {
        let transaction_id = self.inflight_requests.add(address, now);
        let message = self.request_message(transaction_id, request);
        self.poll_interval = MIN_POLL_INTERVAL;
        (transaction_id, message)
    }

    /// The message that carries a response to the given address.
    pub fn response(
        &self,
        address: SocketAddrV4,
        transaction_id: u32,
        response: ResponseSpecific,
    ) -> (message: Message)
        ensures
            message == self.answer_to_send(
                transaction_id,
                MessageType::Response(response),
                address,
            ),
            message.transaction_id == transaction_id,
            message.message_type == MessageType::Response(response),
            message.version == Some(self.version),
            message.read_only == !self.server_mode,
            message.requester_ip == Some(address),
    {
        self.response_message(MessageType::Response(response), address, transaction_id)
    }

    /// The message that carries an error to the given address.
    pub fn error(
        &self,
        address: SocketAddrV4,
        transaction_id: u32,
        error: ErrorSpecific,
    ) -> (message: Message)
        ensures
            message == self.answer_to_send(transaction_id, MessageType::Error(error), address),
            message.transaction_id == transaction_id,
            message.message_type == MessageType::Error(error),
            message.version == Some(self.version),
            message.read_only == !self.server_mode,
            message.requester_ip == Some(address),
    {
        self.response_message(MessageType::Error(error), address, transaction_id)
    }

    /// Makes room before the socket is looked at: see [`InflightRequests::cleanup`].
    pub fn prepare_recv(&mut self, now: u64)
        ensures
            exists|room: usize|
                {
                    &&& #[trigger] room_given(old(self).inflight_requests.requests, room)
                    &&& if old(self).inflight_requests.requests@.len() < room {
                        final(self).inflight_requests == old(self).inflight_requests
                    } else {
                        expired_dropped(
                            old(self).inflight_requests.requests@,
                            final(self).inflight_requests.requests@,
                            old(self).inflight_requests.rtt.timeout(),
                            now,
                        )
                    }
                },
            final(self).same_setup(*old(self)),
            final(self).server_mode == old(self).server_mode,
            final(self).local_addr == old(self).local_addr,
            final(self).version == old(self).version,
            final(self).poll_interval == old(self).poll_interval,
            final(self).inflight_requests == old(self).inflight_requests
                || expired_dropped(
                old(self).inflight_requests.requests@,
                final(self).inflight_requests.requests@,
                old(self).inflight_requests.rtt.timeout(),
                now,
            ),
            final(self).inflight_requests.next_tid == old(self).inflight_requests.next_tid,
            final(self).inflight_requests.rtt == old(self).inflight_requests.rtt,
            old(self).inflight_requests.unwrapped() ==> final(self).inflight_requests.unwrapped(),
    {
        self.inflight_requests.cleanup(now);
    }

    /// The poll interval after a datagram: as short as can be while responses are expected, and
    /// half as long in a node that waits for requests.
    pub open spec fn interval_after_datagram(self) -> u64 {
        if self.poll_interval <= MIN_POLL_INTERVAL {
            self.poll_interval
        } else if self.inflight_requests.requests@.len() > 0 {
            MIN_POLL_INTERVAL
        } else if !self.server_mode {
            self.poll_interval
        } else if self.poll_interval / 2 >= MIN_POLL_INTERVAL {
            self.poll_interval / 2
        } else {
            MIN_POLL_INTERVAL
        }
    }

    /// A message that answers a request, from `from`, took its request out of the inflight ones;
    /// it is expected if there was such a request and it had been sent to where the message comes
    /// from.
    pub open spec fn answer_judged<F: Fn(u64, u64, u64) -> RttEstimates>(
        before: InflightRequests,
        after: InflightRequests,
        transaction_id: u32,
        from: SocketAddrV4,
        now: u64,
        smooth: F,
        expected: bool,
    ) -> bool {
        exists|taken: Option<InflightRequest>|
            {
                &&& #[trigger] InflightRequests::removed(
                    before,
                    after,
                    transaction_id,
                    now,
                    smooth,
                    taken,
                )
                &&& expected == (taken matches Some(request) && address_expected(request.to, from))
            }
    }

    /// What comes of the message in a datagram: a request is let through if a node of this version
    /// answers it, a response or an error if it is expected; anything else is ignored.
    pub open spec fn message_judged<F: Fn(u64, u64, u64) -> RttEstimates>(
        self,
        after: InflightRequests,
        from: SocketAddrV4,
        message: Option<Message>,
        now: u64,
        smooth: F,
        received: Option<(Message, SocketAddrV4)>,
    ) -> bool {
        match message {
            Some(m) => if from.port == 0 {
                received is None && after == self.inflight_requests
            } else {
                &&& received is Some ==> received == Some((m, from))
                &&& match m.message_type {
                    MessageType::Request(request) => {
                        &&& after == self.inflight_requests
                        &&& received is Some <==> (concerns_signed_peers(request.request_type)
                            ==> self.version != LEGACY_VERSION)
                    },
                    _ => Self::answer_judged(
                        self.inflight_requests,
                        after,
                        m.transaction_id,
                        from,
                        now,
                        smooth,
                        received is Some,
                    ),
                }
            },
            None => received is None && after == self.inflight_requests,
        }
    }

    /// Handles what came of one look at the socket.
    ///
    /// `smooth` makes new round trip estimates of the earlier ones and a sample; `grow` makes a
    /// longer poll interval of the earlier one, for when nothing arrives.
    pub fn recv_from<F: Fn(u64, u64, u64) -> RttEstimates, G: Fn(u64) -> u64>(
        &mut self,
        event: RecvEvent,
        now: u64,
        smooth: F,
        grow: G,
    ) -> (outcome: RecvOutcome)
        requires
            forall|a: u64, b: u64, c: u64| call_requires(smooth, (a, b, c)),
            forall|a: u64| call_requires(grow, (a,)),
        ensures
            final(self).same_setup(*old(self)),
            final(self).server_mode == old(self).server_mode,
            final(self).local_addr == old(self).local_addr,
            final(self).version == old(self).version,
            final(self).inflight_requests.next_tid == old(self).inflight_requests.next_tid,
            match event {
                RecvEvent::Datagram { from, message } => {
                    // Whatever is let through is what arrived, from where it came, with a port that
                    // can be answered.
                    &&& outcome.received matches Some(received) ==> message == Some(received.0)
                        && from == received.1 && from.port != 0
                    &&& message is None || from.port == 0 ==> outcome.received is None
                        && final(self).inflight_requests == old(self).inflight_requests
                    &&& match message {
                        Some(m) if from.port != 0 => match m.message_type {
                            MessageType::Request(request) => {
                                &&& final(self).inflight_requests == old(self).inflight_requests
                                &&& outcome.received is None <==> old(self).version
                                    == LEGACY_VERSION && match request.request_type {
                                    RequestTypeSpecific::GetSignedPeers(_) => true,
                                    RequestTypeSpecific::Put(put) => put.put_request_type
                                        is AnnounceSignedPeer,
                                    _ => false,
                                }
                            },
                            _ => {
                                &&& (forall|j: int|
                                    0 <= j < old(self).inflight_requests.requests@.len() ==> (
                                    #[trigger] old(self).inflight_requests.requests@[j]).tid
                                        != m.transaction_id) ==> outcome.received is None
                                    && final(self).inflight_requests == old(self).inflight_requests
                                &&& (exists|j: int|
                                    0 <= j < old(self).inflight_requests.requests@.len() && (
                                    #[trigger] old(self).inflight_requests.requests@[j]).tid
                                        == m.transaction_id) ==> exists|i: int|
                                    {
                                        let request = #[trigger] old(
                                            self,
                                        ).inflight_requests.requests@[i];
                                        &&& 0 <= i < old(self).inflight_requests.requests@.len()
                                        &&& request.tid == m.transaction_id
                                        &&& final(self).inflight_requests.requests@ == old(
                                            self,
                                        ).inflight_requests.requests@.remove(i)
                                        &&& outcome.received is Some <==> request.to.port
                                            == from.port && (request.to.ip == from.ip || (
                                        request.to.ip[0] == 0 && request.to.ip[1] == 0
                                            && request.to.ip[2] == 0 && request.to.ip[3] == 0))
                                        &&& now < request.sent_at + MIN_REQUEST_TIMEOUT
                                            ==> final(self).inflight_requests.rtt == old(self).inflight_requests.rtt
                                        &&& now >= request.sent_at + MIN_REQUEST_TIMEOUT ==> exists|made: RttEstimates|
                                            {
                                                &&& #[trigger] call_ensures(
                                                    smooth,
                                                    (
                                                        old(self).inflight_requests.rtt.estimated_rtt,
                                                        old(self).inflight_requests.rtt.deviation_rtt,
                                                        (now - request.sent_at) as u64,
                                                    ),
                                                    made,
                                                )
                                                &&& final(self).inflight_requests.rtt.deviation_rtt == made.deviation_rtt
                                                &&& final(self).inflight_requests.rtt.estimated_rtt
                                                    == if made.estimated_rtt >= MIN_REQUEST_TIMEOUT {
                                                    made.estimated_rtt
                                                } else {
                                                    MIN_REQUEST_TIMEOUT
                                                }
                                            }
                                    }
                            },
                        },
                        _ => true,
                    }
                    // More eagerness while responses are expected than while requests are.
                    &&& old(self).poll_interval <= MIN_POLL_INTERVAL ==> final(self).poll_interval
                        == old(self).poll_interval && outcome.read_timeout is None
                    &&& old(self).poll_interval > MIN_POLL_INTERVAL ==> outcome.read_timeout
                        == Some(final(self).poll_interval) && if old(
                        self,
                    ).inflight_requests.requests@.len() > 0 {
                        final(self).poll_interval == MIN_POLL_INTERVAL
                    } else if old(self).server_mode {
                        &&& final(self).poll_interval >= MIN_POLL_INTERVAL
                        &&& final(self).poll_interval > MIN_POLL_INTERVAL ==> 2
                            * final(self).poll_interval <= old(self).poll_interval <= 2
                            * final(self).poll_interval + 1
                        &&& final(self).poll_interval == MIN_POLL_INTERVAL ==> old(
                            self,
                        ).poll_interval <= 2 * MIN_POLL_INTERVAL + 1
                    } else {
                        final(self).poll_interval == old(self).poll_interval
                    }
                },
                _ => outcome.received is None && final(self).inflight_requests == old(
                    self,
                ).inflight_requests,
            },
            old(self).inflight_requests.unwrapped() ==> final(self).inflight_requests.unwrapped(),
            timeout_follows(old(self).inflight_requests.rtt) ==> timeout_follows(
                final(self).inflight_requests.rtt,
            ),
            grows(grow) && MIN_POLL_INTERVAL <= old(self).poll_interval <= MAX_POLL_INTERVAL
                ==> MIN_POLL_INTERVAL <= final(self).poll_interval <= MAX_POLL_INTERVAL,
            match event {
                RecvEvent::Datagram { from, message } => {
                    &&& final(self).poll_interval == old(self).interval_after_datagram()
                    &&& outcome.read_timeout == if old(self).poll_interval > MIN_POLL_INTERVAL {
                        Some(final(self).poll_interval)
                    } else {
                        None
                    }
                    &&& old(self).message_judged(
                        final(self).inflight_requests,
                        from,
                        message,
                        now,
                        smooth,
                        outcome.received,
                    )
                },
                RecvEvent::WouldBlock => {
                    &&& final(self).inflight_requests == old(self).inflight_requests
                    &&& outcome.received is None
                    &&& if old(self).poll_interval < MAX_POLL_INTERVAL {
                        &&& exists|grown: u64|
                            {
                                &&& #[trigger] call_ensures(
                                    grow,
                                    (old(self).poll_interval,),
                                    grown,
                                )
                                &&& final(self).poll_interval == if grown < MAX_POLL_INTERVAL {
                                    grown
                                } else {
                                    MAX_POLL_INTERVAL
                                }
                            }
                        &&& outcome.read_timeout == Some(final(self).poll_interval)
                    } else {
                        &&& final(self).poll_interval == old(self).poll_interval
                        &&& outcome.read_timeout is None
                    }
                    &&& grows(grow) && old(self).poll_interval <= MAX_POLL_INTERVAL
                        ==> old(self).poll_interval <= final(self).poll_interval
                        <= MAX_POLL_INTERVAL
                },
                _ => {
                    &&& *final(self) == *old(self)
                    &&& outcome.received is None
                    &&& outcome.read_timeout is None
                },
            },
    {
        match event {
            RecvEvent::Datagram { from, message } => {
                let mut read_timeout: Option<u64> = None;
                if self.poll_interval > MIN_POLL_INTERVAL {
                    // More eagerness while responses are expected than while requests are.
                    if !self.inflight_requests.is_empty() {
                        self.poll_interval = MIN_POLL_INTERVAL;
                    } else if self.server_mode {
                        let half: u64 = self.poll_interval / 2;
                        self.poll_interval = if half >= MIN_POLL_INTERVAL {
                            half
                        } else {
                            MIN_POLL_INTERVAL
                        };
                    }
                    read_timeout = Some(self.poll_interval);
                }
                if from.port == 0 {
                    return RecvOutcome { received: None, read_timeout };
                }
                match message {
                    Some(message) => {
                        let should_return = match &message.message_type {
                            MessageType::Request(request) => supports_request(
                                &self.version,
                                request,
                            ),
                            _ => self.is_expected_response(&message, &from, now, smooth),
                        };
                        if should_return {
                            RecvOutcome { received: Some((message, from)), read_timeout }
                        } else {
                            RecvOutcome { received: None, read_timeout }
                        }
                    },
                    None => RecvOutcome { received: None, read_timeout },
                }
            },
            RecvEvent::WouldBlock => {
                if self.poll_interval < MAX_POLL_INTERVAL {
                    let grown: u64 = grow(self.poll_interval);
                    self.poll_interval = if grown < MAX_POLL_INTERVAL {
                        grown
                    } else {
                        MAX_POLL_INTERVAL
                    };
                    RecvOutcome { received: None, read_timeout: Some(self.poll_interval) }
                } else {
                    RecvOutcome { received: None, read_timeout: None }
                }
            },
            // Datagrams from IPv6 addresses are not supported.
            RecvEvent::Ipv6Datagram => RecvOutcome { received: None, read_timeout: None },
            RecvEvent::Failed => RecvOutcome { received: None, read_timeout: None },
        }
    }

    /// Whether a response or an error answers an inflight request and comes from where the
    /// request was sent to. The request is no longer inflight afterwards.
    pub fn is_expected_response<F: Fn(u64, u64, u64) -> RttEstimates>(
        &mut self,
        message: &Message,
        from: &SocketAddrV4,
        now: u64,
        smooth: F,
    ) -> (expected: bool)
        requires
            forall|a: u64, b: u64, c: u64| call_requires(smooth, (a, b, c)),
        ensures
            // An answer to no request that waits changes nothing; another one takes such a request
            // out, and is expected if that was sent to where the answer comes from.
            (forall|j: int|
                0 <= j < old(self).inflight_requests.requests@.len() ==> (#[trigger] old(
                    self,
                ).inflight_requests.requests@[j]).tid != message.transaction_id) ==> !expected
                && final(self).inflight_requests == old(self).inflight_requests,
            (exists|j: int|
                0 <= j < old(self).inflight_requests.requests@.len() && (#[trigger] old(
                    self,
                ).inflight_requests.requests@[j]).tid == message.transaction_id) ==> exists|i: int|
                {
                    let request = #[trigger] old(self).inflight_requests.requests@[i];
                    &&& 0 <= i < old(self).inflight_requests.requests@.len()
                    &&& request.tid == message.transaction_id
                    &&& final(self).inflight_requests.requests@ == old(
                        self,
                    ).inflight_requests.requests@.remove(i)
                    &&& expected == (request.to.port == from.port && (request.to.ip == from.ip || (
                    request.to.ip[0] == 0 && request.to.ip[1] == 0 && request.to.ip[2] == 0
                        && request.to.ip[3] == 0)))
                    &&& now < request.sent_at + MIN_REQUEST_TIMEOUT
                        ==> final(self).inflight_requests.rtt == old(self).inflight_requests.rtt
                    &&& now >= request.sent_at + MIN_REQUEST_TIMEOUT ==> exists|made: RttEstimates|
                        {
                            &&& #[trigger] call_ensures(
                                smooth,
                                (
                                    old(self).inflight_requests.rtt.estimated_rtt,
                                    old(self).inflight_requests.rtt.deviation_rtt,
                                    (now - request.sent_at) as u64,
                                ),
                                made,
                            )
                            &&& final(self).inflight_requests.rtt.deviation_rtt == made.deviation_rtt
                            &&& final(self).inflight_requests.rtt.estimated_rtt
                                == if made.estimated_rtt >= MIN_REQUEST_TIMEOUT {
                                made.estimated_rtt
                            } else {
                                MIN_REQUEST_TIMEOUT
                            }
                        }
                },
            final(self).inflight_requests.next_tid == old(self).inflight_requests.next_tid,
            final(self).server_mode == old(self).server_mode,
            final(self).local_addr == old(self).local_addr,
            final(self).version == old(self).version,
            final(self).same_setup(*old(self)),
            final(self).poll_interval == old(self).poll_interval,
            old(self).inflight_requests.unwrapped() ==> final(self).inflight_requests.unwrapped(),
            timeout_follows(old(self).inflight_requests.rtt) ==> timeout_follows(
                final(self).inflight_requests.rtt,
            ),
            Self::answer_judged(
                old(self).inflight_requests,
                final(self).inflight_requests,
                message.transaction_id,
                *from,
                now,
                smooth,
                expected,
            ),
    {
        match self.inflight_requests.remove(message.transaction_id, now, smooth) {
            Some(request) => compare_socket_addr(&request.to, from),
            None => false,
        }
    }

    /// The message of a request.
    fn request_message(&self, transaction_id: u32, message: RequestSpecific) -> (request: Message)
        ensures
            request == self.request_to_send(transaction_id, message),
    {
        Message {
            transaction_id,
            message_type: MessageType::Request(message),
            version: Some(self.version),
            read_only: !self.server_mode,
            requester_ip: None,
        }
    }

    /// The message that answers the request with the given transaction id.
    fn response_message(
        &self,
        message: MessageType,
        requester_ip: SocketAddrV4,
        request_tid: u32,
    ) -> (answer: Message)
        ensures
            answer == self.answer_to_send(request_tid, message, requester_ip),
    {
        Message {
            transaction_id: request_tid,
            message_type: message,
            version: Some(self.version),
            read_only: !self.server_mode,
            // Only of use in responses.
            requester_ip: Some(requester_ip),
        }
    }
}

/// A response or an error is let through exactly if a request with its transaction id is inflight
/// that was sent to where it comes from. Afterwards no such request is inflight: a second answer
/// is ignored, and so is the answer that follows one from a wrong address.
pub proof fn law_answer_is_let_through_once<F: Fn(u64, u64, u64) -> RttEstimates>(
    before: InflightRequests,
    after: InflightRequests,
    transaction_id: u32,
    from: SocketAddrV4,
    now: u64,
    smooth: F,
    expected: bool,
)
    requires
        tids_distinct(before.requests@),
        KrpcSocket::answer_judged(before, after, transaction_id, from, now, smooth, expected),
    ensures
        expected <==> exists|i: int|
            0 <= i < before.requests@.len() && (#[trigger] before.requests@[i]).tid
                == transaction_id && address_expected(before.requests@[i].to, from),
        !awaits(after.requests@, transaction_id),
{
    let taken = choose|taken: Option<InflightRequest>|
        {
            &&& #[trigger] InflightRequests::removed(
                before,
                after,
                transaction_id,
                now,
                smooth,
                taken,
            )
            &&& expected == (taken matches Some(request) && address_expected(request.to, from))
        };
    match taken {
        Some(request) => {
            let i = choose|i: int|
                0 <= i < before.requests@.len() && #[trigger] before.requests@[i] == request
                    && after.requests@ == before.requests@.remove(i);
            law_request_is_taken_once(before.requests@, i, tid_after(transaction_id));
            assert forall|j: int|
                0 <= j < before.requests@.len() && (#[trigger] before.requests@[j]).tid
                    == transaction_id implies j == i by {
                assert(before.requests@[i].tid == transaction_id);
            }
        },
        None => {},
    }
}

/// The answer to a request that was just sent is let through if it comes from where the request
/// went to, whether or not the transaction ids have started over.
pub proof fn law_own_request_is_answered<F: Fn(u64, u64, u64) -> RttEstimates>(
    before: InflightRequests,
    sent: InflightRequests,
    after: InflightRequests,
    request: InflightRequest,
    now: u64,
    smooth: F,
    expected: bool,
)
    requires
        tids_distinct(before.requests@),
        !awaits(before.requests@, request.tid),
        sent.requests@ == with_room(before.requests@).push(request),
        KrpcSocket::answer_judged(sent, after, request.tid, request.to, now, smooth, expected),
    ensures
        expected,
{
    law_ids_stay_distinct(before.requests@, request, 0, 0);
    assert(sent.requests@[with_room(before.requests@).len() as int] == request);
    law_answer_is_let_through_once(sent, after, request.tid, request.to, now, smooth, expected);
}

/// A request that one socket sends is let through by another one as it was sent, unless it concerns
/// signed peers and the other one is of the legacy version, which ignores it.
pub proof fn law_request_reaches_its_peer<F: Fn(u64, u64, u64) -> RttEstimates>(
    sender: KrpcSocket,
    receiver: KrpcSocket,
    after: InflightRequests,
    transaction_id: u32,
    request: RequestSpecific,
    from: SocketAddrV4,
    now: u64,
    smooth: F,
    received: Option<(Message, SocketAddrV4)>,
)
    requires
        from.port != 0,
        receiver.message_judged(
            after,
            from,
            Some(sender.request_to_send(transaction_id, request)),
            now,
            smooth,
            received,
        ),
    ensures
        received == if concerns_signed_peers(request.request_type) && receiver.version
            == LEGACY_VERSION {
            None
        } else {
            Some((sender.request_to_send(transaction_id, request), from))
        },
        after == receiver.inflight_requests,
{
}

/// The response to a request that was just sent, from the socket that the request went to, is let
/// through as it was sent; the same response from an address that the request was not sent to is
/// ignored.
pub proof fn law_response_reaches_the_requester<F: Fn(u64, u64, u64) -> RttEstimates>(
    before: InflightRequests,
    requester: KrpcSocket,
    responder: KrpcSocket,
    after: InflightRequests,
    request: InflightRequest,
    response: ResponseSpecific,
    requester_ip: SocketAddrV4,
    from: SocketAddrV4,
    now: u64,
    smooth: F,
    received: Option<(Message, SocketAddrV4)>,
)
    requires
        tids_distinct(before.requests@),
        !awaits(before.requests@, request.tid),
        requester.inflight_requests.requests@ == with_room(before.requests@).push(request),
        from.port != 0,
        requester.message_judged(
            after,
            from,
            Some(
                responder.answer_to_send(
                    request.tid,
                    MessageType::Response(response),
                    requester_ip,
                ),
            ),
            now,
            smooth,
            received,
        ),
    ensures
        received == if address_expected(request.to, from) {
            Some(
                (
                    responder.answer_to_send(
                        request.tid,
                        MessageType::Response(response),
                        requester_ip,
                    ),
                    from,
                ),
            )
        } else {
            None
        },
        !awaits(after.requests@, request.tid),
{
    let sent = requester.inflight_requests;
    law_ids_stay_distinct(before.requests@, request, 0, 0);
    law_answer_is_let_through_once(sent, after, request.tid, from, now, smooth, received is Some);
    lemma_with_room(before.requests@, request.tid);
    let kept = with_room(before.requests@);
    let last = kept.len() as int;
    assert(sent.requests@[last] == request);
    assert forall|i: int| 0 <= i < sent.requests@.len() && (#[trigger] sent.requests@[i]).tid
        == request.tid implies i == last by {
        if i < last {
            assert(sent.requests@[i] == kept[i]);
        }
    }
}

/// A datagram keeps the poll interval within its range.
pub proof fn law_poll_interval_stays_in_range(socket: KrpcSocket)
    requires
        MIN_POLL_INTERVAL <= socket.poll_interval <= MAX_POLL_INTERVAL,
    ensures
        MIN_POLL_INTERVAL <= socket.interval_after_datagram() <= socket.poll_interval,
{
}

/// Whatever a socket sends, a request, a response or an error, says exactly if it is not in server
/// mode that it is read-only, and carries its version and the given transaction id. Only answers
/// carry the address of whom they answer.
pub proof fn law_messages_say_who_sends_them(
    socket: KrpcSocket,
    transaction_id: u32,
    request: RequestSpecific,
    answer: MessageType,
    requester_ip: SocketAddrV4,
)
    ensures
        ({
            let sent = socket.request_to_send(transaction_id, request);
            &&& sent.transaction_id == transaction_id
            &&& sent.message_type == MessageType::Request(request)
            &&& sent.version == Some(socket.version)
            &&& sent.read_only <==> !socket.server_mode
            &&& sent.requester_ip is None
        }),
        ({
            let sent = socket.answer_to_send(transaction_id, answer, requester_ip);
            &&& sent.transaction_id == transaction_id
            &&& sent.message_type == answer
            &&& sent.version == Some(socket.version)
            &&& sent.read_only <==> !socket.server_mode
            &&& sent.requester_ip == Some(requester_ip)
        }),
{
}

/// The socket is looked at every tenth of a millisecond at most, and every half second at least.
pub proof fn law_poll_intervals_are_a_tenth_of_a_millisecond_to_half_a_second()
    ensures
        10 * MIN_POLL_INTERVAL == 1_000_000,
        2 * MAX_POLL_INTERVAL == 1_000_000_000,
        2 * MIN_REQUEST_TIMEOUT == 1_000_000_000,
        DEFAULT_PORT == 6881,
        MTU == 8 * 1024,
{
}

/// Two sockets that differ in their mode only send messages that differ in the read-only mark only.
pub proof fn law_mode_changes_the_read_only_mark_only(
    server: KrpcSocket,
    client: KrpcSocket,
    transaction_id: u32,
    request: RequestSpecific,
)
    requires
        server.server_mode,
        !client.server_mode,
        server.version == client.version,
    ensures
        !server.request_to_send(transaction_id, request).read_only,
        client.request_to_send(transaction_id, request) == (Message {
            read_only: true,
            ..server.request_to_send(transaction_id, request)
        }),
{
}

/// A node of the legacy version ignores requests for signed peers and announcements of them, and
/// lets every other request through; a node of any other version lets every request through.
pub proof fn law_only_legacy_nodes_ignore_requests<F: Fn(u64, u64, u64) -> RttEstimates>(
    receiver: KrpcSocket,
    after: InflightRequests,
    message: Message,
    request: RequestSpecific,
    from: SocketAddrV4,
    now: u64,
    smooth: F,
    received: Option<(Message, SocketAddrV4)>,
)
    requires
        message.message_type == MessageType::Request(request),
        from.port != 0,
        receiver.message_judged(after, from, Some(message), now, smooth, received),
    ensures
        after == receiver.inflight_requests,
        receiver.version != LEGACY_VERSION ==> received == Some((message, from)),
        receiver.version == LEGACY_VERSION ==> match request.request_type {
            RequestTypeSpecific::GetSignedPeers(_) => received is None,
            RequestTypeSpecific::Put(put) => if put.put_request_type is AnnounceSignedPeer {
                received is None
            } else {
                received == Some((message, from))
            },
            _ => received == Some((message, from)),
        },
{
}

/// A datagram never makes the socket less eager: it is looked at as often as can be while responses
/// are expected, twice as often in a node that waits for requests, and as before in any other node.
pub proof fn law_datagrams_make_the_socket_eager(socket: KrpcSocket)
    requires
        socket.poll_interval > MIN_POLL_INTERVAL,
    ensures
        socket.inflight_requests.requests@.len() > 0 ==> socket.interval_after_datagram()
            == MIN_POLL_INTERVAL,
        socket.inflight_requests.requests@.len() == 0 && !socket.server_mode
            ==> socket.interval_after_datagram() == socket.poll_interval,
        socket.inflight_requests.requests@.len() == 0 && socket.server_mode && socket.poll_interval
            >= 2 * MIN_POLL_INTERVAL ==> socket.poll_interval - 1 <= 2
            * socket.interval_after_datagram() <= socket.poll_interval,
        socket.inflight_requests.requests@.len() == 0 && socket.server_mode && socket.poll_interval
            < 2 * MIN_POLL_INTERVAL ==> socket.interval_after_datagram() == MIN_POLL_INTERVAL,
{
}

} // verus!
