//! Requests that wait for their response.
//!
//! Times are nanoseconds since some fixed moment, durations are nanoseconds.

use vstd::prelude::*;

use crate::address::SocketAddrV4;
use crate::sequences::lemma_filter_same;

verus! {

/// The request timeout before any round trip was measured, and the shortest round trip that
/// changes the estimates: half a second.
pub const MIN_REQUEST_TIMEOUT: u64 = 500_000_000;

/// The time that passed at `now` since an earlier moment; none where that moment is yet to come.
pub open spec fn elapsed(now: u64, since: u64) -> u64 {
    if now >= since {
        (now - since) as u64
    } else {
        0
    }
}

/// The time that passed at `now` since an earlier moment.
pub fn elapsed_since(now: u64, since: u64) -> (duration: u64)
    ensures
        duration == elapsed(now, since),
        now >= since ==> since + duration == now,
        now < since ==> duration == 0,
{
    if now >= since {
        now - since
    } else {
        0
    }
}

/// A request that was sent and not answered yet.
#[derive(Clone, Copy, Debug, PartialEq, Eq)]
pub struct InflightRequest {
    pub tid: u32,
    pub to: SocketAddrV4,
    pub sent_at: u64,
}

/// The most requests that wait for their response.
pub const MAX_INFLIGHT_REQUESTS: usize = 65536;

/// What the measured round trips say: the smoothed round trip time and its deviation.
#[derive(Clone, Copy, Debug, PartialEq, Eq, Structural)]
pub struct RttEstimates {
    pub estimated_rtt: u64,
    pub deviation_rtt: u64,
}

impl RttEstimates {
    /// The time after which a request counts as lost: the smoothed round trip time and four times
    /// its deviation, capped at the greatest duration.
    pub open spec fn timeout(self) -> u64 {
        if self.estimated_rtt + 4 * self.deviation_rtt <= u64::MAX {
            (self.estimated_rtt + 4 * self.deviation_rtt) as u64
        } else {
            u64::MAX
        }
    }

    /// These estimates, the smoothed round trip time raised to the shortest timeout if it is below.
    pub open spec fn raised(self) -> Self {
        if self.estimated_rtt < MIN_REQUEST_TIMEOUT {
            RttEstimates { estimated_rtt: MIN_REQUEST_TIMEOUT, ..self }
        } else {
            self
        }
    }
}

/// The requests that wait for their response.
///
/// Requests are appended with increasing transaction ids, and so with increasing times, until the
/// ids start over; up to then a request is found by halving. A request that is not found that way
/// is looked for among all of them. There are never more than [`MAX_INFLIGHT_REQUESTS`]: a full
/// list gives its oldest request up for a new one.
#[derive(Debug)]
pub struct InflightRequests {
    pub next_tid: u32,
    pub requests: Vec<InflightRequest>,
    pub rtt: RttEstimates,
}

/// The transaction ids increase.
pub open spec fn tids_increase(requests: Seq<InflightRequest>) -> bool {
    forall|i: int, j: int|
        #![trigger requests[i], requests[j]]
        0 <= i < j < requests.len() ==> requests[i].tid < requests[j].tid
}

/// No two requests have the same transaction id.
pub open spec fn tids_distinct(requests: Seq<InflightRequest>) -> bool {
    forall|i: int, j: int|
        #![trigger requests[i], requests[j]]
        0 <= i < j < requests.len() ==> requests[i].tid != requests[j].tid
}

/// No request was sent before one that precedes it.
pub open spec fn sent_in_order(requests: Seq<InflightRequest>) -> bool {
    forall|i: int, j: int|
        #![trigger requests[i], requests[j]]
        0 <= i < j < requests.len() ==> requests[i].sent_at <= requests[j].sent_at
}

/// The requests that are kept when one more is to be added: a full list gives its oldest up.
pub open spec fn with_room(requests: Seq<InflightRequest>) -> Seq<InflightRequest> {
    if requests.len() < MAX_INFLIGHT_REQUESTS {
        requests
    } else {
        requests.skip(requests.len() - MAX_INFLIGHT_REQUESTS + 1)
    }
}

/// Some request has the transaction id `tid`.
pub open spec fn awaits(requests: Seq<InflightRequest>, tid: u32) -> bool {
    exists|i: int| 0 <= i < requests.len() && (#[trigger] requests[i]).tid == tid
}

/// Some request with the transaction id `tid` has not timed out at `now`.
pub open spec fn inflight_at(
    requests: Seq<InflightRequest>,
    timeout: u64,
    tid: u32,
    now: u64,
) -> bool {
    exists|i: int|
        0 <= i < requests.len() && (#[trigger] requests[i]).tid == tid && elapsed(
            now,
            requests[i].sent_at,
        ) < timeout
}

/// The transaction id after `tid`: the ids start over after the greatest.
pub open spec fn tid_after(tid: u32) -> u32 {
    if tid == u32::MAX {
        0
    } else {
        (tid + 1) as u32
    }
}

/// `after` is what is left of `before` when expired requests are dropped from the front: where the
/// requests stand in the order of their times, those that are dropped waited at least `timeout`
/// and those that are kept waited at most `timeout`.
pub open spec fn expired_dropped(
    before: Seq<InflightRequest>,
    after: Seq<InflightRequest>,
    timeout: u64,
    now: u64,
) -> bool {
    exists|n: int| #[trigger] expired_dropped_at(before, after, timeout, now, n)
}

/// The first `n` requests are dropped as expired.
pub open spec fn expired_dropped_at(
    before: Seq<InflightRequest>,
    after: Seq<InflightRequest>,
    timeout: u64,
    now: u64,
    n: int,
) -> bool {
    &&& 0 <= n <= before.len()
    &&& after == before.skip(n)
    &&& sent_in_order(before) ==> {
        &&& forall|i: int|
            0 <= i < n ==> elapsed(now, (#[trigger] before[i]).sent_at) >= timeout
        &&& forall|i: int|
            n <= i < before.len() ==> elapsed(now, (#[trigger] before[i]).sent_at) <= timeout
    }
}

/// Calls `Vec::capacity`: how many requests fit without a new allocation, which is up to the
/// allocator and at least as many as there are.
#[verifier::external_body]
fn capacity(requests: &Vec<InflightRequest>) -> (capacity: usize)
    ensures
        capacity >= requests@.len(),
{
    requests.capacity()
}

/// The allocator gave room for `room` requests.
pub closed spec fn room_given(requests: Vec<InflightRequest>, room: usize) -> bool {
    call_ensures(capacity, (&requests,), room)
}

/// The room that was given is what `Vec::capacity` says.
proof fn law_room_is_the_capacity(requests: Vec<InflightRequest>, room: usize)
    ensures
        room_given(requests, room) == call_ensures(capacity, (&requests,), room),
        room_given(requests, room) ==> room >= requests@.len(),
{
}

/// Takes the first `n` requests out; the others stay in order.
fn drop_front(requests: &mut Vec<InflightRequest>, n: usize)
    requires
        n <= old(requests)@.len(),
    ensures
        final(requests)@ == old(requests)@.skip(n as int),
{
    let len: usize = requests.len();
    let kept: usize = len - n;
    let mut i: usize = 0;
    while i < kept
        invariant
            i <= kept,
            kept + n == len == requests@.len() == old(requests)@.len(),
            forall|j: int| 0 <= j < i ==> #[trigger] requests@[j] == old(requests)@[j + n],
            forall|j: int| i <= j < requests@.len() ==> #[trigger] requests@[j] == old(requests)@[j],
        decreases kept - i,
    {
        let request = requests[i + n];
        requests.set(i, request);
        i = i + 1;
    }
    requests.truncate(kept);
    assert(requests@ =~= old(requests)@.skip(n as int));
}

impl InflightRequests {
    /// The transaction ids increase and the next one is greater than all of them.
    pub open spec fn unwrapped(self) -> bool {
        &&& tids_increase(self.requests@)
        &&& forall|i: int|
            0 <= i < self.requests@.len() ==> (#[trigger] self.requests@[i]).tid < self.next_tid
    }

    /// The round trip of length `sample` is accounted for in `after`: a short one changes nothing,
    /// another one gives the estimates that `smooth` makes of the earlier ones and the sample.
    /// Since short ones change nothing, the smoothed round trip time is never below the shortest
    /// timeout, and rounding is not let bring it below.
    pub open spec fn rtt_updated<F: Fn(u64, u64, u64) -> RttEstimates>(
        before: RttEstimates,
        after: RttEstimates,
        sample: u64,
        smooth: F,
    ) -> bool {
        if sample < MIN_REQUEST_TIMEOUT {
            after == before
        } else {
            exists|made: RttEstimates|
                #[trigger] call_ensures(
                    smooth,
                    (before.estimated_rtt, before.deviation_rtt, sample),
                    made,
                ) && after == made.raised()
        }
    }

    /// The request `key` was taken out of `before`, and `after` is left; or no request was found.
    pub open spec fn removed<F: Fn(u64, u64, u64) -> RttEstimates>(
        before: InflightRequests,
        after: InflightRequests,
        key: u32,
        now: u64,
        smooth: F,
        taken: Option<InflightRequest>,
    ) -> bool {
        &&& after.next_tid == before.next_tid
        &&& match taken {
            Some(request) => {
                &&& exists|i: int|
                    0 <= i < before.requests@.len() && #[trigger] before.requests@[i] == request
                        && after.requests@ == before.requests@.remove(i)
                &&& request.tid == key
                &&& Self::rtt_updated(before.rtt, after.rtt, elapsed(now, request.sent_at), smooth)
            },
            None => {
                &&& after == before
                &&& !awaits(before.requests@, key)
            },
        }
    }

    /// No requests, and no round trip measured.
    pub fn new() -> (inflight: Self)
        ensures
            inflight.next_tid == 0,
            inflight.requests@ == Seq::<InflightRequest>::empty(),
            inflight.rtt == (RttEstimates {
                estimated_rtt: MIN_REQUEST_TIMEOUT,
                deviation_rtt: 0,
            }),
            timeout_follows(inflight.rtt),
            inflight.unwrapped(),
    {
        InflightRequests {
            next_tid: 0,
            requests: Vec::new(),
            rtt: RttEstimates {
                estimated_rtt: MIN_REQUEST_TIMEOUT,
                deviation_rtt: 0,
            },
        }
    }

    /// Increments `next_tid` and returns the previous value.
    pub fn tid(&mut self) -> (tid: u32)
        ensures
            tid == old(self).next_tid,
            final(self).next_tid == tid_after(tid),
            tid < u32::MAX ==> final(self).next_tid == tid + 1,
            tid == u32::MAX ==> final(self).next_tid == 0,
            final(self).requests == old(self).requests,
            final(self).rtt == old(self).rtt,
    {
        // Freed transaction ids are not used again, so that both the ids and the times of the
        // requests stay sorted.
        let tid = self.next_tid;
        self.next_tid = if tid == u32::MAX {
            0
        } else {
            tid + 1
        };
        tid
    }

    /// The time after which a request counts as lost.
    pub fn request_timeout(&self) -> (timeout: u64)
        ensures
            timeout == self.rtt.timeout(),
            self.rtt.estimated_rtt + 4 * self.rtt.deviation_rtt <= u64::MAX ==> timeout
                == self.rtt.estimated_rtt + 4 * self.rtt.deviation_rtt,
            self.rtt.estimated_rtt + 4 * self.rtt.deviation_rtt > u64::MAX ==> timeout == u64::MAX,
    {
        let timeout: u128 = self.rtt.estimated_rtt as u128 + 4 * self.rtt.deviation_rtt as u128;
        if timeout <= u64::MAX as u128 {
            timeout as u64
        } else {
            u64::MAX
        }
    }

    /// Whether no request waits for its response.
    pub fn is_empty(&self) -> (empty: bool)
        ensures
            empty == (self.requests@.len() == 0),
    {
        self.requests.len() == 0
    }

    /// The place of a request `tid`, if there is one; or else, where the ids increase, the place
    /// where it would stand.
    pub fn find_by_tid(&self, tid: u32) -> (place: Result<usize, usize>)
        ensures
            match place {
                Ok(i) => i < self.requests@.len() && self.requests@[i as int].tid == tid,
                Err(i) => {
                    &&& !awaits(self.requests@, tid)
                    &&& forall|j: int|
                        0 <= j < self.requests@.len() ==> (#[trigger] self.requests@[j]).tid != tid
                    &&& i <= self.requests@.len()
                    &&& tids_increase(self.requests@) ==> {
                        &&& forall|j: int| 0 <= j < i ==> (#[trigger] self.requests@[j]).tid < tid
                        &&& forall|j: int|
                            i <= j < self.requests@.len() ==> (#[trigger] self.requests@[j]).tid
                                > tid
                    }
                },
            },
    {
        let mut low: usize = 0;
        let mut high: usize = self.requests.len();
        while low < high
            invariant
                low <= high <= self.requests@.len(),
                tids_increase(self.requests@) ==> {
                    &&& forall|j: int| 0 <= j < low ==> (#[trigger] self.requests@[j]).tid < tid
                    &&& forall|j: int|
                        high <= j < self.requests@.len() ==> (#[trigger] self.requests@[j]).tid
                            > tid
                },
            decreases high - low,
        {
            let middle: usize = low + (high - low) / 2;
            let found: u32 = self.requests[middle].tid;
            if found == tid {
                return Ok(middle);
            }
            if found < tid {
                low = middle + 1;
            } else {
                high = middle;
            }
        }
        // Halving can miss a request once the ids have started over.
        let mut i: usize = 0;
        while i < self.requests.len()
            invariant
                i <= self.requests@.len(),
                forall|j: int| 0 <= j < i ==> (#[trigger] self.requests@[j]).tid != tid,
            decreases self.requests@.len() - i,
        {
            if self.requests[i].tid == tid {
                return Ok(i);
            }
            i = i + 1;
        }
        Err(low)
    }

    /// A request `key` that has not timed out at `now`, if there is one.
    pub fn get(&self, key: u32, now: u64) -> (request: Option<&InflightRequest>)
        ensures
            match request {
                Some(r) => self.requests@.contains(*r) && r.tid == key && elapsed(now, r.sent_at)
                    < self.rtt.timeout(),
                None => !inflight_at(self.requests@, self.rtt.timeout(), key, now),
            },
            0 < self.rtt.estimated_rtt + 4 * self.rtt.deviation_rtt <= u64::MAX ==> match request {
                Some(r) => {
                    &&& r.tid == key
                    &&& self.requests@.contains(*r)
                    &&& now < r.sent_at + self.rtt.estimated_rtt + 4 * self.rtt.deviation_rtt
                },
                None => forall|j: int|
                    0 <= j < self.requests@.len() && (#[trigger] self.requests@[j]).tid == key
                        ==> now >= self.requests@[j].sent_at + self.rtt.estimated_rtt + 4
                        * self.rtt.deviation_rtt,
            },
    {
        match self.find_by_tid(key) {
            Ok(index) => {
                let request = &self.requests[index];
                if elapsed_since(now, request.sent_at) < self.request_timeout() {
                    assert(self.requests@[index as int] == *request);
                    return Some(request);
                }
            },
            Err(_) => {
                return None;
            },
        }
        // Once the ids have started over, a later request can have the id of one that timed out.
        let mut i: usize = 0;
        while i < self.requests.len()
            invariant
                i <= self.requests@.len(),
                forall|j: int|
                    0 <= j < i && (#[trigger] self.requests@[j]).tid == key ==> elapsed(
                        now,
                        self.requests@[j].sent_at,
                    ) >= self.rtt.timeout(),
            decreases self.requests@.len() - i,
        {
            let request = &self.requests[i];
            if request.tid == key && elapsed_since(now, request.sent_at) < self.request_timeout() {
                assert(self.requests@[i as int] == *request);
                return Some(request);
            }
            i = i + 1;
        }
        None
    }

    /// Adds a request with a new transaction id, and returns that id. A full list gives its oldest
    /// request up.
    pub fn add(&mut self, to: SocketAddrV4, now: u64) -> (tid: u32)
        ensures
            tid == old(self).next_tid,
            final(self).next_tid == tid_after(tid),
            final(self).requests@ == with_room(old(self).requests@).push(
                (InflightRequest { tid, to, sent_at: now }),
            ),
            final(self).requests@.len() <= MAX_INFLIGHT_REQUESTS,
            tid < u32::MAX ==> final(self).next_tid == tid + 1,
            tid == u32::MAX ==> final(self).next_tid == 0,
            // The new request comes last, after as many of the latest earlier ones as there is room
            // for.
            final(self).requests@.len() == if old(self).requests@.len() < 65535 {
                old(self).requests@.len() + 1
            } else {
                65536
            },
            final(self).requests@.last().tid == tid,
            final(self).requests@.last().to == to,
            final(self).requests@.last().sent_at == now,
            forall|j: int|
                0 <= j < final(self).requests@.len() - 1 ==> #[trigger] final(self).requests@[j]
                    == old(self).requests@[j + old(self).requests@.len() - (
                final(self).requests@.len() - 1)],
            final(self).rtt == old(self).rtt,
            old(self).unwrapped() ==> tids_increase(final(self).requests@),
            old(self).unwrapped() && tid < u32::MAX ==> final(self).unwrapped(),
    {
        let tid = self.tid();
        let len: usize = self.requests.len();
        if len >= MAX_INFLIGHT_REQUESTS {
            drop_front(&mut self.requests, len - MAX_INFLIGHT_REQUESTS + 1);
        }
        self.requests.push(InflightRequest { tid, to, sent_at: now });
        tid
    }

    /// Accounts for a round trip, unless it is a short one.
    pub fn update_rtt_estimates<F: Fn(u64, u64, u64) -> RttEstimates>(
        &mut self,
        sample_rtt: u64,
        smooth: F,
    )
        requires
            forall|a: u64, b: u64, c: u64| call_requires(smooth, (a, b, c)),
        ensures
            Self::rtt_updated(old(self).rtt, final(self).rtt, sample_rtt, smooth),
            sample_rtt < MIN_REQUEST_TIMEOUT ==> final(self).rtt == old(self).rtt,
            sample_rtt >= MIN_REQUEST_TIMEOUT ==> exists|made: RttEstimates|
                {
                    &&& #[trigger] call_ensures(
                        smooth,
                        (old(self).rtt.estimated_rtt, old(self).rtt.deviation_rtt, sample_rtt),
                        made,
                    )
                    &&& final(self).rtt.deviation_rtt == made.deviation_rtt
                    &&& final(self).rtt.estimated_rtt == if made.estimated_rtt
                        >= MIN_REQUEST_TIMEOUT {
                        made.estimated_rtt
                    } else {
                        MIN_REQUEST_TIMEOUT
                    }
                },
            timeout_follows(old(self).rtt) ==> timeout_follows(final(self).rtt),
            final(self).next_tid == old(self).next_tid,
            final(self).requests == old(self).requests,
    {
        if sample_rtt < MIN_REQUEST_TIMEOUT {
            return;
        }
        let made = smooth(self.rtt.estimated_rtt, self.rtt.deviation_rtt, sample_rtt);
        self.rtt = if made.estimated_rtt < MIN_REQUEST_TIMEOUT {
            RttEstimates {
                estimated_rtt: MIN_REQUEST_TIMEOUT,
                deviation_rtt: made.deviation_rtt,
            }
        } else {
            made
        };
    }

    /// Takes the request `key` out and accounts for its round trip.
    pub fn remove<F: Fn(u64, u64, u64) -> RttEstimates>(
        &mut self,
        key: u32,
        now: u64,
        smooth: F,
    ) -> (request: Option<InflightRequest>)
        requires
            forall|a: u64, b: u64, c: u64| call_requires(smooth, (a, b, c)),
        ensures
            Self::removed(*old(self), *final(self), key, now, smooth, request),
            final(self).next_tid == old(self).next_tid,
            match request {
                Some(r) => {
                    &&& r.tid == key
                    &&& exists|i: int|
                        0 <= i < old(self).requests@.len() && #[trigger] old(self).requests@[i] == r
                            && final(self).requests@ == old(self).requests@.remove(i)
                    &&& now < r.sent_at + MIN_REQUEST_TIMEOUT ==> final(self).rtt == old(self).rtt
                    &&& now >= r.sent_at + MIN_REQUEST_TIMEOUT ==> exists|made: RttEstimates|
                        {
                            &&& #[trigger] call_ensures(
                                smooth,
                                (
                                    old(self).rtt.estimated_rtt,
                                    old(self).rtt.deviation_rtt,
                                    (now - r.sent_at) as u64,
                                ),
                                made,
                            )
                            &&& final(self).rtt.deviation_rtt == made.deviation_rtt
                            &&& final(self).rtt.estimated_rtt == if made.estimated_rtt
                                >= MIN_REQUEST_TIMEOUT {
                                made.estimated_rtt
                            } else {
                                MIN_REQUEST_TIMEOUT
                            }
                        }
                },
                None => {
                    &&& *final(self) == *old(self)
                    &&& forall|j: int|
                        0 <= j < old(self).requests@.len() ==> (#[trigger] old(self).requests@[j]).tid
                            != key
                },
            },
            timeout_follows(old(self).rtt) ==> timeout_follows(final(self).rtt),
            old(self).unwrapped() ==> final(self).unwrapped(),
    {
        match self.find_by_tid(key) {
            Ok(index) => {
                let request = self.requests.remove(index);
                self.update_rtt_estimates(elapsed_since(now, request.sent_at), smooth);
                assert(old(self).requests@[index as int] == request);
                Some(request)
            },
            Err(_) => None,
        }
    }

    /// How many requests at the front have timed out at `now`.
    fn expired(&self, now: u64) -> (n: usize)
        ensures
            expired_dropped_at(
                self.requests@,
                self.requests@.skip(n as int),
                self.rtt.timeout(),
                now,
                n as int,
            ),
    {
        let timeout = self.request_timeout();
        let mut low: usize = 0;
        let mut high: usize = self.requests.len();
        while low < high
            invariant
                low <= high <= self.requests@.len(),
                timeout == self.rtt.timeout(),
                sent_in_order(self.requests@) ==> {
                    &&& forall|j: int|
                        0 <= j < low ==> elapsed(now, (#[trigger] self.requests@[j]).sent_at)
                            >= timeout
                    &&& forall|j: int|
                        high <= j < self.requests@.len() ==> elapsed(
                            now,
                            (#[trigger] self.requests@[j]).sent_at,
                        ) <= timeout
                },
            decreases high - low,
        {
            let middle: usize = low + (high - low) / 2;
            let waited: u64 = elapsed_since(now, self.requests[middle].sent_at);
            if waited == timeout {
                return middle;
            }
            if timeout < waited {
                low = middle + 1;
            } else {
                high = middle;
            }
        }
        low
    }

    /// Drops the requests that have timed out at `now`.
    pub fn remove_expired(&mut self, now: u64)
        ensures
            final(self).requests@.len() <= old(self).requests@.len(),
            final(self).requests@ == old(self).requests@.skip(
                old(self).requests@.len() - final(self).requests@.len(),
            ),
            (forall|i: int, j: int|
                #![trigger old(self).requests@[i], old(self).requests@[j]]
                0 <= i < j < old(self).requests@.len() ==> old(self).requests@[i].sent_at <= old(
                    self,
                ).requests@[j].sent_at) && 0 < old(self).rtt.estimated_rtt + 4 * old(
                self,
            ).rtt.deviation_rtt <= u64::MAX ==> forall|i: int|
                0 <= i < old(self).requests@.len() ==> {
                    let kept = i >= old(self).requests@.len() - final(self).requests@.len();
                    let timed_out_at = (#[trigger] old(self).requests@[i]).sent_at + old(
                        self,
                    ).rtt.estimated_rtt + 4 * old(self).rtt.deviation_rtt;
                    &&& kept ==> now <= timed_out_at
                    &&& !kept ==> now >= timed_out_at
                },
            expired_dropped(
                old(self).requests@,
                final(self).requests@,
                old(self).rtt.timeout(),
                now,
            ),
            final(self).next_tid == old(self).next_tid,
            final(self).rtt == old(self).rtt,
            old(self).unwrapped() ==> final(self).unwrapped(),
    {
        let n = self.expired(now);
        drop_front(&mut self.requests, n);
        assert(expired_dropped_at(
            old(self).requests@,
            self.requests@,
            old(self).rtt.timeout(),
            now,
            n as int,
        ));
    }

    /// Drops the requests that have timed out at `now` if there is no room for one more request
    /// among `capacity` of them.
    pub fn remove_expired_if_full(&mut self, capacity: usize, now: u64)
        ensures
            if old(self).requests@.len() < capacity {
                *final(self) == *old(self)
            } else {
                expired_dropped(
                    old(self).requests@,
                    final(self).requests@,
                    old(self).rtt.timeout(),
                    now,
                )
            },
            final(self).next_tid == old(self).next_tid,
            final(self).rtt == old(self).rtt,
            old(self).unwrapped() ==> final(self).unwrapped(),
    {
        if self.requests.len() < capacity {
            return;
        }
        self.remove_expired(now);
    }

    /// Drops the requests that have timed out at `now` if that is needed to save memory: see
    /// [`InflightRequests::remove_expired_if_full`]. How many requests there is room for is up to
    /// the allocator.
    pub fn cleanup(&mut self, now: u64)
        ensures
            exists|room: usize|
                {
                    &&& #[trigger] room_given(old(self).requests, room)
                    &&& if old(self).requests@.len() < room {
                        *final(self) == *old(self)
                    } else {
                        expired_dropped(
                            old(self).requests@,
                            final(self).requests@,
                            old(self).rtt.timeout(),
                            now,
                        )
                    }
                },
            *final(self) == *old(self) || expired_dropped(
                old(self).requests@,
                final(self).requests@,
                old(self).rtt.timeout(),
                now,
            ),
            final(self).next_tid == old(self).next_tid,
            final(self).rtt == old(self).rtt,
            old(self).unwrapped() ==> final(self).unwrapped(),
    {
        let room_for = capacity;
        let room: usize = room_for(&self.requests);
        assert(room_given(self.requests, room));
        self.remove_expired_if_full(room, now);
    }

    /// The requests that have not timed out at `now`.
    pub fn not_expired(&self, now: u64) -> (requests: Vec<InflightRequest>)
        ensures
            requests@ == self.requests@.filter(
                |request: InflightRequest|
                    elapsed(now, request.sent_at) < self.rtt.timeout(),
            ),
            0 < self.rtt.estimated_rtt + 4 * self.rtt.deviation_rtt <= u64::MAX ==> requests@
                == self.requests@.filter(
                |request: InflightRequest|
                    now < request.sent_at + self.rtt.estimated_rtt + 4 * self.rtt.deviation_rtt,
            ),
    {
        let ghost p = |request: InflightRequest|
            elapsed(now, request.sent_at) < self.rtt.timeout();
        let timeout: u64 = self.request_timeout();
        let mut kept: Vec<InflightRequest> = Vec::new();
        let mut i: usize = 0;
        proof {
            reveal(Seq::filter);
        }
        while i < self.requests.len()
            invariant
                i <= self.requests@.len(),
                timeout == self.rtt.timeout(),
                p == |request: InflightRequest|
                    elapsed(now, request.sent_at) < self.rtt.timeout(),
                kept@ == self.requests@.take(i as int).filter(p),
            decreases self.requests@.len() - i,
        {
            let request = self.requests[i];
            proof {
                reveal(Seq::filter);
                assert(self.requests@.take(i + 1).drop_last() =~= self.requests@.take(i as int));
                assert(self.requests@.take(i + 1).last() == request);
            }
            if elapsed_since(now, request.sent_at) < timeout {
                kept.push(request);
            }
            i = i + 1;
        }
        assert(self.requests@.take(i as int) =~= self.requests@);
        proof {
            if 0 < self.rtt.estimated_rtt + 4 * self.rtt.deviation_rtt <= u64::MAX {
                lemma_filter_same(
                    self.requests@,
                    p,
                    |request: InflightRequest|
                        now < request.sent_at + self.rtt.estimated_rtt + 4 * self.rtt.deviation_rtt,
                );
            }
        }
        kept
    }
}

/// A request that was just sent is inflight exactly until the timeout has passed, whether or not
/// the transaction ids have started over: no earlier request that waits must have its id.
pub proof fn law_sent_request_is_inflight_until_timeout(
    inflight: InflightRequests,
    request: InflightRequest,
    now: u64,
)
    requires
        !awaits(inflight.requests@, request.tid),
    ensures
        inflight_at(
            with_room(inflight.requests@).push(request),
            inflight.rtt.timeout(),
            request.tid,
            now,
        ) == (elapsed(now, request.sent_at) < inflight.rtt.timeout()),
{
    lemma_with_room(inflight.requests@, request.tid);
    let kept = with_room(inflight.requests@);
    let requests = kept.push(request);
    assert(requests[kept.len() as int] == request);
    assert forall|i: int| 0 <= i < requests.len() && (#[trigger] requests[i]).tid
        == request.tid implies i == kept.len() by {
        if i < kept.len() {
            assert(requests[i] == kept[i]);
        }
    }
}

/// No other id is awaited once a full list gave its oldest requests up.
pub proof fn lemma_with_room(requests: Seq<InflightRequest>, tid: u32)
    ensures
        awaits(with_room(requests), tid) ==> awaits(requests, tid),
        with_room(requests).len() < MAX_INFLIGHT_REQUESTS,
{
    let kept = with_room(requests);
    if awaits(kept, tid) {
        let i = choose|i: int| 0 <= i < kept.len() && (#[trigger] kept[i]).tid == tid;
        assert(kept[i] == requests[i + requests.len() - kept.len()]);
    }
}

/// However many requests are sent, no more than the limit wait, whichever are taken out in between.
pub proof fn law_inflight_requests_keep_the_limit(
    requests: Seq<InflightRequest>,
    request: InflightRequest,
    i: int,
    n: int,
)
    requires
        requests.len() <= MAX_INFLIGHT_REQUESTS,
    ensures
        with_room(requests).push(request).len() <= MAX_INFLIGHT_REQUESTS,
        0 <= i < requests.len() ==> requests.remove(i).len() <= MAX_INFLIGHT_REQUESTS,
        0 <= n <= requests.len() ==> requests.skip(n).len() <= MAX_INFLIGHT_REQUESTS,
{
}

/// A request is taken out once: after that no request has its transaction id, and every other id
/// is awaited as before.
pub proof fn law_request_is_taken_once(requests: Seq<InflightRequest>, i: int, other: u32)
    requires
        tids_distinct(requests),
        0 <= i < requests.len(),
        other != requests[i].tid,
    ensures
        !awaits(requests.remove(i), requests[i].tid),
        awaits(requests.remove(i), other) == awaits(requests, other),
{
    let after = requests.remove(i);
    if awaits(after, requests[i].tid) {
        let j = choose|j: int| 0 <= j < after.len() && (#[trigger] after[j]).tid == requests[i].tid;
        let k = if j < i { j } else { j + 1 };
        assert(after[j] == requests[k]);
    }
    if awaits(requests, other) {
        let k = choose|k: int| 0 <= k < requests.len() && (#[trigger] requests[k]).tid == other;
        let j = if k < i { k } else { k - 1 };
        assert(after[j] == requests[k]);
    }
    if awaits(after, other) {
        let j = choose|j: int| 0 <= j < after.len() && (#[trigger] after[j]).tid == other;
        let k = if j < i { j } else { j + 1 };
        assert(after[j] == requests[k]);
    }
}

/// Dropping expired requests drops none that is still inflight, where the requests stand in the
/// order of their times.
pub proof fn law_dropping_keeps_inflight_requests(
    before: Seq<InflightRequest>,
    after: Seq<InflightRequest>,
    timeout: u64,
    now: u64,
    tid: u32,
)
    requires
        sent_in_order(before),
        expired_dropped(before, after, timeout, now),
    ensures
        inflight_at(after, timeout, tid, now) == inflight_at(before, timeout, tid, now),
{
    let n = choose|n: int| #[trigger] expired_dropped_at(before, after, timeout, now, n);
    if inflight_at(before, timeout, tid, now) {
        let i = choose|i: int|
            0 <= i < before.len() && (#[trigger] before[i]).tid == tid && elapsed(
                now,
                before[i].sent_at,
            ) < timeout;
        assert(after[i - n] == before[i]);
    }
    if inflight_at(after, timeout, tid, now) {
        let j = choose|j: int|
            0 <= j < after.len() && (#[trigger] after[j]).tid == tid && elapsed(
                now,
                after[j].sent_at,
            ) < timeout;
        assert(before[j + n] == after[j]);
    }
}

/// Requests that are sent one after the other stay in the order of their times, whichever are
/// taken out in between.
pub proof fn law_times_stay_in_order(
    requests: Seq<InflightRequest>,
    request: InflightRequest,
    i: int,
    n: int,
)
    requires
        sent_in_order(requests),
        forall|j: int|
            0 <= j < requests.len() ==> (#[trigger] requests[j]).sent_at <= request.sent_at,
    ensures
        sent_in_order(with_room(requests).push(request)),
        0 <= i < requests.len() ==> sent_in_order(requests.remove(i)),
        0 <= n <= requests.len() ==> sent_in_order(requests.skip(n)),
{
    if 0 <= i < requests.len() {
        let after = requests.remove(i);
        assert forall|a: int, b: int|
            #![trigger after[a], after[b]]
            0 <= a < b < after.len() implies after[a].sent_at <= after[b].sent_at by {
            let a0 = if a < i { a } else { a + 1 };
            let b0 = if b < i { b } else { b + 1 };
            assert(requests[a0] == after[a] && requests[b0] == after[b]);
        }
    }
}

/// No two requests that wait have the same transaction id, whichever are sent and taken out, as
/// long as no request that waits has the id of a new one.
pub proof fn law_ids_stay_distinct(
    requests: Seq<InflightRequest>,
    request: InflightRequest,
    i: int,
    n: int,
)
    requires
        tids_distinct(requests),
    ensures
        !awaits(requests, request.tid) ==> tids_distinct(with_room(requests).push(request)),
        0 <= i < requests.len() ==> tids_distinct(requests.remove(i)),
        0 <= n <= requests.len() ==> tids_distinct(requests.skip(n)),
{
    if 0 <= i < requests.len() {
        let after = requests.remove(i);
        assert forall|a: int, b: int|
            #![trigger after[a], after[b]]
            0 <= a < b < after.len() implies after[a].tid != after[b].tid by {
            let a0 = if a < i { a } else { a + 1 };
            let b0 = if b < i { b } else { b + 1 };
            assert(requests[a0] == after[a] && requests[b0] == after[b]);
        }
    }
}

/// The timeout is the smoothed round trip time and four times its deviation, and neither the
/// timeout nor the smoothed time is below the shortest timeout.
pub open spec fn timeout_follows(rtt: RttEstimates) -> bool {
    &&& rtt.estimated_rtt >= MIN_REQUEST_TIMEOUT
    &&& rtt.timeout() >= MIN_REQUEST_TIMEOUT
    &&& rtt.estimated_rtt + 4 * rtt.deviation_rtt <= u64::MAX ==> rtt.timeout()
        == rtt.estimated_rtt + 4 * rtt.deviation_rtt
}

/// Whatever round trips are measured, the timeout stays the smoothed round trip time and four times
/// its deviation, and is never below the shortest timeout. `estimates` are those that a new list
/// starts with and those after each of the measured `samples`.
pub proof fn law_timeout_follows_the_estimates<F: Fn(u64, u64, u64) -> RttEstimates>(
    estimates: Seq<RttEstimates>,
    samples: Seq<u64>,
    smooth: F,
    i: int,
)
    requires
        estimates.len() == samples.len() + 1,
        estimates[0] == (RttEstimates {
            estimated_rtt: MIN_REQUEST_TIMEOUT,
            deviation_rtt: 0,
        }),
        forall|k: int|
            #![trigger samples[k]]
            0 <= k < samples.len() ==> InflightRequests::rtt_updated(
                estimates[k],
                estimates[k + 1],
                samples[k],
                smooth,
            ),
        0 <= i < estimates.len(),
    ensures
        timeout_follows(estimates[i]),
    decreases i,
{
    if i > 0 {
        law_timeout_follows_the_estimates(estimates, samples, smooth, i - 1);
        assert(InflightRequests::rtt_updated(
            estimates[i - 1],
            estimates[i - 1 + 1],
            samples[i - 1],
            smooth,
        ));
    }
}

/// Time that passed and time that is yet to pass add up: a moment lies as long before `now` as has
/// passed since, and nothing has passed since a moment that is yet to come.
pub proof fn law_elapsed_time_adds_up(now: u64, since: u64, later: u64)
    ensures
        since <= now ==> since + elapsed(now, since) == now,
        now <= since ==> elapsed(now, since) == 0,
        since <= now <= later ==> elapsed(later, since) == elapsed(now, since) + elapsed(later, now),
{
}

/// Ids count up by one and start over after the greatest, so no two of them have the same next one.
pub proof fn law_ids_count_up(tid: u32, other: u32)
    ensures
        tid < u32::MAX ==> tid_after(tid) == tid + 1,
        tid_after(u32::MAX) == 0,
        tid != other ==> tid_after(tid) != tid_after(other),
{
}

/// Room is made for one more request by giving up the oldest only, and no more of them than needed:
/// what is left are the latest, in their order.
pub proof fn law_only_the_oldest_are_given_up(requests: Seq<InflightRequest>, j: int)
    ensures
        requests.len() <= 65535 ==> with_room(requests) == requests,
        requests.len() > 65535 ==> with_room(requests).len() == 65535,
        0 <= j < with_room(requests).len() ==> with_room(requests)[j] == requests[j
            + requests.len() - with_room(requests).len()],
{
}

/// A request is inflight exactly while less than the smoothed round trip time and four deviations
/// have passed since it was sent.
pub proof fn law_request_is_inflight_while_the_timeout_has_not_passed(
    requests: Seq<InflightRequest>,
    rtt: RttEstimates,
    tid: u32,
    now: u64,
)
    requires
        0 < rtt.estimated_rtt + 4 * rtt.deviation_rtt <= u64::MAX,
    ensures
        inflight_at(requests, rtt.timeout(), tid, now) <==> exists|i: int|
            0 <= i < requests.len() && (#[trigger] requests[i]).tid == tid && now
                < requests[i].sent_at + rtt.estimated_rtt + 4 * rtt.deviation_rtt,
{
    if inflight_at(requests, rtt.timeout(), tid, now) {
        let i = choose|i: int|
            0 <= i < requests.len() && (#[trigger] requests[i]).tid == tid && elapsed(
                now,
                requests[i].sent_at,
            ) < rtt.timeout();
        assert(now < requests[i].sent_at + rtt.estimated_rtt + 4 * rtt.deviation_rtt);
    }
    if exists|i: int|
        0 <= i < requests.len() && (#[trigger] requests[i]).tid == tid && now < requests[i].sent_at
            + rtt.estimated_rtt + 4 * rtt.deviation_rtt {
        let i = choose|i: int|
            0 <= i < requests.len() && (#[trigger] requests[i]).tid == tid && now
                < requests[i].sent_at + rtt.estimated_rtt + 4 * rtt.deviation_rtt;
        assert(elapsed(now, requests[i].sent_at) < rtt.timeout());
    }
}

/// Of requests that stand in the order of their times, exactly a front part is dropped: each that
/// is kept was sent later than a timeout ago or just then, each that is dropped before that.
pub proof fn law_only_expired_requests_are_dropped(
    before: Seq<InflightRequest>,
    after: Seq<InflightRequest>,
    timeout: u64,
    now: u64,
    i: int,
)
    requires
        expired_dropped(before, after, timeout, now),
        forall|a: int, b: int|
            #![trigger before[a], before[b]]
            0 <= a < b < before.len() ==> before[a].sent_at <= before[b].sent_at,
        0 < timeout,
    ensures
        after.len() <= before.len(),
        0 <= i < after.len() ==> after[i] == before[i + before.len() - after.len()] && now
            <= after[i].sent_at + timeout,
        0 <= i < before.len() - after.len() ==> now >= before[i].sent_at + timeout,
{
    let n = choose|n: int| #[trigger] expired_dropped_at(before, after, timeout, now, n);
    if 0 <= i < after.len() {
        assert(after[i] == before[i + n]);
    }
    if 0 <= i < before.len() - after.len() {
        assert(elapsed(now, before[i].sent_at) >= timeout);
    }
}

/// The smoothed round trip time is never set below the shortest timeout, and otherwise both
/// estimates are those that `smooth` made; a round trip shorter than that changes neither.
pub proof fn law_estimates_are_those_that_were_made<F: Fn(u64, u64, u64) -> RttEstimates>(
    before: RttEstimates,
    after: RttEstimates,
    sample: u64,
    smooth: F,
)
    requires
        InflightRequests::rtt_updated(before, after, sample, smooth),
    ensures
        sample < MIN_REQUEST_TIMEOUT ==> after == before,
        sample >= MIN_REQUEST_TIMEOUT ==> after.estimated_rtt >= MIN_REQUEST_TIMEOUT
            && exists|made: RttEstimates|
            {
                &&& #[trigger] call_ensures(
                    smooth,
                    (before.estimated_rtt, before.deviation_rtt, sample),
                    made,
                )
                &&& after.deviation_rtt == made.deviation_rtt
                &&& made.estimated_rtt >= MIN_REQUEST_TIMEOUT ==> after.estimated_rtt
                    == made.estimated_rtt
                &&& made.estimated_rtt < MIN_REQUEST_TIMEOUT ==> after.estimated_rtt
                    == MIN_REQUEST_TIMEOUT
            },
{
}

} // verus!
