//! The distribution channel set: an ordered collection of bounded queues,
//! one for each consumer. An event is taken by every open endpoint or by
//! none; a full endpoint holds the producer back and loses nothing.
use vstd::prelude::*;
use crate::metric::{events_view, Telemetry, TelemetryView};

verus! {

/// What a send does about an endpoint whose consumer is gone.
#[derive(Debug, Clone, Copy, PartialEq, Eq, Structural)]
pub enum ClosedPolicy {
    /// The send fails and delivers to no endpoint.
    Fail,
    /// The send passes the endpoint over and delivers to the open ones.
    Skip,
}

/// How a send ended.
#[derive(Debug, Clone, Copy, PartialEq, Eq, Structural)]
pub enum SendStatus {
    /// Every open endpoint has taken the event.
    Delivered,
    /// The open endpoint at this index is at capacity. Nothing was
    /// delivered; the producer waits and sends again.
    Blocked(usize),
    /// The endpoint at this index is closed, and the policy is to fail.
    /// Nothing was delivered.
    Closed(usize),
}

/// One endpoint as mathematical values: its capacity, the events that wait
/// in it, oldest first, and whether its consumer is still there.
pub struct EndpointView {
    pub capacity: nat,
    pub queue: Seq<TelemetryView>,
    pub open: bool,
}

/// One bounded queue of events for one consumer.
#[derive(Debug)]
struct Endpoint {
    capacity: usize,
    queue: Vec<Telemetry>,
    open: bool,
}

impl View for Endpoint {
    type V = EndpointView;

    closed spec fn view(&self) -> EndpointView {
        EndpointView {
            capacity: self.capacity as nat,
            queue: events_view(self.queue@),
            open: self.open,
        }
    }
}

impl Endpoint {
    /// An endpoint never holds more than its capacity.
    spec fn wf(&self) -> bool {
        self.queue@.len() <= self.capacity
    }
}

/// The views of a sequence of endpoints.
spec fn endpoints_view(endpoints: Seq<Endpoint>) -> Seq<EndpointView> {
    endpoints.map_values(|e: Endpoint| e@)
}

/// An open endpoint that has no room for one more event.
pub open spec fn is_full(e: EndpointView) -> bool {
    e.open && e.queue.len() >= e.capacity
}

/// `i` is the first endpoint of `v` that is closed.
pub open spec fn is_first_closed(v: Seq<EndpointView>, i: int) -> bool {
    &&& 0 <= i < v.len()
    &&& !v[i].open
    &&& forall|j: int| 0 <= j < i ==> (#[trigger] v[j]).open
}

/// `i` is the first endpoint of `v` that is open and at capacity.
pub open spec fn is_first_full(v: Seq<EndpointView>, i: int) -> bool {
    &&& 0 <= i < v.len()
    &&& is_full(v[i])
    &&& forall|j: int| 0 <= j < i ==> !is_full(#[trigger] v[j])
}

/// Every endpoint of `v` is open.
pub open spec fn all_open(v: Seq<EndpointView>) -> bool {
    forall|j: int| 0 <= j < v.len() ==> (#[trigger] v[j]).open
}

/// `status` is how a send to the endpoints `v` ends under `policy`.
/// Under `Fail` the first closed endpoint fails the send. Else the first
/// open endpoint at capacity blocks it. Else it is delivered.
pub open spec fn is_send_status(v: Seq<EndpointView>, policy: ClosedPolicy, status: SendStatus) -> bool {
    match status {
        SendStatus::Closed(i) => policy == ClosedPolicy::Fail && is_first_closed(v, i as int),
        SendStatus::Blocked(i) => (policy == ClosedPolicy::Fail ==> all_open(v)) && is_first_full(
            v,
            i as int,
        ),
        SendStatus::Delivered => (policy == ClosedPolicy::Fail ==> all_open(v)) && forall|j: int|
            0 <= j < v.len() ==> !is_full(#[trigger] v[j]),
    }
}

/// Endpoints and policy leave one status only.
pub proof fn lemma_send_status_unique(
    v: Seq<EndpointView>,
    policy: ClosedPolicy,
    a: SendStatus,
    b: SendStatus,
)
    requires
        is_send_status(v, policy, a),
        is_send_status(v, policy, b),
    ensures
        a == b,
{
    match (a, b) {
        (SendStatus::Closed(i), SendStatus::Closed(j)) => {
            if i < j {
                assert(v[i as int].open);
            }
            if j < i {
                assert(v[j as int].open);
            }
        },
        (SendStatus::Blocked(i), SendStatus::Blocked(j)) => {
            if i < j {
                assert(!is_full(v[i as int]));
            }
            if j < i {
                assert(!is_full(v[j as int]));
            }
        },
        (SendStatus::Closed(i), _) => {
            assert(!v[i as int].open);
        },
        (_, SendStatus::Closed(i)) => {
            assert(!v[i as int].open);
        },
        (SendStatus::Blocked(i), SendStatus::Delivered) => {
            assert(is_full(v[i as int]));
        },
        (SendStatus::Delivered, SendStatus::Blocked(i)) => {
            assert(is_full(v[i as int]));
        },
        (SendStatus::Delivered, SendStatus::Delivered) => {},
    }
}

/// The endpoints `v` after each open one has taken `event` behind what it
/// held.
pub open spec fn delivered(v: Seq<EndpointView>, event: TelemetryView) -> Seq<EndpointView> {
    Seq::new(
        v.len(),
        |i: int|
            if v[i].open {
                EndpointView { queue: v[i].queue.push(event), ..v[i] }
            } else {
                v[i]
            },
    )
}

/// The distribution channel set.
#[derive(Debug)]
pub struct Channel {
    endpoints: Vec<Endpoint>,
    policy: ClosedPolicy,
}

impl View for Channel {
    type V = Seq<EndpointView>;

    closed spec fn view(&self) -> Seq<EndpointView> {
        endpoints_view(self.endpoints@)
    }
}

impl Channel {
    #[verifier::type_invariant]
    spec fn well_formed(&self) -> bool {
        forall|i: int| 0 <= i < self.endpoints@.len() ==> (#[trigger] self.endpoints@[i]).wf()
    }

    /// The policy on closed endpoints that the set was made with.
    pub closed spec fn policy(&self) -> ClosedPolicy {
        self.policy
    }

    /// A channel set without endpoints.
    pub fn new(policy: ClosedPolicy) -> (c: Channel)
        ensures
            c@ == Seq::<EndpointView>::empty(),
            c.policy() == policy,
    {
        let c = Channel { endpoints: Vec::new(), policy };
        assert(c@ =~= Seq::<EndpointView>::empty());
        c
    }

    /// Adds an open, empty endpoint that holds up to `capacity` events, and
    /// returns its index.
    pub fn add_endpoint(&mut self, capacity: usize) -> (index: usize)
        ensures
            index == old(self)@.len(),
            final(self)@ == old(self)@.push(
                EndpointView { capacity: capacity as nat, queue: Seq::empty(), open: true },
            ),
            final(self).policy() == old(self).policy(),
    {
        proof {
            use_type_invariant(&*self);
        }
        let index = self.endpoints.len();
        let mut endpoints: Vec<Endpoint> = Vec::new();
        core::mem::swap(&mut self.endpoints, &mut endpoints);
        let e = Endpoint { capacity, queue: Vec::new(), open: true };
        assert(e@.queue =~= Seq::<TelemetryView>::empty());
        endpoints.push(e);
        self.endpoints = endpoints;
        assert(self@ =~= old(self)@.push(
            EndpointView { capacity: capacity as nat, queue: Seq::empty(), open: true },
        ));
        index
    }

    /// How many endpoints the set has.
    pub fn len(&self) -> (n: usize)
        ensures
            n == self@.len(),
    {
        self.endpoints.len()
    }

    /// The policy on closed endpoints.
    pub fn closed_policy(&self) -> (p: ClosedPolicy)
        ensures
            p == self.policy(),
    {
        self.policy
    }

    /// Whether the consumer of `endpoint` is still there. An index that
    /// names no endpoint is not open.
    pub fn is_open(&self, endpoint: usize) -> (b: bool)
        ensures
            b == (endpoint < self@.len() && self@[endpoint as int].open),
    {
        endpoint < self.endpoints.len() && self.endpoints[endpoint].open
    }

    /// How many events wait in `endpoint`; none in one that does not exist.
    pub fn pending(&self, endpoint: usize) -> (n: usize)
        ensures
            endpoint < self@.len() ==> n == self@[endpoint as int].queue.len(),
            endpoint >= self@.len() ==> n == 0,
    {
        if endpoint < self.endpoints.len() {
            self.endpoints[endpoint].queue.len()
        } else {
            0
        }
    }

    /// Marks `endpoint` as closed: its consumer is gone. What waits in it
    /// stays. An index that names no endpoint changes nothing.
    pub fn close(&mut self, endpoint: usize)
        ensures
            final(self).policy() == old(self).policy(),
            endpoint < old(self)@.len() ==> final(self)@ == old(self)@.update(
                endpoint as int,
                EndpointView { open: false, ..old(self)@[endpoint as int] },
            ),
            endpoint >= old(self)@.len() ==> final(self)@ == old(self)@,
    {
        proof {
            use_type_invariant(&*self);
        }
        if endpoint < self.endpoints.len() {
            let mut endpoints: Vec<Endpoint> = Vec::new();
            core::mem::swap(&mut self.endpoints, &mut endpoints);
            endpoints[endpoint].open = false;
            assert(endpoints_view(endpoints@) =~= old(self)@.update(
                endpoint as int,
                EndpointView { open: false, ..old(self)@[endpoint as int] },
            ));
            self.endpoints = endpoints;
        }
    }

    /// Takes the oldest event out of `endpoint`, for its consumer. `None`
    /// where nothing waits there or the index names no endpoint.
    pub fn recv(&mut self, endpoint: usize) -> (r: Option<Telemetry>)
        ensures
            final(self).policy() == old(self).policy(),
            r is Some <==> endpoint < old(self)@.len() && old(self)@[endpoint as int].queue.len()
                > 0,
            r is Some ==> r->0@ == old(self)@[endpoint as int].queue[0] && final(self)@ == old(
                self,
            )@.update(
                endpoint as int,
                EndpointView {
                    queue: old(self)@[endpoint as int].queue.drop_first(),
                    ..old(self)@[endpoint as int]
                },
            ),
            r is None ==> final(self)@ == old(self)@,
    {
        proof {
            use_type_invariant(&*self);
        }
        if endpoint < self.endpoints.len() && self.endpoints[endpoint].queue.len() > 0 {
            let mut endpoints: Vec<Endpoint> = Vec::new();
            core::mem::swap(&mut self.endpoints, &mut endpoints);
            let ghost before = endpoints@[endpoint as int].queue@;
            let event = endpoints[endpoint].queue.remove(0);
            proof {
                assert(before.remove(0) == before.drop_first());
                assert(events_view(before.drop_first()) =~= events_view(before).drop_first());
                assert(endpoints_view(endpoints@) =~= old(self)@.update(
                    endpoint as int,
                    EndpointView {
                        queue: old(self)@[endpoint as int].queue.drop_first(),
                        ..old(self)@[endpoint as int]
                    },
                ));
            }
            self.endpoints = endpoints;
            Some(event)
        } else {
            None
        }
    }
}

/// Sends `event` to every endpoint of `chans`. Either every open endpoint
/// takes the event behind what it held, or the set stays as it was: where
/// an open endpoint is at capacity the send is `Blocked`, and where an
/// endpoint is closed under the policy `Fail` it is `Closed`.
pub fn send(chans: &mut Channel, event: Telemetry) -> (status: SendStatus)
    ensures
        final(chans).policy() == old(chans).policy(),
        is_send_status(old(chans)@, old(chans).policy(), status),
        status == SendStatus::Delivered ==> final(chans)@ == delivered(old(chans)@, event@),
        status != SendStatus::Delivered ==> final(chans)@ == old(chans)@,
{
    proof {
        use_type_invariant(&*chans);
    }
    let ghost v = chans@;
    let n: usize = chans.endpoints.len();
    if chans.policy == ClosedPolicy::Fail {
        let mut i: usize = 0;
        while i < n
            invariant
                i <= n,
                n == chans.endpoints.len(),
                v == chans@,
                v == old(chans)@,
                old(chans).policy() == ClosedPolicy::Fail,
                forall|j: int| 0 <= j < i ==> (#[trigger] v[j]).open,
            decreases n - i,
        {
            if !chans.endpoints[i].open {
                return SendStatus::Closed(i);
            }
            i += 1;
        }
    }
    let mut i: usize = 0;
    while i < n
        invariant
            i <= n,
            n == chans.endpoints.len(),
            v == chans@,
            v == old(chans)@,
            old(chans).policy() == ClosedPolicy::Fail ==> all_open(v),
            forall|j: int| 0 <= j < i ==> !is_full(#[trigger] v[j]),
        decreases n - i,
    {
        if chans.endpoints[i].open && chans.endpoints[i].queue.len() >= chans.endpoints[i].capacity {
            return SendStatus::Blocked(i);
        }
        i += 1;
    }
    let mut endpoints: Vec<Endpoint> = Vec::new();
    core::mem::swap(&mut chans.endpoints, &mut endpoints);
    let ghost before = endpoints@;
    let mut i: usize = 0;
    while i < n
        invariant
            i <= n,
            n == endpoints.len(),
            n == before.len(),
            v == endpoints_view(before),
            v == old(chans)@,
            old(chans).policy() == ClosedPolicy::Fail ==> all_open(v),
            forall|j: int| 0 <= j < n ==> !is_full(#[trigger] v[j]),
            forall|j: int| 0 <= j < n ==> (#[trigger] before[j]).wf(),
            forall|j: int| 0 <= j < i ==> (#[trigger] endpoints@[j])@ == delivered(v, event@)[j],
            forall|j: int| 0 <= j < i ==> (#[trigger] endpoints@[j]).wf(),
            forall|j: int| i <= j < n ==> #[trigger] endpoints@[j] == before[j],
        decreases n - i,
    {
        assert(!is_full(v[i as int]));
        assert(before[i as int].wf());
        if endpoints[i].open {
            let ghost queue = endpoints@[i as int].queue@;
            let copy = event.clone();
            endpoints[i].queue.push(copy);
            assert(events_view(queue.push(copy)) =~= events_view(queue).push(event@));
        }
        i += 1;
    }
    assert(endpoints_view(endpoints@) =~= delivered(v, event@));
    chans.endpoints = endpoints;
    SendStatus::Delivered
}

/// Sends that all deliver leave in each open endpoint what it held, then
/// the events in the order in which they were sent; a closed endpoint
/// stays as it was.
pub open spec fn delivered_all(v: Seq<EndpointView>, events: Seq<TelemetryView>) -> Seq<
    EndpointView,
>
    decreases events.len(),
{
    if events.len() == 0 {
        v
    } else {
        delivered(delivered_all(v, events.drop_last()), events.last())
    }
}

/// No delivered event is lost, none comes twice, and the order of sending
/// is the order of arrival, at every open endpoint.
pub proof fn lemma_delivery_keeps_order(v: Seq<EndpointView>, events: Seq<TelemetryView>)
    ensures
        delivered_all(v, events).len() == v.len(),
        forall|i: int|
            0 <= i < v.len() && v[i].open ==> #[trigger] delivered_all(v, events)[i] == (
            EndpointView { queue: v[i].queue + events, ..v[i] }),
        forall|i: int|
            0 <= i < v.len() && !v[i].open ==> #[trigger] delivered_all(v, events)[i] == v[i],
    decreases events.len(),
{
    if events.len() == 0 {
        assert forall|i: int| 0 <= i < v.len() implies v[i].queue + events == v[i].queue by {
            assert(v[i].queue + events =~= v[i].queue);
        }
    } else {
        let init = events.drop_last();
        lemma_delivery_keeps_order(v, init);
        let mid = delivered_all(v, init);
        assert forall|i: int| 0 <= i < v.len() && v[i].open implies #[trigger] delivered_all(
            v,
            events,
        )[i] == (EndpointView { queue: v[i].queue + events, ..v[i] }) by {
            assert(mid[i].open);
            assert((v[i].queue + init).push(events.last()) =~= v[i].queue + events);
        }
    }
}

/// Sends the events `events[from..]` in their order, and stops at the
/// first that is not delivered. Returns the index of that event, or the
/// length of `events` where all were delivered, with the status of the
/// last send. What was delivered stays delivered; the event at the index
/// returned, and those behind it, have reached no endpoint, so a caller
/// that sends again from that index loses nothing and repeats nothing.
/// A `from` beyond the end stands for the end.
pub fn send_all(chans: &mut Channel, events: &Vec<Telemetry>, from: usize) -> (r: (
    usize,
    SendStatus,
))
    ensures
        final(chans).policy() == old(chans).policy(),
        from <= events.len() ==> from <= r.0 <= events.len() && final(chans)@ == delivered_all(
            old(chans)@,
            events_view(events@).subrange(from as int, r.0 as int),
        ),
        from > events.len() ==> r.0 == events.len() && final(chans)@ == old(chans)@,
        r.1 == SendStatus::Delivered <==> r.0 == events.len(),
        r.0 < events.len() ==> is_send_status(final(chans)@, old(chans).policy(), r.1),
{
    let start: usize = if from > events.len() {
        events.len()
    } else {
        from
    };
    let mut i: usize = start;
    assert(events_view(events@).subrange(start as int, start as int) =~= Seq::<
        TelemetryView,
    >::empty());
    while i < events.len()
        invariant
            start <= i <= events.len(),
            start == if from > events.len() { events.len() } else { from },
            chans.policy() == old(chans).policy(),
            chans@ == delivered_all(
                old(chans)@,
                events_view(events@).subrange(start as int, i as int),
            ),
        decreases events.len() - i,
    {
        let ghost sent = events_view(events@).subrange(start as int, i as int);
        let ghost next = events_view(events@).subrange(start as int, i + 1);
        let status = send(chans, events[i].clone());
        match status {
            SendStatus::Delivered => {
                assert(next.drop_last() == sent);
                assert(next.last() == events@[i as int]@);
            },
            _ => {
                return (i, status);
            },
        }
        i += 1;
    }
    (i, SendStatus::Delivered)
}

} // verus!
