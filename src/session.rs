use vstd::prelude::*;
use vstd::utf8::encode_utf8;
use crate::codec::{controller_outcome, request_controller, Error};
use crate::message::{bad_gateway_bytes, bad_gateway_response, bad_request_bytes, bad_request_response};

verus! {

/// Where a client session stands.
#[derive(Debug, Clone, Copy, PartialEq, Eq, Structural)]
pub enum Phase {
    /// An upstream connection is being attempted.
    Connecting,
    /// Bound to an upstream; waiting for the client's next request.
    AwaitingRequest,
    /// The rewritten request is being written to the upstream.
    Forwarding,
    /// Waiting for the upstream's whole response.
    AwaitingResponse,
    /// The response is being written to the client.
    Relaying,
    /// The session is over; both connections are closed.
    Closed,
}

/// What the session asks its driver to do next.
pub enum Action {
    /// Open a connection to this upstream, with a bounded timeout.
    Connect(String),
    /// Read one buffer from the client.
    ReadRequest,
    /// Write these bytes to the bound upstream.
    SendUpstream(Vec<u8>),
    /// Read the upstream's response until it closes its side.
    ReadResponse,
    /// Write these bytes to the client and flush.
    SendClient(Vec<u8>),
    /// Write this answer to the client, then close both connections.
    Reply(Vec<u8>),
    /// Close both connections.
    Close,
}

/// How the last action turned out.
pub enum Event {
    Connected,
    ConnectFailed,
    /// What one read from the client returned; empty when the client closed.
    Request(Vec<u8>),
    RequestFailed,
    Sent,
    SendFailed,
    /// The upstream's whole response; empty when it closed without answering.
    Response(Vec<u8>),
    ResponseFailed,
    Delivered,
    DeliverFailed,
}

pub enum ActionView {
    Connect(String),
    ReadRequest,
    SendUpstream(Seq<u8>),
    ReadResponse,
    SendClient(Seq<u8>),
    Reply(Seq<u8>),
    Close,
}

pub enum EventView {
    Connected,
    ConnectFailed,
    Request(Seq<u8>),
    RequestFailed,
    Sent,
    SendFailed,
    Response(Seq<u8>),
    ResponseFailed,
    Delivered,
    DeliverFailed,
}

impl View for Action {
    type V = ActionView;

    open spec fn view(&self) -> ActionView {
        match self {
            Action::Connect(a) => ActionView::Connect(*a),
            Action::ReadRequest => ActionView::ReadRequest,
            Action::SendUpstream(b) => ActionView::SendUpstream(b@),
            Action::ReadResponse => ActionView::ReadResponse,
            Action::SendClient(b) => ActionView::SendClient(b@),
            Action::Reply(b) => ActionView::Reply(b@),
            Action::Close => ActionView::Close,
        }
    }
}

impl View for Event {
    type V = EventView;

    open spec fn view(&self) -> EventView {
        match self {
            Event::Connected => EventView::Connected,
            Event::ConnectFailed => EventView::ConnectFailed,
            Event::Request(b) => EventView::Request(b@),
            Event::RequestFailed => EventView::RequestFailed,
            Event::Sent => EventView::Sent,
            Event::SendFailed => EventView::SendFailed,
            Event::Response(b) => EventView::Response(b@),
            Event::ResponseFailed => EventView::ResponseFailed,
            Event::Delivered => EventView::Delivered,
            Event::DeliverFailed => EventView::DeliverFailed,
        }
    }
}

pub struct SessionView {
    pub phase: Phase,
    /// The candidate upstreams in the order they are tried.
    pub order: Seq<String>,
    /// How many candidates have been handed out to connect to.
    pub tried: nat,
    pub client_ip: Seq<char>,
}

/// The upstream a session is bound to, or trying: the last candidate handed out.
pub open spec fn current_upstream(s: SessionView) -> String {
    s.order[s.tried - 1]
}

pub open spec fn closed(s: SessionView) -> SessionView {
    SessionView { phase: Phase::Closed, ..s }
}

pub open spec fn in_phase(s: SessionView, p: Phase) -> SessionView {
    SessionView { phase: p, ..s }
}

/// The first move of a session over candidates already put in order: try the
/// first one, or answer 502 when there is none.
pub open spec fn opening(order: Seq<String>, client_ip: Seq<char>) -> (SessionView, ActionView) {
    let s = SessionView { phase: Phase::Connecting, order, tried: 0, client_ip };
    if order.len() == 0 {
        (closed(s), ActionView::Reply(bad_gateway_bytes()))
    } else {
        (SessionView { tried: 1, ..s }, ActionView::Connect(order[0]))
    }
}

/// The move a session makes on an event: its next state and the action it asks for.
pub open spec fn next(s: SessionView, e: EventView) -> (SessionView, ActionView) {
    match (s.phase, e) {
        (Phase::Connecting, EventView::Connected) => (
            in_phase(s, Phase::AwaitingRequest),
            ActionView::ReadRequest,
        ),
        (Phase::Connecting, EventView::ConnectFailed) => if s.tried < s.order.len() {
            (SessionView { tried: s.tried + 1, ..s }, ActionView::Connect(s.order[s.tried as int]))
        } else {
            (closed(s), ActionView::Reply(bad_gateway_bytes()))
        },
        (Phase::AwaitingRequest, EventView::Request(data)) => match controller_outcome(
            data,
            encode_utf8(s.client_ip),
        ) {
            Ok(out) => (in_phase(s, Phase::Forwarding), ActionView::SendUpstream(out)),
            Err(Error::ClientClosedConnection) => (closed(s), ActionView::Close),
            Err(_) => (closed(s), ActionView::Reply(bad_request_bytes())),
        },
        (Phase::AwaitingRequest, EventView::RequestFailed) => (
            closed(s),
            ActionView::Reply(bad_request_bytes()),
        ),
        (Phase::Forwarding, EventView::Sent) => (
            in_phase(s, Phase::AwaitingResponse),
            ActionView::ReadResponse,
        ),
        (Phase::Forwarding, EventView::SendFailed) => (
            closed(s),
            ActionView::Reply(bad_gateway_bytes()),
        ),
        (Phase::AwaitingResponse, EventView::Response(b)) => if b.len() == 0 {
            (closed(s), ActionView::Reply(bad_gateway_bytes()))
        } else {
            (in_phase(s, Phase::Relaying), ActionView::SendClient(b))
        },
        (Phase::AwaitingResponse, EventView::ResponseFailed) => (
            closed(s),
            ActionView::Reply(bad_gateway_bytes()),
        ),
        (Phase::Relaying, EventView::Delivered) => (
            in_phase(s, Phase::AwaitingRequest),
            ActionView::ReadRequest,
        ),
        _ => (closed(s), ActionView::Close),
    }
}

/// Connection attempts to each address, in turn.
pub open spec fn connects(addrs: Seq<String>) -> Seq<ActionView> {
    addrs.map_values(|a: String| ActionView::Connect(a))
}

/// `n` refused connection attempts in a row.
pub open spec fn failures(n: nat) -> Seq<EventView> {
    Seq::new(n, |i: int| EventView::ConnectFailed)
}

/// The state reached from `s` on the events `evs` in turn, and the actions asked for.
pub open spec fn run(s: SessionView, evs: Seq<EventView>) -> (SessionView, Seq<ActionView>)
    decreases evs.len(),
{
    if evs.len() == 0 {
        (s, Seq::empty())
    } else {
        let (s1, a1) = next(s, evs[0]);
        let (s2, rest) = run(s1, evs.drop_first());
        (s2, seq![a1] + rest)
    }
}

/// A whole session over candidates in `order`: its opening move, then the
/// moves on `evs`.
pub open spec fn trace(order: Seq<String>, client_ip: Seq<char>, evs: Seq<EventView>) -> (
    SessionView,
    Seq<ActionView>,
) {
    let (s0, a0) = opening(order, client_ip);
    let (s, acts) = run(s0, evs);
    (s, seq![a0] + acts)
}

proof fn lemma_run_all_refused(s: SessionView)
    requires
        s.phase == Phase::Connecting,
        1 <= s.tried <= s.order.len(),
    ensures
        run(s, failures((s.order.len() - s.tried) as nat + 1)) == (
            closed(SessionView { tried: s.order.len(), ..s }),
            connects(s.order.subrange(s.tried as int, s.order.len() as int)).push(
                ActionView::Reply(bad_gateway_bytes()),
            ),
        ),
    decreases s.order.len() - s.tried,
{
    let n = (s.order.len() - s.tried) as nat + 1;
    let evs = failures(n);
    assert(evs.drop_first() =~= failures((n - 1) as nat));
    assert(evs[0] == EventView::ConnectFailed);
    if s.tried < s.order.len() {
        let s1 = SessionView { tried: s.tried + 1, ..s };
        lemma_run_all_refused(s1);
        assert(next(s, evs[0]) == (s1, ActionView::Connect(s.order[s.tried as int])));
        assert(run(s, evs) == (
            run(s1, evs.drop_first()).0,
            seq![ActionView::Connect(s.order[s.tried as int])] + run(s1, evs.drop_first()).1,
        ));
        assert(connects(s.order.subrange(s.tried as int, s.order.len() as int)) =~= seq![
            ActionView::Connect(s.order[s.tried as int]),
        ] + connects(s.order.subrange(s.tried + 1int, s.order.len() as int)));
        assert(seq![ActionView::Connect(s.order[s.tried as int])] + connects(
            s.order.subrange(s.tried + 1int, s.order.len() as int),
        ).push(ActionView::Reply(bad_gateway_bytes())) =~= connects(
            s.order.subrange(s.tried as int, s.order.len() as int),
        ).push(ActionView::Reply(bad_gateway_bytes())));
    } else {
        assert(failures(0) =~= Seq::<EventView>::empty());
        assert(SessionView { tried: s.order.len(), ..s } == s);
        assert(next(s, evs[0]) == (closed(s), ActionView::Reply(bad_gateway_bytes())));
        assert(run(s, evs) == (
            run(closed(s), evs.drop_first()).0,
            seq![ActionView::Reply(bad_gateway_bytes())] + run(closed(s), evs.drop_first()).1,
        ));
        assert(connects(s.order.subrange(s.tried as int, s.order.len() as int)) =~= Seq::<
            ActionView,
        >::empty());
        assert(seq![ActionView::Reply(bad_gateway_bytes())] =~= Seq::<ActionView>::empty().push(
            ActionView::Reply(bad_gateway_bytes()),
        ));
    }
}

/// When every connection attempt is refused, the session tries each of its
/// candidates exactly once, in its order, then answers 502 and closes; with
/// no candidate at all it answers 502 at once.
pub proof fn lemma_exhaustion(order: Seq<String>, client_ip: Seq<char>)
    ensures
        trace(order, client_ip, failures(order.len())).0.phase == Phase::Closed,
        trace(order, client_ip, failures(order.len())).1 == connects(order).push(
            ActionView::Reply(bad_gateway_bytes()),
        ),
{
    let (s0, a0) = opening(order, client_ip);
    if order.len() == 0 {
        assert(failures(0) =~= Seq::<EventView>::empty());
        assert(connects(order) =~= Seq::<ActionView>::empty());
        assert(seq![a0] + Seq::<ActionView>::empty() =~= connects(order).push(
            ActionView::Reply(bad_gateway_bytes()),
        ));
    } else {
        lemma_run_all_refused(s0);
        assert(order.subrange(0, order.len() as int) =~= order);
        assert(seq![a0] + connects(order.subrange(1, order.len() as int)).push(
            ActionView::Reply(bad_gateway_bytes()),
        ) =~= connects(order).push(ActionView::Reply(bad_gateway_bytes())));
    }
}

proof fn lemma_run_until_accepted(s: SessionView, f: int)
    requires
        0 <= f,
        s.phase == Phase::Connecting,
        1 <= s.tried <= f + 1,
        f < s.order.len(),
    ensures
        run(s, failures((f + 1 - s.tried) as nat).push(EventView::Connected)) == (
            SessionView { phase: Phase::AwaitingRequest, tried: (f + 1) as nat, ..s },
            connects(s.order.subrange(s.tried as int, f + 1)).push(ActionView::ReadRequest),
        ),
    decreases f + 1 - s.tried,
{
    let k = (f + 1 - s.tried) as nat;
    let evs = failures(k).push(EventView::Connected);
    if s.tried < f + 1 {
        let s1 = SessionView { tried: s.tried + 1, ..s };
        lemma_run_until_accepted(s1, f);
        assert(evs.drop_first() =~= failures((k - 1) as nat).push(EventView::Connected));
        assert(evs[0] == EventView::ConnectFailed);
        assert(next(s, evs[0]) == (s1, ActionView::Connect(s.order[s.tried as int])));
        assert(run(s, evs) == (
            run(s1, evs.drop_first()).0,
            seq![ActionView::Connect(s.order[s.tried as int])] + run(s1, evs.drop_first()).1,
        ));
        assert(seq![ActionView::Connect(s.order[s.tried as int])] + connects(
            s.order.subrange(s.tried + 1int, f + 1),
        ).push(ActionView::ReadRequest) =~= connects(s.order.subrange(s.tried as int, f + 1)).push(
            ActionView::ReadRequest,
        ));
    } else {
        assert(evs.drop_first() =~= Seq::<EventView>::empty());
        assert(evs[0] == EventView::Connected);
        let s1 = in_phase(s, Phase::AwaitingRequest);
        assert(s1 == SessionView { phase: Phase::AwaitingRequest, tried: (f + 1) as nat, ..s });
        assert(run(s, evs) == (
            run(s1, evs.drop_first()).0,
            seq![ActionView::ReadRequest] + run(s1, evs.drop_first()).1,
        ));
        assert(seq![ActionView::ReadRequest] =~= connects(
            s.order.subrange(s.tried as int, f + 1),
        ).push(ActionView::ReadRequest));
    }
}

/// When the candidates before position `f` of the session's order refuse
/// and the one at `f` accepts, the session is bound to that one, having tried
/// exactly the candidates before it, once each and in order.
pub proof fn lemma_failover(order: Seq<String>, client_ip: Seq<char>, f: int)
    requires
        0 <= f,
        f < order.len(),
    ensures
        trace(order, client_ip, failures(f as nat).push(EventView::Connected)).0.phase
            == Phase::AwaitingRequest,
        current_upstream(trace(order, client_ip, failures(f as nat).push(EventView::Connected)).0)
            == order[f],
        trace(order, client_ip, failures(f as nat).push(EventView::Connected)).1 == connects(
            order.take(f + 1),
        ).push(ActionView::ReadRequest),
{
    let (s0, a0) = opening(order, client_ip);
    lemma_run_until_accepted(s0, f);
    assert(seq![a0] + connects(order.subrange(1, f + 1)).push(ActionView::ReadRequest)
        =~= connects(order.take(f + 1)).push(ActionView::ReadRequest));
}

/// Failover over shuffled candidates: when `c` is one of the candidates and
/// every attempt to another one is refused, a session over any order of them
/// ends up bound to `c`, having tried before it, once each, only other
/// candidates.
pub proof fn lemma_failover_reaches(
    candidates: Seq<String>,
    order: Seq<String>,
    client_ip: Seq<char>,
    c: String,
)
    requires
        order.to_multiset() == candidates.to_multiset(),
        candidates.contains(c),
    ensures
        exists|f: int|
            {
                &&& 0 <= f < order.len()
                &&& order[f] == c
                &&& forall|i: int|
                    0 <= i < f ==> #[trigger] order[i] != c && candidates.contains(order[i])
                &&& trace(order, client_ip, failures(f as nat).push(EventView::Connected)).0.phase
                    == Phase::AwaitingRequest
                &&& current_upstream(
                    trace(order, client_ip, failures(f as nat).push(EventView::Connected)).0,
                ) == c
                &&& trace(order, client_ip, failures(f as nat).push(EventView::Connected)).1
                    == connects(order.take(f + 1)).push(ActionView::ReadRequest)
            },
{
    order.to_multiset_ensures();
    candidates.to_multiset_ensures();
    assert(candidates.to_multiset().count(c) > 0);
    assert(order.contains(c));
    order.index_of_first_ensures(c);
    let f = order.index_of_first(c)->Some_0;
    lemma_failover(order, client_ip, f);
    assert forall|i: int| 0 <= i < f implies #[trigger] order[i] != c && candidates.contains(
        order[i],
    ) by {
        assert(order.to_multiset().count(order[i]) > 0);
    }
}

/// Where a session ends up from `s` after the events `evs`, in turn.
pub open spec fn settle(s: SessionView, evs: Seq<EventView>) -> SessionView
    decreases evs.len(),
{
    if evs.len() == 0 {
        s
    } else {
        next(settle(s, evs.drop_last()), evs.last()).0
    }
}

/// The events of an interleaving that go to the first session (`first`
/// true) or to the second, in their order.
pub open spec fn share(evs: Seq<(bool, EventView)>, first: bool) -> Seq<EventView>
    decreases evs.len(),
{
    if evs.len() == 0 {
        Seq::empty()
    } else {
        let rest = share(evs.drop_last(), first);
        if evs.last().0 == first {
            rest.push(evs.last().1)
        } else {
            rest
        }
    }
}

/// Two sessions driven side by side: each event goes to the first session
/// when its flag is set, to the second otherwise.
pub open spec fn side_by_side(s1: SessionView, s2: SessionView, evs: Seq<(bool, EventView)>) -> (
    SessionView,
    SessionView,
)
    decreases evs.len(),
{
    if evs.len() == 0 {
        (s1, s2)
    } else {
        let (p1, p2) = side_by_side(s1, s2, evs.drop_last());
        let (to_first, e) = evs.last();
        if to_first {
            (next(p1, e).0, p2)
        } else {
            (p1, next(p2, e).0)
        }
    }
}

/// Sessions do not touch one another: however the events of two sessions
/// interleave, each ends where it would have ended alone on its own events,
/// so an upstream failure that closes one leaves the other as it was.
pub proof fn lemma_sessions_isolated(
    s1: SessionView,
    s2: SessionView,
    evs: Seq<(bool, EventView)>,
)
    ensures
        side_by_side(s1, s2, evs) == (settle(s1, share(evs, true)), settle(s2, share(evs, false))),
    decreases evs.len(),
{
    if evs.len() > 0 {
        let rest = evs.drop_last();
        lemma_sessions_isolated(s1, s2, rest);
        let (to_first, e) = evs.last();
        if to_first {
            assert(share(rest, true).push(e).drop_last() =~= share(rest, true));
        } else {
            assert(share(rest, false).push(e).drop_last() =~= share(rest, false));
        }
    }
}

/// Relies on rand's `SliceRandom::shuffle` with `thread_rng()`: the addresses
/// come back in some order, each as often as before. (`thread_rng` panics only
/// when the operating system cannot seed it.)
#[verifier::external_body]
fn shuffle_addresses(v: &mut Vec<String>)
    ensures
        final(v)@.to_multiset() == old(v)@.to_multiset(),
{
    rand::seq::SliceRandom::shuffle(v.as_mut_slice(), &mut rand::thread_rng());
}

/// One client connection: the candidate upstreams in the order they are
/// tried, how far selection has gone, and where the relay loop stands.
pub struct Session {
    phase: Phase,
    order: Vec<String>,
    tried: usize,
    client_ip: String,
}

impl View for Session {
    type V = SessionView;

    closed spec fn view(&self) -> SessionView {
        SessionView {
            phase: self.phase,
            order: self.order@,
            tried: self.tried as nat,
            client_ip: self.client_ip@,
        }
    }
}

impl Session {
    /// Selection has handed out at least one candidate whenever the session
    /// has gone past it, and never more than there are.
    pub open spec fn wf(&self) -> bool {
        &&& self@.tried <= self@.order.len()
        &&& (self@.phase != Phase::Closed ==> self@.tried >= 1)
    }

    /// Starts a session for the client at `client_ip` over the healthy
    /// upstreams `candidates`: they are shuffled, and the first is tried.
    pub fn start(candidates: Vec<String>, client_ip: String) -> (r: (Session, Action))
        ensures
            r.0.wf(),
            r.0@.order.to_multiset() == candidates@.to_multiset(),
            r.0@.order.len() == candidates@.len(),
            (r.0@, r.1@) == opening(r.0@.order, client_ip@),
    {
        let mut order = candidates;
        shuffle_addresses(&mut order);
        proof {
            order@.to_multiset_ensures();
            candidates@.to_multiset_ensures();
        }
        if order.len() == 0 {
            let s = Session { phase: Phase::Closed, order, tried: 0, client_ip };
            (s, Action::Reply(bad_gateway_response()))
        } else {
            let first = order[0].clone();
            let s = Session { phase: Phase::Connecting, order, tried: 1, client_ip };
            (s, Action::Connect(first))
        }
    }

    pub fn phase(&self) -> (r: Phase)
        ensures
            r == self@.phase,
    {
        self.phase
    }

    /// The upstream this session is bound to, or trying.
    pub fn upstream(&self) -> (r: Option<String>)
        requires
            self.wf(),
        ensures
            r == if self@.tried >= 1 {
                Some(current_upstream(self@))
            } else {
                None::<String>
            },
    {
        if self.tried >= 1 {
            Some(self.order[self.tried - 1].clone())
        } else {
            None
        }
    }

    fn close(&mut self)
        ensures
            final(self)@ == closed(old(self)@),
    {
        self.phase = Phase::Closed;
    }

    /// Makes the move for `event` and returns the action it asks for.
    pub fn step(&mut self, event: Event) -> (a: Action)
        requires
            old(self).wf(),
        ensures
            final(self).wf(),
            (final(self)@, a@) == next(old(self)@, event@),
    {
        match (self.phase, event) {
            (Phase::Connecting, Event::Connected) => {
                self.phase = Phase::AwaitingRequest;
                Action::ReadRequest
            },
            (Phase::Connecting, Event::ConnectFailed) => {
                if self.tried < self.order.len() {
                    let a = self.order[self.tried].clone();
                    self.tried = self.tried + 1;
                    Action::Connect(a)
                } else {
                    self.close();
                    Action::Reply(bad_gateway_response())
                }
            },
            (Phase::AwaitingRequest, Event::Request(data)) => {
                match request_controller(data.as_slice(), self.client_ip.as_str()) {
                    Ok(out) => {
                        self.phase = Phase::Forwarding;
                        Action::SendUpstream(out)
                    },
                    Err(Error::ClientClosedConnection) => {
                        self.close();
                        Action::Close
                    },
                    Err(_) => {
                        self.close();
                        Action::Reply(bad_request_response())
                    },
                }
            },
            (Phase::AwaitingRequest, Event::RequestFailed) => {
                self.close();
                Action::Reply(bad_request_response())
            },
            (Phase::Forwarding, Event::Sent) => {
                self.phase = Phase::AwaitingResponse;
                Action::ReadResponse
            },
            (Phase::Forwarding, Event::SendFailed) => {
                self.close();
                Action::Reply(bad_gateway_response())
            },
            (Phase::AwaitingResponse, Event::Response(b)) => {
                if b.len() == 0 {
                    self.close();
                    Action::Reply(bad_gateway_response())
                } else {
                    self.phase = Phase::Relaying;
                    Action::SendClient(b)
                }
            },
            (Phase::AwaitingResponse, Event::ResponseFailed) => {
                self.close();
                Action::Reply(bad_gateway_response())
            },
            (Phase::Relaying, Event::Delivered) => {
                self.phase = Phase::AwaitingRequest;
                Action::ReadRequest
            },
            _ => {
                self.close();
                Action::Close
            },
        }
    }
}

} // verus!
