//! The tunnel side of a control connection: it dials the server, sends the handshake, and then
//! takes one stream for every connection that the server forwards.
use vstd::prelude::*;

use crate::wire;

verus! {

/// Where a tunnel stands with its control connection.
#[derive(Clone, Copy, Debug, PartialEq, Eq, Structural)]
pub enum Tunnel {
    /// The server is being dialled.
    Connecting,
    /// The handshake is being sent.
    Greeting,
    /// The handshake is being flushed.
    Flushing,
    /// The multiplexer is being started.
    Multiplexing,
    /// The next stream is awaited.
    Accepting,
    /// A stream has arrived and is to be handled on its own.
    Dispatching,
    /// No more streams will come; the multiplexer is being awaited.
    Draining,
    /// It is over.
    Ended(TunnelEnd),
}

/// How a tunnel came to its end.
#[derive(Clone, Copy, Debug, PartialEq, Eq, Structural)]
pub enum TunnelEnd {
    /// The server could not be dialled.
    Unreachable,
    /// The handshake could not be sent.
    HandshakeUnsent,
    /// The handshake could not be flushed.
    HandshakeUnflushed,
    /// The control connection was in use until it was closed.
    Finished,
}

/// What a tunnel wants done next.
#[derive(Debug, PartialEq, Eq)]
pub enum TunnelRequest<T, B> {
    /// Dial the server at this address.
    Connect(T),
    /// Send these bytes.
    Write(B),
    /// Flush what was sent.
    Flush,
    /// Start the multiplexer on the connection, with a keep-alive every so many seconds.
    StartMux { keep_alive_secs: u64 },
    /// Wait for the next stream.
    Accept,
    /// Handle the stream that came, apart from the others.
    Spawn,
    /// Wait until the multiplexer has stopped.
    JoinWorker,
    /// Nothing.
    Stop,
}

/// What came of a tunnel's request.
#[derive(Clone, Copy, Debug, PartialEq, Eq, Structural)]
pub enum TunnelEvent {
    /// It was done; for `Accept`, a stream came.
    Done,
    /// It failed.
    Failed,
    /// For `Accept`: no more streams will come.
    Closed,
}

/// What a tunnel to the server at `addr` wants done next.
pub open spec fn tunnel_request(state: Tunnel, addr: Seq<char>) -> TunnelRequest<
    Seq<char>,
    Seq<u8>,
> {
    match state {
        Tunnel::Connecting => TunnelRequest::Connect(addr),
        Tunnel::Greeting => TunnelRequest::Write(wire::handshake()),
        Tunnel::Flushing => TunnelRequest::Flush,
        Tunnel::Multiplexing => TunnelRequest::StartMux {
            keep_alive_secs: wire::CLIENT_KEEP_ALIVE_SECS,
        },
        Tunnel::Accepting => TunnelRequest::Accept,
        Tunnel::Dispatching => TunnelRequest::Spawn,
        Tunnel::Draining => TunnelRequest::JoinWorker,
        Tunnel::Ended(_) => TunnelRequest::Stop,
    }
}

/// Where an event leads. One that is no answer to the request changes nothing.
pub open spec fn tunnel_step(state: Tunnel, event: TunnelEvent) -> Tunnel {
    match (state, event) {
        (Tunnel::Connecting, TunnelEvent::Done) => Tunnel::Greeting,
        (Tunnel::Connecting, TunnelEvent::Failed) => Tunnel::Ended(TunnelEnd::Unreachable),
        (Tunnel::Greeting, TunnelEvent::Done) => Tunnel::Flushing,
        (Tunnel::Greeting, TunnelEvent::Failed) => Tunnel::Ended(TunnelEnd::HandshakeUnsent),
        (Tunnel::Flushing, TunnelEvent::Done) => Tunnel::Multiplexing,
        (Tunnel::Flushing, TunnelEvent::Failed) => Tunnel::Ended(TunnelEnd::HandshakeUnflushed),
        (Tunnel::Multiplexing, TunnelEvent::Done) => Tunnel::Accepting,
        (Tunnel::Accepting, TunnelEvent::Done) => Tunnel::Dispatching,
        (Tunnel::Accepting, TunnelEvent::Closed) => Tunnel::Draining,
        (Tunnel::Dispatching, TunnelEvent::Done) => Tunnel::Accepting,
        (Tunnel::Draining, TunnelEvent::Done) => Tunnel::Ended(TunnelEnd::Finished),
        (Tunnel::Draining, TunnelEvent::Failed) => Tunnel::Ended(TunnelEnd::Finished),
        _ => state,
    }
}

/// Where a tunnel stands after a history of events.
pub open spec fn tunnel_run(events: Seq<TunnelEvent>) -> Tunnel
    decreases events.len(),
{
    if events.len() == 0 {
        Tunnel::Connecting
    } else {
        tunnel_step(tunnel_run(events.drop_last()), events.last())
    }
}

/// The bytes that a tunnel to the server at `addr` has sent on its control connection by itself,
/// ahead of any that the multiplexer sends, after a history of events.
pub open spec fn tunnel_sent(events: Seq<TunnelEvent>, addr: Seq<char>) -> Seq<u8>
    decreases events.len(),
{
    if events.len() == 0 {
        Seq::empty()
    } else {
        let before = tunnel_sent(events.drop_last(), addr);
        match (tunnel_request(tunnel_run(events.drop_last()), addr), events.last()) {
            (TunnelRequest::Write(bytes), TunnelEvent::Done) => before + bytes,
            _ => before,
        }
    }
}

/// Whether a tunnel has its control connection in use, or had.
pub open spec fn in_use(state: Tunnel) -> bool {
    state == Tunnel::Accepting || state == Tunnel::Dispatching || state == Tunnel::Draining || state
        == Tunnel::Ended(TunnelEnd::Finished)
}

/// A tunnel takes no stream before it has dialled the server, sent the handshake, flushed it and
/// started the multiplexer, in this order, each with success.
pub proof fn law_handshake_comes_first(events: Seq<TunnelEvent>)
    requires
        in_use(tunnel_run(events)),
    ensures
        exists|c: int, g: int, f: int, m: int|
            {
                &&& 0 <= c < g < f < m < events.len()
                &&& #[trigger] answered(events, c, Tunnel::Connecting)
                &&& #[trigger] answered(events, g, Tunnel::Greeting)
                &&& #[trigger] answered(events, f, Tunnel::Flushing)
                &&& #[trigger] answered(events, m, Tunnel::Multiplexing)
            },
{
    let m = lemma_came_from(events, Tunnel::Multiplexing);
    let f = lemma_came_from(events.take(m), Tunnel::Flushing);
    assert(events.take(m).take(f) =~= events.take(f));
    let g = lemma_came_from(events.take(f), Tunnel::Greeting);
    assert(events.take(f).take(g) =~= events.take(g));
    let c = lemma_came_from(events.take(g), Tunnel::Connecting);
    assert(events.take(g).take(c) =~= events.take(c));
    assert(answered(events, c, Tunnel::Connecting));
    assert(answered(events, g, Tunnel::Greeting));
    assert(answered(events, f, Tunnel::Flushing));
    assert(answered(events, m, Tunnel::Multiplexing));
}

/// A tunnel that takes streams, or has its multiplexer started, has sent the handshake: all of it,
/// once, and nothing else.
pub proof fn law_handshake_is_sent_once(events: Seq<TunnelEvent>, addr: Seq<char>)
    requires
        in_use(tunnel_run(events)) || tunnel_run(events) == Tunnel::Multiplexing,
    ensures
        tunnel_sent(events, addr) == wire::handshake(),
{
    lemma_sent(events, addr);
}

/// What a tunnel has sent in each of its states.
proof fn lemma_sent(events: Seq<TunnelEvent>, addr: Seq<char>)
    ensures
        ({
            let state = tunnel_run(events);
            let sent = tunnel_sent(events, addr);
            &&& stage(state) >= 2 || state == Tunnel::Ended(TunnelEnd::HandshakeUnflushed) ==> sent
                == wire::handshake()
            &&& 0 <= stage(state) < 2 || state == Tunnel::Ended(TunnelEnd::Unreachable) || state
                == Tunnel::Ended(TunnelEnd::HandshakeUnsent) ==> sent == Seq::<u8>::empty()
        }),
    decreases events.len(),
{
    if events.len() > 0 {
        lemma_sent(events.drop_last(), addr);
        assert(Seq::<u8>::empty() + wire::handshake() =~= wire::handshake());
    }
}

/// A tunnel that is in use stays so until no more streams come: what becomes of one stream does not
/// end it.
pub proof fn law_tunnel_serves_until_closed(events: Seq<TunnelEvent>)
    requires
        tunnel_run(events) == Tunnel::Draining || tunnel_run(events) == Tunnel::Ended(
            TunnelEnd::Finished,
        ),
    ensures
        exists|i: int|
            {
                &&& 0 <= i < events.len()
                &&& tunnel_run(#[trigger] events.take(i)) == Tunnel::Accepting
                &&& events[i] == TunnelEvent::Closed
            },
    decreases events.len(),
{
    assert(events.len() > 0);
    let before = events.drop_last();
    assert(events.take(events.len() - 1) =~= before);
    if tunnel_run(before) != Tunnel::Accepting {
        law_tunnel_serves_until_closed(before);
        let i = choose|i: int|
            {
                &&& 0 <= i < before.len()
                &&& tunnel_run(#[trigger] before.take(i)) == Tunnel::Accepting
                &&& before[i] == TunnelEvent::Closed
            };
        assert(before.take(i) =~= events.take(i));
    }
}

/// What is over stays over: a tunnel that has ended wants nothing more, and no event changes that.
pub proof fn law_ended_tunnel_stays_ended(end: TunnelEnd, event: TunnelEvent, addr: Seq<char>)
    ensures
        tunnel_step(Tunnel::Ended(end), event) == Tunnel::Ended(end),
        tunnel_request(Tunnel::Ended(end), addr) == TunnelRequest::<Seq<char>, Seq<u8>>::Stop,
{
}

/// Whether the event at `i` came in a given state, and was that its request was done.
pub open spec fn answered(events: Seq<TunnelEvent>, i: int, state: Tunnel) -> bool {
    tunnel_run(events.take(i)) == state && events[i] == TunnelEvent::Done
}

/// How far a tunnel is on its way to its first stream; an early end is nowhere on it.
spec fn stage(state: Tunnel) -> int {
    match state {
        Tunnel::Connecting => 0,
        Tunnel::Greeting => 1,
        Tunnel::Flushing => 2,
        Tunnel::Multiplexing => 3,
        Tunnel::Ended(TunnelEnd::Finished) => 4,
        Tunnel::Ended(_) => -1,
        _ => 4,
    }
}

/// A tunnel that is past one of the first four states has left it by an event that said done.
proof fn lemma_came_from(events: Seq<TunnelEvent>, from: Tunnel) -> (i: int)
    requires
        0 <= stage(from) < 4,
        stage(tunnel_run(events)) > stage(from),
    ensures
        0 <= i < events.len(),
        answered(events, i, from),
    decreases events.len(),
{
    assert(events.len() > 0);
    let last = events.len() - 1;
    assert(events.take(last) =~= events.drop_last());
    if tunnel_run(events.drop_last()) == from {
        last
    } else {
        let i = lemma_came_from(events.drop_last(), from);
        assert(events.drop_last().take(i) =~= events.take(i));
        i
    }
}

impl View for TunnelRequest<String, Vec<u8>> {
    type V = TunnelRequest<Seq<char>, Seq<u8>>;

    open spec fn view(&self) -> TunnelRequest<Seq<char>, Seq<u8>> {
        match *self {
            TunnelRequest::Connect(addr) => TunnelRequest::Connect(addr@),
            TunnelRequest::Write(bytes) => TunnelRequest::Write(bytes@),
            TunnelRequest::Flush => TunnelRequest::Flush,
            TunnelRequest::StartMux { keep_alive_secs } => TunnelRequest::StartMux {
                keep_alive_secs,
            },
            TunnelRequest::Accept => TunnelRequest::Accept,
            TunnelRequest::Spawn => TunnelRequest::Spawn,
            TunnelRequest::JoinWorker => TunnelRequest::JoinWorker,
            TunnelRequest::Stop => TunnelRequest::Stop,
        }
    }
}

impl TunnelEnd {
    /// Whether the tunnel ended well; otherwise it ended with the failure of the operation that it
    /// asked for.
    pub fn succeeded(self) -> (yes: bool)
        ensures
            yes == (self == TunnelEnd::Finished),
    {
        match self {
            TunnelEnd::Finished => true,
            _ => false,
        }
    }
}

impl Tunnel {
    /// A tunnel that has yet to dial its server.
    pub fn new() -> (tunnel: Tunnel)
        ensures
            tunnel == tunnel_run(Seq::empty()),
    {
        Tunnel::Connecting
    }

    /// What to do next for a tunnel to the server at `addr`.
    pub fn request(&self, addr: &str) -> (request: TunnelRequest<String, Vec<u8>>)
        ensures
            request@ == tunnel_request(*self, addr@),
            *self == Tunnel::Connecting ==> request@ == TunnelRequest::<_, Seq<u8>>::Connect(addr@),
            request@ matches TunnelRequest::Connect(dialled) ==> dialled == addr@,
    {
        match self {
            Tunnel::Connecting => TunnelRequest::Connect(addr.to_owned()),
            Tunnel::Greeting => TunnelRequest::Write(wire::handshake_bytes()),
            Tunnel::Flushing => TunnelRequest::Flush,
            Tunnel::Multiplexing => TunnelRequest::StartMux {
                keep_alive_secs: wire::CLIENT_KEEP_ALIVE_SECS,
            },
            Tunnel::Accepting => TunnelRequest::Accept,
            Tunnel::Dispatching => TunnelRequest::Spawn,
            Tunnel::Draining => TunnelRequest::JoinWorker,
            Tunnel::Ended(_) => TunnelRequest::Stop,
        }
    }

    /// Where what came of the request leads.
    pub fn step(self, event: TunnelEvent) -> (next: Tunnel)
        ensures
            next == tunnel_step(self, event),
    {
        match (self, event) {
            (Tunnel::Connecting, TunnelEvent::Done) => Tunnel::Greeting,
            (Tunnel::Connecting, TunnelEvent::Failed) => Tunnel::Ended(TunnelEnd::Unreachable),
            (Tunnel::Greeting, TunnelEvent::Done) => Tunnel::Flushing,
            (Tunnel::Greeting, TunnelEvent::Failed) => Tunnel::Ended(TunnelEnd::HandshakeUnsent),
            (Tunnel::Flushing, TunnelEvent::Done) => Tunnel::Multiplexing,
            (Tunnel::Flushing, TunnelEvent::Failed) => Tunnel::Ended(TunnelEnd::HandshakeUnflushed),
            (Tunnel::Multiplexing, TunnelEvent::Done) => Tunnel::Accepting,
            (Tunnel::Accepting, TunnelEvent::Done) => Tunnel::Dispatching,
            (Tunnel::Accepting, TunnelEvent::Closed) => Tunnel::Draining,
            (Tunnel::Dispatching, TunnelEvent::Done) => Tunnel::Accepting,
            (Tunnel::Draining, TunnelEvent::Done) => Tunnel::Ended(TunnelEnd::Finished),
            (Tunnel::Draining, TunnelEvent::Failed) => Tunnel::Ended(TunnelEnd::Finished),
            _ => self,
        }
    }
}

/// A tunnel dials the address that it was given and no other: the first thing that it wants is to
/// dial it, and whatever has happened, an address that it wants dialled is that one. It dials once.
pub proof fn law_tunnel_dials_its_own_address(
    events: Seq<TunnelEvent>,
    addr: Seq<char>,
    dialled: Seq<char>,
)
    ensures
        tunnel_request(tunnel_run(Seq::empty()), addr) == TunnelRequest::<_, Seq<u8>>::Connect(
            addr,
        ),
        tunnel_request(tunnel_run(events), addr) == TunnelRequest::<_, Seq<u8>>::Connect(dialled)
            ==> dialled == addr,
        events.len() > 0 && events[0] != TunnelEvent::Closed ==> !(tunnel_request(
            tunnel_run(events),
            addr,
        ) is Connect),
    decreases events.len(),
{
    if events.len() > 0 {
        law_tunnel_dials_its_own_address(events.drop_last(), addr, dialled);
        if events.len() > 1 {
            assert(events.drop_last()[0] == events[0]);
        }
    }
}

/// What a tunnel wants once a request of its was done: after the dialling, the handshake is sent
/// and flushed, the multiplexer is started with a keep-alive every eighteen seconds, and then one
/// stream after the other is awaited and handled. When no more come, the multiplexer is awaited,
/// and that is the end.
pub proof fn law_tunnel_goes_on(events: Seq<TunnelEvent>, addr: Seq<char>)
    ensures
        ({
            let now = tunnel_request(tunnel_run(events), addr);
            let done = tunnel_run(events.push(TunnelEvent::Done));
            let next = tunnel_request(done, addr);
            let closed = tunnel_run(events.push(TunnelEvent::Closed));
            &&& now is Connect ==> next == TunnelRequest::<Seq<char>, _>::Write(wire::handshake())
            &&& now is Write ==> next is Flush
            &&& now is Flush ==> next == (TunnelRequest::<Seq<char>, Seq<u8>>::StartMux {
                keep_alive_secs: 18,
            })
            &&& now is StartMux ==> next is Accept
            &&& now is Accept ==> next is Spawn
            &&& now is Spawn ==> next is Accept
            &&& now is JoinWorker ==> done == Tunnel::Ended(TunnelEnd::Finished)
            &&& now is Stop ==> next is Stop
            &&& now is Accept ==> tunnel_request(closed, addr) is JoinWorker
        }),
{
    assert(events.push(TunnelEvent::Done).drop_last() =~= events);
    assert(events.push(TunnelEvent::Closed).drop_last() =~= events);
}

/// What becomes of a tunnel whose request failed: each step to the first stream has a failure of
/// its own, and once no more streams come a failure of the multiplexer does not count.
pub proof fn law_tunnel_failures_are_told_apart(events: Seq<TunnelEvent>, addr: Seq<char>)
    ensures
        ({
            let now = tunnel_request(tunnel_run(events), addr);
            let failed = tunnel_run(events.push(TunnelEvent::Failed));
            &&& now is Connect ==> failed == Tunnel::Ended(TunnelEnd::Unreachable)
            &&& now is Write ==> failed == Tunnel::Ended(TunnelEnd::HandshakeUnsent)
            &&& now is Flush ==> failed == Tunnel::Ended(TunnelEnd::HandshakeUnflushed)
            &&& now is JoinWorker ==> failed == Tunnel::Ended(TunnelEnd::Finished)
        }),
{
    assert(events.push(TunnelEvent::Failed).drop_last() =~= events);
}

/// A tunnel has its control connection in use from the start of the multiplexer on, whatever
/// happens then.
pub proof fn law_tunnel_stays_in_use(
    events: Seq<TunnelEvent>,
    event: TunnelEvent,
    addr: Seq<char>,
)
    ensures
        tunnel_request(tunnel_run(events), addr) is StartMux ==> in_use(
            tunnel_run(events.push(TunnelEvent::Done)),
        ),
        in_use(tunnel_run(events)) ==> in_use(tunnel_run(events.push(event))),
{
    assert(events.push(TunnelEvent::Done).drop_last() =~= events);
    assert(events.push(event).drop_last() =~= events);
}

/// A request in the model is the request with its address or its bytes.
pub proof fn law_tunnel_request_view(addr: String, bytes: Vec<u8>, keep_alive_secs: u64)
    ensures
        TunnelRequest::<String, Vec<u8>>::Connect(addr)@ == TunnelRequest::<_, Seq<u8>>::Connect(
            addr@,
        ),
        TunnelRequest::<String, Vec<u8>>::Write(bytes)@ == TunnelRequest::<Seq<char>, _>::Write(
            bytes@,
        ),
        TunnelRequest::<String, Vec<u8>>::Flush@ is Flush,
        (TunnelRequest::<String, Vec<u8>>::StartMux { keep_alive_secs })@ == (TunnelRequest::<
            Seq<char>,
            Seq<u8>,
        >::StartMux { keep_alive_secs }),
        TunnelRequest::<String, Vec<u8>>::Accept@ is Accept,
        TunnelRequest::<String, Vec<u8>>::Spawn@ is Spawn,
        TunnelRequest::<String, Vec<u8>>::JoinWorker@ is JoinWorker,
        TunnelRequest::<String, Vec<u8>>::Stop@ is Stop,
{
}

/// An event that is no answer to what a tunnel wants changes nothing: only an awaited stream can
/// fail to come for good, and neither the start of the multiplexer, nor the wait for a stream, nor
/// its handling can fail.
pub proof fn law_tunnel_heeds_answers_alone(
    events: Seq<TunnelEvent>,
    event: TunnelEvent,
    addr: Seq<char>,
)
    requires
        ({
            let now = tunnel_request(tunnel_run(events), addr);
            ||| event == TunnelEvent::Closed && !(now is Accept)
            ||| event == TunnelEvent::Failed && (now is StartMux || now is Accept || now is Spawn)
        }),
    ensures
        tunnel_run(events.push(event)) == tunnel_run(events),
{
    assert(events.push(event).drop_last() =~= events);
}

} // verus!
