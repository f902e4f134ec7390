//! One route of a server: it listens on an address, and forwards every connection that arrives
//! there over a stream of its own to the tunnel, which connects it to the route's target.
use vstd::prelude::*;

use crate::stream;
use crate::text;
use crate::wire;

verus! {

/// Where a route stands with its listening address.
#[derive(Clone, Copy, Debug, PartialEq, Eq, Structural)]
pub enum Listener {
    /// The address is being bound.
    Binding,
    /// The next connection is awaited.
    Accepting,
    /// A connection came; a stream to the tunnel is being opened for it.
    Opening,
    /// The connection and its stream are to be handled on their own.
    Dispatching,
    /// The address could not be bound.
    Unbound,
}

/// What a listener wants done next.
#[derive(Debug, PartialEq, Eq)]
pub enum ListenerRequest<T> {
    /// Bind this address.
    Bind(T),
    /// Wait for the next connection.
    Accept,
    /// Open a stream to the tunnel.
    OpenStream,
    /// Forward between the connection and the stream, apart from the others.
    Spawn,
    /// Nothing.
    Stop,
}

/// What came of a listener's request.
#[derive(Clone, Copy, Debug, PartialEq, Eq, Structural)]
pub enum ListenerEvent {
    /// It was done.
    Done,
    /// It failed.
    Failed,
}

/// What a listener on the address `listen` wants done next.
pub open spec fn listener_request(state: Listener, listen: Seq<char>) -> ListenerRequest<
    Seq<char>,
> {
    match state {
        Listener::Binding => ListenerRequest::Bind(listen),
        Listener::Accepting => ListenerRequest::Accept,
        Listener::Opening => ListenerRequest::OpenStream,
        Listener::Dispatching => ListenerRequest::Spawn,
        Listener::Unbound => ListenerRequest::Stop,
    }
}

/// Where an event leads. A connection that cannot be accepted, or for which no stream can be
/// opened, is given up, and the next one awaited.
pub open spec fn listener_step(state: Listener, event: ListenerEvent) -> Listener {
    match (state, event) {
        (Listener::Binding, ListenerEvent::Done) => Listener::Accepting,
        (Listener::Binding, ListenerEvent::Failed) => Listener::Unbound,
        (Listener::Accepting, ListenerEvent::Done) => Listener::Opening,
        (Listener::Opening, ListenerEvent::Done) => Listener::Dispatching,
        (Listener::Unbound, _) => Listener::Unbound,
        _ => Listener::Accepting,
    }
}

/// Where a listener stands after a history of events.
pub open spec fn listener_run(events: Seq<ListenerEvent>) -> Listener
    decreases events.len(),
{
    if events.len() == 0 {
        Listener::Binding
    } else {
        listener_step(listener_run(events.drop_last()), events.last())
    }
}

/// Once its address is bound, a route never stops: no failure ends it.
pub proof fn law_bound_route_never_stops(events: Seq<ListenerEvent>, listen: Seq<char>)
    requires
        events.len() > 0,
        events[0] == ListenerEvent::Done,
    ensures
        listener_run(events) != Listener::Unbound,
        listener_request(listener_run(events), listen) != ListenerRequest::<Seq<char>>::Stop,
    decreases events.len(),
{
    if events.len() == 1 {
        assert(events.drop_last() =~= Seq::empty());
        assert(listener_run(events.drop_last()) == Listener::Binding);
    } else {
        law_bound_route_never_stops(events.drop_last(), listen);
        lemma_binding_is_over(events.drop_last());
    }
}

/// A route forwards only a connection that was accepted and for which a stream was opened, the
/// one right after the other.
pub proof fn law_forwarding_needs_both_ends(events: Seq<ListenerEvent>, listen: Seq<char>)
    requires
        listener_request(listener_run(events), listen) == ListenerRequest::<Seq<char>>::Spawn,
    ensures
        events.len() >= 3,
        listener_run(events.take(events.len() - 2)) == Listener::Accepting,
        events[events.len() - 2] == ListenerEvent::Done,
        events[events.len() - 1] == ListenerEvent::Done,
{
    let n = events.len() as int;
    assert(n > 0);
    let one = events.drop_last();
    assert(listener_run(one) == Listener::Opening);
    assert(one.len() > 0);
    let two = one.drop_last();
    assert(listener_run(two) == Listener::Accepting);
    assert(two =~= events.take(n - 2));
    assert(two.len() > 0);
}

/// A listener binds its address once, at the very first.
proof fn lemma_binding_is_over(events: Seq<ListenerEvent>)
    requires
        events.len() > 0,
    ensures
        listener_run(events) != Listener::Binding,
{
}

impl View for ListenerRequest<String> {
    type V = ListenerRequest<Seq<char>>;

    open spec fn view(&self) -> ListenerRequest<Seq<char>> {
        match *self {
            ListenerRequest::Bind(listen) => ListenerRequest::Bind(listen@),
            ListenerRequest::Accept => ListenerRequest::Accept,
            ListenerRequest::OpenStream => ListenerRequest::OpenStream,
            ListenerRequest::Spawn => ListenerRequest::Spawn,
            ListenerRequest::Stop => ListenerRequest::Stop,
        }
    }
}

impl Listener {
    /// A route whose address has yet to be bound.
    pub fn new() -> (listener: Listener)
        ensures
            listener == listener_run(Seq::empty()),
    {
        Listener::Binding
    }

    /// What to do next for a route that listens on the address `listen`.
    pub fn request(&self, listen: &str) -> (request: ListenerRequest<String>)
        ensures
            request@ == listener_request(*self, listen@),
            *self == Listener::Binding ==> request@ == ListenerRequest::Bind(listen@),
            request@ matches ListenerRequest::Bind(bound) ==> bound == listen@,
    {
        match self {
            Listener::Binding => ListenerRequest::Bind(listen.to_owned()),
            Listener::Accepting => ListenerRequest::Accept,
            Listener::Opening => ListenerRequest::OpenStream,
            Listener::Dispatching => ListenerRequest::Spawn,
            Listener::Unbound => ListenerRequest::Stop,
        }
    }

    /// Where what came of the request leads.
    pub fn step(self, event: ListenerEvent) -> (next: Listener)
        ensures
            next == listener_step(self, event),
    {
        match (self, event) {
            (Listener::Binding, ListenerEvent::Done) => Listener::Accepting,
            (Listener::Binding, ListenerEvent::Failed) => Listener::Unbound,
            (Listener::Accepting, ListenerEvent::Done) => Listener::Opening,
            (Listener::Opening, ListenerEvent::Done) => Listener::Dispatching,
            (Listener::Unbound, _) => Listener::Unbound,
            _ => Listener::Accepting,
        }
    }
}

/// Where the forwarding of one connection stands.
#[derive(Clone, Copy, Debug, PartialEq, Eq, Structural)]
pub enum Forward {
    /// The peer's address is being sent.
    SendingPeer,
    /// The target's address is being sent.
    SendingTarget,
    /// The two are being flushed.
    Flushing,
    /// Bytes are being copied between the connection and the stream.
    Copying,
    /// It is over.
    Ended(ForwardEnd),
}

/// How the forwarding of a connection came to its end.
#[derive(Clone, Copy, Debug, PartialEq, Eq, Structural)]
pub enum ForwardEnd {
    /// The peer's address could not be sent.
    PeerUnsent,
    /// The target's address could not be sent.
    TargetUnsent,
    /// The addresses could not be flushed.
    Unflushed,
    /// Both directions were copied to their ends: this many bytes from each side.
    Completed { from_client: u64, from_target: u64 },
    /// The copying stopped because one side was closed.
    Closed,
    /// The copying failed otherwise.
    Broken,
}

/// What a forwarding wants done next.
#[derive(Debug, PartialEq, Eq)]
pub enum ForwardRequest<B> {
    /// Send these bytes on the stream.
    Write(B),
    /// Flush the stream.
    Flush,
    /// Copy between the connection and the stream until both directions are done.
    Copy,
    /// Nothing.
    Stop,
}

/// What came of a forwarding's request.
#[derive(Debug, PartialEq, Eq)]
pub enum ForwardEvent<T> {
    /// It was done.
    Done,
    /// Both directions are done: this many bytes from each side.
    Copied { from_client: u64, from_target: u64 },
    /// It failed, for the reason given.
    Failed(T),
}

/// What the forwarding of a connection from `peer` to `target` wants done next.
pub open spec fn forward_request(
    state: Forward,
    peer: Seq<char>,
    target: Seq<char>,
) -> ForwardRequest<Seq<u8>> {
    match state {
        Forward::SendingPeer => ForwardRequest::Write(wire::frame(peer)),
        Forward::SendingTarget => ForwardRequest::Write(wire::frame(target)),
        Forward::Flushing => ForwardRequest::Flush,
        Forward::Copying => ForwardRequest::Copy,
        Forward::Ended(_) => ForwardRequest::Stop,
    }
}

/// Where an event leads. A copying that failed counts as closed where the reason says so, in that
/// word. An event that is no answer to the request changes nothing.
pub open spec fn forward_step(state: Forward, event: ForwardEvent<Seq<char>>) -> Forward {
    match (state, event) {
        (Forward::SendingPeer, ForwardEvent::Done) => Forward::SendingTarget,
        (Forward::SendingPeer, ForwardEvent::Failed(_)) => Forward::Ended(ForwardEnd::PeerUnsent),
        (Forward::SendingTarget, ForwardEvent::Done) => Forward::Flushing,
        (Forward::SendingTarget, ForwardEvent::Failed(_)) => Forward::Ended(
            ForwardEnd::TargetUnsent,
        ),
        (Forward::Flushing, ForwardEvent::Done) => Forward::Copying,
        (Forward::Flushing, ForwardEvent::Failed(_)) => Forward::Ended(ForwardEnd::Unflushed),
        (Forward::Copying, ForwardEvent::Copied { from_client, from_target }) => Forward::Ended(
            ForwardEnd::Completed { from_client, from_target },
        ),
        (Forward::Copying, ForwardEvent::Failed(reason)) => Forward::Ended(
            if text::occurs("closed"@, reason) {
                ForwardEnd::Closed
            } else {
                ForwardEnd::Broken
            },
        ),
        _ => state,
    }
}

/// Where a forwarding stands after a history of events.
pub open spec fn forward_run(events: Seq<ForwardEvent<Seq<char>>>) -> Forward
    decreases events.len(),
{
    if events.len() == 0 {
        Forward::SendingPeer
    } else {
        forward_step(forward_run(events.drop_last()), events.last())
    }
}

/// The bytes that the forwarding of a connection from `peer` to `target` has sent by itself, ahead
/// of any that it copies, after a history of events.
pub open spec fn forward_sent(
    events: Seq<ForwardEvent<Seq<char>>>,
    peer: Seq<char>,
    target: Seq<char>,
) -> Seq<u8>
    decreases events.len(),
{
    if events.len() == 0 {
        Seq::empty()
    } else {
        let before = forward_sent(events.drop_last(), peer, target);
        match (forward_request(forward_run(events.drop_last()), peer, target), events.last()) {
            (ForwardRequest::Write(bytes), ForwardEvent::Done) => before + bytes,
            _ => before,
        }
    }
}

/// Whether a forwarding has come to the copying, be it over or not.
pub open spec fn reached_copying(state: Forward) -> bool {
    match state {
        Forward::Copying => true,
        Forward::Ended(end) => end == ForwardEnd::Closed || end == ForwardEnd::Broken || end
            is Completed,
        _ => false,
    }
}

/// When the copying starts, the header of the stream has been sent: all of it, once, and nothing
/// else.
pub proof fn law_header_is_sent_before_copying(
    events: Seq<ForwardEvent<Seq<char>>>,
    peer: Seq<char>,
    target: Seq<char>,
)
    requires
        reached_copying(forward_run(events)),
    ensures
        forward_sent(events, peer, target) == wire::header(peer, target),
{
    lemma_sent(events, peer, target);
}

/// What is over stays over: a forwarding that has ended wants nothing more, and no event changes
/// that.
pub proof fn law_ended_forwarding_stays_ended(
    end: ForwardEnd,
    event: ForwardEvent<Seq<char>>,
    peer: Seq<char>,
    target: Seq<char>,
)
    ensures
        forward_step(Forward::Ended(end), event) == Forward::Ended(end),
        forward_request(Forward::Ended(end), peer, target) == ForwardRequest::<Seq<u8>>::Stop,
{
}

/// What a forwarding has sent in each of its states.
proof fn lemma_sent(events: Seq<ForwardEvent<Seq<char>>>, peer: Seq<char>, target: Seq<char>)
    ensures
        ({
            let state = forward_run(events);
            let sent = forward_sent(events, peer, target);
            &&& reached_copying(state) || state == Forward::Flushing || state == Forward::Ended(
                ForwardEnd::Unflushed,
            ) ==> sent == wire::header(peer, target)
            &&& state == Forward::SendingTarget || state == Forward::Ended(ForwardEnd::TargetUnsent)
                ==> sent == wire::frame(peer)
            &&& state == Forward::SendingPeer || state == Forward::Ended(ForwardEnd::PeerUnsent)
                ==> sent == Seq::<u8>::empty()
        }),
    decreases events.len(),
{
    if events.len() > 0 {
        lemma_sent(events.drop_last(), peer, target);
        assert(Seq::<u8>::empty() + wire::frame(peer) =~= wire::frame(peer));
    }
}

/// What a route sends is what a tunnel reads: once the copying has started, the tunnel at the
/// other end of the stream learns the connection's peer and target, dials that target, and finds
/// next in the stream whatever the connection sends.
pub proof fn law_tunnel_learns_peer_and_target(
    events: Seq<ForwardEvent<Seq<char>>>,
    peer: Seq<char>,
    target: Seq<char>,
    payload: Seq<u8>,
)
    requires
        reached_copying(forward_run(events)),
        wire::fits_frame(peer),
        wire::fits_frame(target),
    ensures
        ({
            let (state, left) = stream::read_from(
                stream::Stream::PeerLength,
                forward_sent(events, peer, target) + payload,
            );
            &&& state == stream::Stream::<Seq<char>>::Connecting { peer, target }
            &&& stream::stream_request(state) == stream::StreamRequest::Connect(target)
            &&& left == payload
        }),
{
    law_header_is_sent_before_copying(events, peer, target);
    stream::law_header_reads_back(peer, target, payload);
}

impl View for ForwardRequest<Vec<u8>> {
    type V = ForwardRequest<Seq<u8>>;

    open spec fn view(&self) -> ForwardRequest<Seq<u8>> {
        match *self {
            ForwardRequest::Write(bytes) => ForwardRequest::Write(bytes@),
            ForwardRequest::Flush => ForwardRequest::Flush,
            ForwardRequest::Copy => ForwardRequest::Copy,
            ForwardRequest::Stop => ForwardRequest::Stop,
        }
    }
}

impl View for ForwardEvent<String> {
    type V = ForwardEvent<Seq<char>>;

    open spec fn view(&self) -> ForwardEvent<Seq<char>> {
        match *self {
            ForwardEvent::Done => ForwardEvent::Done,
            ForwardEvent::Copied { from_client, from_target } => ForwardEvent::Copied {
                from_client,
                from_target,
            },
            ForwardEvent::Failed(reason) => ForwardEvent::Failed(reason@),
        }
    }
}

impl Forward {
    /// A forwarding that has sent nothing yet.
    pub fn new() -> (forward: Forward)
        ensures
            forward == forward_run(Seq::empty()),
    {
        Forward::SendingPeer
    }

    /// What to do next for a connection from `peer` to `target`.
    pub fn request(&self, peer: &str, target: &str) -> (request: ForwardRequest<Vec<u8>>)
        ensures
            request@ == forward_request(*self, peer@, target@),
    {
        match self {
            Forward::SendingPeer => ForwardRequest::Write(wire::encode_frame(peer)),
            Forward::SendingTarget => ForwardRequest::Write(wire::encode_frame(target)),
            Forward::Flushing => ForwardRequest::Flush,
            Forward::Copying => ForwardRequest::Copy,
            Forward::Ended(_) => ForwardRequest::Stop,
        }
    }

    /// Where what came of the request leads.
    pub fn step(self, event: &ForwardEvent<String>) -> (next: Forward)
        ensures
            next == forward_step(self, event@),
    {
        match (self, event) {
            (Forward::SendingPeer, ForwardEvent::Done) => Forward::SendingTarget,
            (Forward::SendingPeer, ForwardEvent::Failed(_)) => {
                Forward::Ended(ForwardEnd::PeerUnsent)
            },
            (Forward::SendingTarget, ForwardEvent::Done) => Forward::Flushing,
            (Forward::SendingTarget, ForwardEvent::Failed(_)) => {
                Forward::Ended(ForwardEnd::TargetUnsent)
            },
            (Forward::Flushing, ForwardEvent::Done) => Forward::Copying,
            (Forward::Flushing, ForwardEvent::Failed(_)) => Forward::Ended(ForwardEnd::Unflushed),
            (Forward::Copying, ForwardEvent::Copied { from_client, from_target }) => {
                Forward::Ended(
                    ForwardEnd::Completed { from_client: *from_client, from_target: *from_target },
                )
            },
            (Forward::Copying, ForwardEvent::Failed(reason)) => {
                if text::contains_text(reason, "closed") {
                    Forward::Ended(ForwardEnd::Closed)
                } else {
                    Forward::Ended(ForwardEnd::Broken)
                }
            },
            _ => self,
        }
    }
}

/// A route binds the address that it was given and no other, and that at the very first alone.
pub proof fn law_route_binds_its_own_address(
    events: Seq<ListenerEvent>,
    listen: Seq<char>,
    bound: Seq<char>,
)
    ensures
        listener_request(listener_run(Seq::empty()), listen) == ListenerRequest::Bind(listen),
        listener_request(listener_run(events), listen) == ListenerRequest::Bind(bound) ==> bound
            == listen && events.len() == 0,
{
}

/// What a route wants after each answer: a connection that came gets a stream, and the two are
/// forwarded; whatever becomes of them, and of a connection or a stream that could not be had, the
/// next connection is awaited. Only an address that cannot be bound is the end.
pub proof fn law_route_goes_on(events: Seq<ListenerEvent>, listen: Seq<char>)
    ensures
        ({
            let now = listener_request(listener_run(events), listen);
            let done = listener_request(listener_run(events.push(ListenerEvent::Done)), listen);
            let failed = listener_request(listener_run(events.push(ListenerEvent::Failed)), listen);
            &&& now is Bind ==> done is Accept && failed is Stop
            &&& now is Accept ==> done is OpenStream && failed is Accept
            &&& now is OpenStream ==> done is Spawn && failed is Accept
            &&& now is Spawn ==> done is Accept && failed is Accept
            &&& now is Stop ==> done is Stop && failed is Stop
        }),
{
    assert(events.push(ListenerEvent::Done).drop_last() =~= events);
    assert(events.push(ListenerEvent::Failed).drop_last() =~= events);
}

/// A listener that wants nothing more is one whose address could not be bound.
pub proof fn law_only_an_unbound_route_stops(state: Listener, listen: Seq<char>)
    ensures
        listener_request(state, listen) is Stop <==> state == Listener::Unbound,
{
}

/// What a forwarding wants, step by step: the frame of the peer's address is sent, then that of the
/// target's, then both are flushed, and then the copying begins.
pub proof fn law_forwarding_goes_on(peer: Seq<char>, target: Seq<char>)
    ensures
        ({
            let done = ForwardEvent::<Seq<char>>::Done;
            let a = forward_run(Seq::empty());
            let b = forward_step(a, done);
            let c = forward_step(b, done);
            let d = forward_step(c, done);
            &&& forward_request(a, peer, target) == ForwardRequest::Write(wire::frame(peer))
            &&& forward_request(b, peer, target) == ForwardRequest::Write(wire::frame(target))
            &&& forward_request(c, peer, target) is Flush
            &&& forward_request(d, peer, target) is Copy
            &&& forward_run(seq![done, done, done]) == d
        }),
{
    let done = ForwardEvent::<Seq<char>>::Done;
    let one = seq![done];
    let two = seq![done, done];
    let three = seq![done, done, done];
    assert(one.drop_last() =~= Seq::empty());
    assert(two.drop_last() =~= one);
    assert(three.drop_last() =~= two);
    assert(forward_run(one) == forward_step(forward_run(Seq::empty()), done));
    assert(forward_run(two) == forward_step(forward_run(one), done));
}

/// Whatever the reason, each thing that can fail before the copying has an end of its own.
pub proof fn law_forwarding_failures_are_told_apart(reason: Seq<char>)
    ensures
        ({
            let done = ForwardEvent::<Seq<char>>::Done;
            let failed = ForwardEvent::Failed(reason);
            let a = forward_run(Seq::empty());
            let b = forward_step(a, done);
            let c = forward_step(b, done);
            &&& forward_step(a, failed) == Forward::Ended(ForwardEnd::PeerUnsent)
            &&& forward_step(b, failed) == Forward::Ended(ForwardEnd::TargetUnsent)
            &&& forward_step(c, failed) == Forward::Ended(ForwardEnd::Unflushed)
        }),
{
}

/// The copying ends as it was reported: with the bytes that were counted on each side, whatever
/// they are; as closed, where the reason of its failure has that word in it, wherever it stands; and
/// as broken, where it does not.
pub proof fn law_copying_ends_as_reported(
    from_client: u64,
    from_target: u64,
    word: Seq<char>,
    before: Seq<char>,
    after: Seq<char>,
    reason: Seq<char>,
    peer: Seq<char>,
    target: Seq<char>,
    state: Forward,
)
    requires
        forward_request(state, peer, target) is Copy,
        word == seq!['c', 'l', 'o', 's', 'e', 'd'],
        forall|a: Seq<char>, b: Seq<char>| reason != #[trigger] (a + word + b),
    ensures
        forward_step(state, ForwardEvent::Copied { from_client, from_target }) == Forward::Ended(
            ForwardEnd::Completed { from_client, from_target },
        ),
        forward_step(state, ForwardEvent::Failed(before + word + after)) == Forward::Ended(
            ForwardEnd::Closed,
        ),
        forward_step(state, ForwardEvent::Failed(reason)) == Forward::Ended(ForwardEnd::Broken),
{
    reveal_strlit("closed");
    assert("closed"@ =~= word);
    text::law_occurs_between(word, before + word + after);
    text::law_occurs_between(word, reason);
}

/// A forwarding has come to the copying once it wants to copy, and for good.
pub proof fn law_reaching_the_copying_is_final(
    state: Forward,
    event: ForwardEvent<Seq<char>>,
    peer: Seq<char>,
    target: Seq<char>,
)
    ensures
        forward_request(state, peer, target) is Copy ==> reached_copying(state),
        reached_copying(state) ==> reached_copying(forward_step(state, event)),
        reached_copying(forward_step(state, event)) && !reached_copying(state) ==> forward_request(
            forward_step(state, event),
            peer,
            target,
        ) is Copy,
{
}

/// Requests and events in the model are those of the program, with their texts and bytes.
pub proof fn law_route_views(
    listen: String,
    bytes: Vec<u8>,
    reason: String,
    from_client: u64,
    from_target: u64,
)
    ensures
        ListenerRequest::<String>::Bind(listen)@ == ListenerRequest::Bind(listen@),
        ListenerRequest::<String>::Accept@ is Accept,
        ListenerRequest::<String>::OpenStream@ is OpenStream,
        ListenerRequest::<String>::Spawn@ is Spawn,
        ListenerRequest::<String>::Stop@ is Stop,
        ForwardRequest::<Vec<u8>>::Write(bytes)@ == ForwardRequest::Write(bytes@),
        ForwardRequest::<Vec<u8>>::Flush@ is Flush,
        ForwardRequest::<Vec<u8>>::Copy@ is Copy,
        ForwardRequest::<Vec<u8>>::Stop@ is Stop,
        ForwardEvent::<String>::Done@ is Done,
        (ForwardEvent::<String>::Copied { from_client, from_target })@ == (ForwardEvent::<
            Seq<char>,
        >::Copied { from_client, from_target }),
        ForwardEvent::<String>::Failed(reason)@ == ForwardEvent::Failed(reason@),
{
}

/// An event that is no answer to what a forwarding wants changes nothing: only the copying reports
/// bytes, and it reports nothing else when it is done.
pub proof fn law_forwarding_heeds_answers_alone(
    state: Forward,
    from_client: u64,
    from_target: u64,
    peer: Seq<char>,
    target: Seq<char>,
)
    ensures
        ({
            let now = forward_request(state, peer, target);
            let copied = ForwardEvent::<Seq<char>>::Copied { from_client, from_target };
            &&& !(now is Copy) ==> forward_step(state, copied) == state
            &&& now is Copy ==> forward_step(state, ForwardEvent::Done) == state
        }),
{
}

} // verus!
