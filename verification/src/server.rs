//! The server side of a control connection: it waits for a tunnel that knows the handshake, starts
//! its routes, and serves until they are over.
use vstd::prelude::*;

use crate::cli::{ArgsView, ArgumentView, Exit, RouteTable, RouteTableView};
use crate::grammar;
use crate::route;
use crate::stream;
use crate::tunnel;
use crate::wire;

verus! {

/// A server.
#[derive(Debug, PartialEq, Eq)]
pub struct Server {
    /// Its routes.
    pub table: RouteTable,
    /// Where it stands.
    pub phase: Phase,
}

/// Where a server stands.
#[derive(Clone, Copy, Debug, PartialEq, Eq, Structural)]
pub enum Phase {
    /// The address for control connections is being bound.
    Binding,
    /// A control connection is awaited.
    Accepting,
    /// The handshake is being read from the one that came.
    Greeting,
    /// The handshake was accepted; the multiplexer is being started.
    Multiplexing,
    /// The route at `next` is being started; of those before it, `started` are up.
    Starting { next: usize, started: usize },
    /// The end of the route at `next`, of the `started` that came up, is being awaited.
    Joining { next: usize, started: usize },
    /// The multiplexer is being awaited.
    Draining,
    /// It is over.
    Ended(ServerEnd),
}

/// How a server came to its end.
#[derive(Clone, Copy, Debug, PartialEq, Eq, Structural)]
pub enum ServerEnd {
    /// The address for control connections could not be bound.
    Unbound,
    /// No control connection could be accepted.
    AcceptFailed,
    /// Not one route came up.
    NoRoutes,
    /// It served its routes until they were over.
    Finished,
}

/// What a server wants done next.
#[derive(Debug, PartialEq, Eq)]
pub enum ServerRequest<T> {
    /// Bind this address for control connections.
    Bind(T),
    /// Wait for a control connection.
    Accept,
    /// Read this many bytes from it, within this many seconds.
    ReadHandshake { len: usize, secs: u64 },
    /// Start the multiplexer on the control connection; it closes a stream after so many seconds
    /// without traffic.
    StartMux { idle_secs: u64 },
    /// Start the route from the one address to the other.
    StartRoute { listen: T, target: T },
    /// Wait for the end of the route that was the one at this place to come up.
    JoinRoute(usize),
    /// Wait until the multiplexer has stopped.
    JoinWorker,
    /// Nothing.
    Stop,
}

/// What came of a server's request.
#[derive(Debug, PartialEq, Eq)]
pub enum ServerEvent<B> {
    /// It was done.
    Done,
    /// It failed.
    Failed,
    /// For the handshake: the time for it ran out.
    TimedOut,
    /// For the handshake: what the buffer holds, zeros where the reading broke off.
    Received(B),
}

/// Whether a server is past a handshake that it accepted.
pub open spec fn greeted(phase: Phase) -> bool {
    match phase {
        Phase::Multiplexing | Phase::Starting { .. } | Phase::Joining { .. } | Phase::Draining => {
            true
        },
        Phase::Ended(end) => end == ServerEnd::NoRoutes || end == ServerEnd::Finished,
        _ => false,
    }
}

/// What a server with the given routes wants done next.
pub open spec fn server_request(phase: Phase, table: RouteTableView) -> ServerRequest<Seq<char>> {
    match phase {
        Phase::Binding => ServerRequest::Bind(table.tunn),
        Phase::Accepting => ServerRequest::Accept,
        Phase::Greeting => ServerRequest::ReadHandshake {
            len: wire::handshake().len() as usize,
            secs: wire::HANDSHAKE_TIMEOUT_SECS,
        },
        Phase::Multiplexing => ServerRequest::StartMux {
            idle_secs: wire::SERVER_IDLE_TIMEOUT_SECS,
        },
        Phase::Starting { next, .. } => ServerRequest::StartRoute {
            listen: table.pairs[next as int].0,
            target: table.pairs[next as int].1,
        },
        Phase::Joining { next, .. } => ServerRequest::JoinRoute(next),
        Phase::Draining => ServerRequest::JoinWorker,
        Phase::Ended(_) => ServerRequest::Stop,
    }
}

/// Where a server with `routes` routes stands when the first `tried` of them have been tried and
/// `started` of these came up.
pub open spec fn after_starting(routes: nat, tried: nat, started: nat) -> Phase {
    if tried < routes {
        Phase::Starting { next: tried as usize, started: started as usize }
    } else if started == 0 {
        Phase::Ended(ServerEnd::NoRoutes)
    } else {
        Phase::Joining { next: 0, started: started as usize }
    }
}

/// Where an event leads a server with `routes` routes. A control connection that does not bring
/// the handshake in time is dropped, and another awaited. A route that does not come up is left
/// out. An event that is no answer to the request changes nothing.
pub open spec fn server_step(routes: nat, phase: Phase, event: ServerEvent<Seq<u8>>) -> Phase {
    match (phase, event) {
        (Phase::Binding, ServerEvent::Done) => Phase::Accepting,
        (Phase::Binding, ServerEvent::Failed) => Phase::Ended(ServerEnd::Unbound),
        (Phase::Accepting, ServerEvent::Done) => Phase::Greeting,
        (Phase::Accepting, ServerEvent::Failed) => Phase::Ended(ServerEnd::AcceptFailed),
        (Phase::Greeting, ServerEvent::TimedOut) => Phase::Accepting,
        (Phase::Greeting, ServerEvent::Received(bytes)) => if bytes == wire::handshake() {
            Phase::Multiplexing
        } else {
            Phase::Accepting
        },
        (Phase::Multiplexing, ServerEvent::Done) => after_starting(routes, 0, 0),
        (Phase::Starting { next, started }, ServerEvent::Done) => after_starting(
            routes,
            next as nat + 1,
            started as nat + 1,
        ),
        (Phase::Starting { next, started }, ServerEvent::Failed) => after_starting(
            routes,
            next as nat + 1,
            started as nat,
        ),
        (Phase::Joining { next, started }, ServerEvent::Done | ServerEvent::Failed) => if next + 1
            < started {
            Phase::Joining { next: (next + 1) as usize, started }
        } else {
            Phase::Draining
        },
        (Phase::Draining, ServerEvent::Done | ServerEvent::Failed) => Phase::Ended(
            ServerEnd::Finished,
        ),
        _ => phase,
    }
}

/// Where a server stands when some more events come after it stood at `phase`.
pub open spec fn server_run_from(
    routes: nat,
    phase: Phase,
    events: Seq<ServerEvent<Seq<u8>>>,
) -> Phase
    decreases events.len(),
{
    if events.len() == 0 {
        phase
    } else {
        server_step(routes, server_run_from(routes, phase, events.drop_last()), events.last())
    }
}

/// Where a server with `routes` routes stands after a history of events.
pub open spec fn server_run(routes: nat, events: Seq<ServerEvent<Seq<u8>>>) -> Phase {
    server_run_from(routes, Phase::Binding, events)
}

/// How many of some outcomes are a success.
pub open spec fn successes(outcomes: Seq<bool>) -> nat
    decreases outcomes.len(),
{
    if outcomes.len() == 0 {
        0
    } else {
        successes(outcomes.drop_last()) + if outcomes.last() {
            1nat
        } else {
            0nat
        }
    }
}

/// Outcomes as the events that report them.
pub open spec fn reported(outcomes: Seq<bool>) -> Seq<ServerEvent<Seq<u8>>> {
    outcomes.map_values(
        |up: bool|
            if up {
                ServerEvent::Done
            } else {
                ServerEvent::Failed
            },
    )
}

/// A server starts no route before a control connection has brought the handshake.
pub proof fn law_routes_need_the_handshake(routes: nat, events: Seq<ServerEvent<Seq<u8>>>)
    requires
        greeted(server_run(routes, events)),
    ensures
        exists|i: int|
            {
                &&& 0 <= i < events.len()
                &&& server_run(routes, #[trigger] events.take(i)) == Phase::Greeting
                &&& events[i] == ServerEvent::Received(wire::handshake())
            },
    decreases events.len(),
{
    assert(events.len() > 0);
    let before = events.drop_last();
    let last = events.len() - 1;
    assert(events.take(last) =~= before);
    if greeted(server_run(routes, before)) {
        law_routes_need_the_handshake(routes, before);
        let i = choose|i: int|
            {
                &&& 0 <= i < before.len()
                &&& server_run(routes, #[trigger] before.take(i)) == Phase::Greeting
                &&& before[i] == ServerEvent::Received(wire::handshake())
            };
        assert(before.take(i) =~= events.take(i));
    }
}

/// A control connection that breaks off before the end of the handshake is dropped, like one that
/// brings something else or nothing in time: the server waits for another.
pub proof fn law_strangers_are_dropped(routes: nat, got: Seq<u8>, other: Seq<u8>)
    requires
        got.len() < wire::handshake().len(),
        other != wire::handshake(),
    ensures
        server_step(
            routes,
            Phase::Greeting,
            ServerEvent::Received(wire::partly_read(got, wire::handshake().len())),
        ) == Phase::Accepting,
        server_step(routes, Phase::Greeting, ServerEvent::Received(other)) == Phase::Accepting,
        server_step(routes, Phase::Greeting, ServerEvent::TimedOut) == Phase::Accepting,
{
    wire::law_partial_handshake_is_refused(got);
}

/// Whether an event is how a stranger's handshake ends: the time runs out, or what came is not the
/// handshake.
pub open spec fn from_stranger(event: ServerEvent<Seq<u8>>) -> bool {
    match event {
        ServerEvent::TimedOut => true,
        ServerEvent::Received(bytes) => bytes != wire::handshake(),
        _ => false,
    }
}

/// The events of some control connections, one after the other: each comes, and its handshake ends
/// as given.
pub open spec fn visits(handshakes: Seq<ServerEvent<Seq<u8>>>) -> Seq<ServerEvent<Seq<u8>>>
    decreases handshakes.len(),
{
    if handshakes.len() == 0 {
        Seq::empty()
    } else {
        visits(handshakes.drop_last()).push(ServerEvent::Done).push(handshakes.last())
    }
}

/// Strangers leave no trace: after any number of them a server waits for a control connection as
/// it did before.
pub proof fn law_strangers_leave_no_trace(routes: nat, handshakes: Seq<ServerEvent<Seq<u8>>>)
    requires
        forall|i: int| 0 <= i < handshakes.len() ==> from_stranger(#[trigger] handshakes[i]),
    ensures
        server_run_from(routes, Phase::Accepting, visits(handshakes)) == Phase::Accepting,
    decreases handshakes.len(),
{
    if handshakes.len() > 0 {
        let before = visits(handshakes.drop_last());
        let come = before.push(ServerEvent::Done);
        law_strangers_leave_no_trace(routes, handshakes.drop_last());
        assert(come.drop_last() =~= before);
        assert(visits(handshakes).drop_last() =~= come);
        assert(server_run_from(routes, Phase::Accepting, come) == Phase::Greeting);
        assert(from_stranger(handshakes[handshakes.len() - 1]));
    }
}

/// A server accepts what a tunnel sends to greet it, whatever address the tunnel dialled, and then
/// comes to its routes.
pub proof fn law_server_accepts_a_tunnel(
    routes: nat,
    events: Seq<tunnel::TunnelEvent>,
    addr: Seq<char>,
)
    requires
        tunnel::in_use(tunnel::tunnel_run(events)),
    ensures
        ({
            let sent = tunnel::tunnel_sent(events, addr);
            let accepted = server_step(routes, Phase::Greeting, ServerEvent::Received(sent));
            &&& accepted == Phase::Multiplexing
            &&& server_step(routes, accepted, ServerEvent::Done) == after_starting(routes, 0, 0)
        }),
{
    tunnel::law_handshake_is_sent_once(events, addr);
}

/// Of the two times that are handed to the multiplexers, the tunnel's keep-alive interval is the
/// shorter: it is less than the time without traffic after which a server closes a stream.
pub proof fn law_keep_alive_is_the_shorter_time(
    addr: Seq<char>,
    table: RouteTableView,
    keep_alive_secs: u64,
    idle_secs: u64,
)
    requires
        tunnel::tunnel_request(tunnel::Tunnel::Multiplexing, addr) == (tunnel::TunnelRequest::<
            Seq<char>,
            Seq<u8>,
        >::StartMux { keep_alive_secs }),
        server_request(Phase::Multiplexing, table) == (ServerRequest::<Seq<char>>::StartMux {
            idle_secs,
        }),
    ensures
        0 < keep_alive_secs < idle_secs,
{
}

/// Once the multiplexer is started every route is tried once, in the table's order, whatever
/// becomes of the others; then the server serves those that came up, or gives up if there is none.
pub proof fn law_every_route_is_tried(outcomes: Seq<bool>, tried: nat)
    requires
        outcomes.len() <= usize::MAX,
        tried <= outcomes.len(),
    ensures
        server_run_from(
            outcomes.len(),
            after_starting(outcomes.len(), 0, 0),
            reported(outcomes.take(tried as int)),
        ) == after_starting(outcomes.len(), tried, successes(outcomes.take(tried as int))),
        successes(outcomes.take(tried as int)) <= tried,
    decreases tried,
{
    let so_far = outcomes.take(tried as int);
    if tried > 0 {
        let before = outcomes.take(tried - 1);
        law_every_route_is_tried(outcomes, (tried - 1) as nat);
        assert(so_far.drop_last() =~= before);
        assert(reported(so_far).drop_last() =~= reported(before));
    }
}

/// A server with at least one route up ends well, once each of these is over and the multiplexer
/// has stopped, however they ended.
pub proof fn law_serving_ends_well(routes: nat, started: usize, ends: Seq<bool>)
    requires
        started > 0,
        ends.len() == started + 1,
    ensures
        server_run_from(routes, Phase::Joining { next: 0, started }, reported(ends))
            == Phase::Ended(ServerEnd::Finished),
{
    lemma_joining(routes, started, ends.drop_last(), started as nat);
    assert(ends.drop_last().take(started as int) =~= ends.drop_last());
    assert(reported(ends).drop_last() =~= reported(ends.drop_last()));
}

/// What is over stays over: a server that has ended wants nothing more, and no event changes that.
pub proof fn law_ended_server_stays_ended(
    routes: nat,
    end: ServerEnd,
    event: ServerEvent<Seq<u8>>,
    table: RouteTableView,
)
    ensures
        server_step(routes, Phase::Ended(end), event) == Phase::Ended(end),
        server_request(Phase::Ended(end), table) == ServerRequest::<Seq<char>>::Stop,
{
}

/// Each end of a route leads on to the next of them, and the last to the multiplexer.
proof fn lemma_joining(routes: nat, started: usize, ends: Seq<bool>, over: nat)
    requires
        started > 0,
        ends.len() == started,
        over <= started,
    ensures
        server_run_from(
            routes,
            Phase::Joining { next: 0, started },
            reported(ends.take(over as int)),
        ) == if over < started {
            Phase::Joining { next: over as usize, started }
        } else {
            Phase::Draining
        },
    decreases over,
{
    if over > 0 {
        let so_far = ends.take(over as int);
        lemma_joining(routes, started, ends, (over - 1) as nat);
        assert(reported(so_far).drop_last() =~= reported(ends.take(over - 1)));
    }
}

/// A connection goes from the first address of its pair, through the tunnel, to the second: when a
/// server has the turn of a pair in its table, the route that it starts binds the pair's first
/// address, and what a connection there comes to send is read at the other end of the tunnel,
/// where the pair's second address is dialled for it.
pub proof fn law_path_of_a_connection(
    table: RouteTableView,
    i: usize,
    started: usize,
    events: Seq<route::ForwardEvent<Seq<char>>>,
    peer: Seq<char>,
    payload: Seq<u8>,
)
    requires
        i < table.pairs.len(),
        route::reached_copying(route::forward_run(events)),
        wire::fits_frame(peer),
        wire::fits_frame(table.pairs[i as int].1),
    ensures
        ({
            let (a, b) = table.pairs[i as int];
            let request = server_request(Phase::Starting { next: i, started }, table);
            let (state, left) = stream::read_from(
                stream::Stream::PeerLength,
                route::forward_sent(events, peer, b) + payload,
            );
            &&& request == ServerRequest::StartRoute { listen: a, target: b }
            &&& route::listener_request(route::Listener::Binding, a)
                == route::ListenerRequest::Bind(a)
            &&& stream::stream_request(state) == stream::StreamRequest::Connect(b)
            &&& left == payload
        }),
{
    route::law_tunnel_learns_peer_and_target(events, peer, table.pairs[i as int].1, payload);
}

/// The path of a connection holds of every route that a command line gives: where the reading of
/// each argument fits in a frame, so does each of its addresses, bare ports among them, and each
/// pair of each of its tables leads from its first address to its second.
pub proof fn law_command_line_routes_work(
    args: Seq<ArgumentView>,
    found: ArgsView,
    t: int,
    i: usize,
    started: usize,
    events: Seq<route::ForwardEvent<Seq<char>>>,
    peer: Seq<char>,
    payload: Seq<u8>,
)
    requires
        grammar::readings_fit(args),
        grammar::parse_of(args) == Ok::<_, Exit<Seq<char>>>(found),
        0 <= t < found.route_table.len(),
        i < found.route_table[t].pairs.len(),
        route::reached_copying(route::forward_run(events)),
        wire::fits_frame(peer),
    ensures
        ({
            let table = found.route_table[t];
            let (a, b) = table.pairs[i as int];
            let (state, left) = stream::read_from(
                stream::Stream::PeerLength,
                route::forward_sent(events, peer, b) + payload,
            );
            &&& server_request(Phase::Starting { next: i, started }, table)
                == ServerRequest::StartRoute { listen: a, target: b }
            &&& stream::stream_request(state) == stream::StreamRequest::Connect(b)
            &&& left == payload
        }),
{
    let table = found.route_table[t];
    grammar::law_addresses_fit_their_frames(args, found);
    assert(grammar::table_fits(table));
    assert(wire::fits_frame(table.pairs[i as int].1));
    law_path_of_a_connection(table, i, started, events, peer, payload);
}

impl View for ServerRequest<String> {
    type V = ServerRequest<Seq<char>>;

    open spec fn view(&self) -> ServerRequest<Seq<char>> {
        match *self {
            ServerRequest::Bind(addr) => ServerRequest::Bind(addr@),
            ServerRequest::Accept => ServerRequest::Accept,
            ServerRequest::ReadHandshake { len, secs } => ServerRequest::ReadHandshake {
                len,
                secs,
            },
            ServerRequest::StartMux { idle_secs } => ServerRequest::StartMux { idle_secs },
            ServerRequest::StartRoute { listen, target } => ServerRequest::StartRoute {
                listen: listen@,
                target: target@,
            },
            ServerRequest::JoinRoute(next) => ServerRequest::JoinRoute(next),
            ServerRequest::JoinWorker => ServerRequest::JoinWorker,
            ServerRequest::Stop => ServerRequest::Stop,
        }
    }
}

impl View for ServerEvent<Vec<u8>> {
    type V = ServerEvent<Seq<u8>>;

    open spec fn view(&self) -> ServerEvent<Seq<u8>> {
        match *self {
            ServerEvent::Done => ServerEvent::Done,
            ServerEvent::Failed => ServerEvent::Failed,
            ServerEvent::TimedOut => ServerEvent::TimedOut,
            ServerEvent::Received(bytes) => ServerEvent::Received(bytes@),
        }
    }
}

/// Whether the counts of a phase make sense for a server with `routes` routes: no more routes up
/// than tried, and fewer tried, or over, than there are.
pub open spec fn phase_wf(routes: nat, phase: Phase) -> bool {
    match phase {
        Phase::Starting { next, started } => started <= next < routes,
        Phase::Joining { next, started } => next < started <= routes,
        _ => true,
    }
}

/// Whatever happens to a server, its counts make sense.
pub proof fn law_counts_make_sense(routes: nat, events: Seq<ServerEvent<Seq<u8>>>)
    requires
        routes <= usize::MAX,
    ensures
        phase_wf(routes, server_run(routes, events)),
    decreases events.len(),
{
    if events.len() > 0 {
        law_counts_make_sense(routes, events.drop_last());
    }
}

/// Where a server with `routes` routes stands when the first `tried` of them have been tried and
/// `started` of these came up.
fn phase_after_starting(routes: usize, tried: usize, started: usize) -> (phase: Phase)
    requires
        started <= tried <= routes,
    ensures
        phase == after_starting(routes as nat, tried as nat, started as nat),
{
    if tried < routes {
        Phase::Starting { next: tried, started }
    } else if started == 0 {
        Phase::Ended(ServerEnd::NoRoutes)
    } else {
        Phase::Joining { next: 0, started }
    }
}

impl ServerEnd {
    /// Whether the server ended well; otherwise it ended with an error.
    pub fn succeeded(self) -> (yes: bool)
        ensures
            yes == (self == ServerEnd::Finished),
    {
        match self {
            ServerEnd::Finished => true,
            _ => false,
        }
    }

    /// The error of the server's own that it ended with. What else it ends with is the failure of
    /// the operation that it asked for.
    pub fn error(self) -> (error: Option<&'static str>)
        ensures
            match error {
                Some(text) => self == ServerEnd::NoRoutes && text@ == "no routes started"@,
                None => self != ServerEnd::NoRoutes,
            },
    {
        match self {
            ServerEnd::NoRoutes => Some("no routes started"),
            _ => None,
        }
    }
}

impl Server {
    /// Whether the counts make sense for the table.
    pub open spec fn wf(self) -> bool {
        phase_wf(self.table.pairs@.len(), self.phase)
    }

    /// A server whose address has yet to be bound.
    pub fn new(table: RouteTable) -> (server: Server)
        ensures
            server.wf(),
            server.table == table,
            server.phase == server_run(table.pairs@.len(), Seq::empty()),
    {
        Server { table, phase: Phase::Binding }
    }

    /// What to do next.
    pub fn request(&self) -> (request: ServerRequest<String>)
        requires
            self.wf(),
        ensures
            request@ == server_request(self.phase, self.table@),
            self.phase == Phase::Binding ==> request@ == ServerRequest::Bind(self.table.tunn@),
            request@ matches ServerRequest::Bind(bound) ==> bound == self.table.tunn@,
    {
        match self.phase {
            Phase::Binding => ServerRequest::Bind(self.table.tunn.clone()),
            Phase::Accepting => ServerRequest::Accept,
            Phase::Greeting => ServerRequest::ReadHandshake {
                len: wire::handshake_bytes().len(),
                secs: wire::HANDSHAKE_TIMEOUT_SECS,
            },
            Phase::Multiplexing => ServerRequest::StartMux {
                idle_secs: wire::SERVER_IDLE_TIMEOUT_SECS,
            },
            Phase::Starting { next, .. } => {
                let pair = &self.table.pairs[next];
                ServerRequest::StartRoute { listen: pair[0].clone(), target: pair[1].clone() }
            },
            Phase::Joining { next, .. } => ServerRequest::JoinRoute(next),
            Phase::Draining => ServerRequest::JoinWorker,
            Phase::Ended(_) => ServerRequest::Stop,
        }
    }

    /// Whether a control connection has brought the handshake.
    pub fn greeted(&self) -> (yes: bool)
        ensures
            yes == greeted(self.phase),
    {
        match self.phase {
            Phase::Binding | Phase::Accepting | Phase::Greeting => false,
            Phase::Ended(ServerEnd::Unbound) | Phase::Ended(ServerEnd::AcceptFailed) => false,
            _ => true,
        }
    }

    /// Where what came of the request leads.
    pub fn step(self, event: &ServerEvent<Vec<u8>>) -> (next: Server)
        requires
            self.wf(),
        ensures
            next.wf(),
            next.table == self.table,
            next.phase == server_step(self.table.pairs@.len(), self.phase, event@),
    {
        let routes = self.table.pairs.len();
        let phase = match (self.phase, event) {
            (Phase::Binding, ServerEvent::Done) => Phase::Accepting,
            (Phase::Binding, ServerEvent::Failed) => Phase::Ended(ServerEnd::Unbound),
            (Phase::Accepting, ServerEvent::Done) => Phase::Greeting,
            (Phase::Accepting, ServerEvent::Failed) => Phase::Ended(ServerEnd::AcceptFailed),
            (Phase::Greeting, ServerEvent::TimedOut) => Phase::Accepting,
            (Phase::Greeting, ServerEvent::Received(bytes)) => {
                if wire::is_handshake(bytes) {
                    Phase::Multiplexing
                } else {
                    Phase::Accepting
                }
            },
            (Phase::Multiplexing, ServerEvent::Done) => phase_after_starting(routes, 0, 0),
            (Phase::Starting { next, started }, ServerEvent::Done) => {
                phase_after_starting(routes, next + 1, started + 1)
            },
            (Phase::Starting { next, started }, ServerEvent::Failed) => {
                phase_after_starting(routes, next + 1, started)
            },
            (Phase::Joining { next, started }, ServerEvent::Done | ServerEvent::Failed) => {
                if next + 1 < started {
                    Phase::Joining { next: next + 1, started }
                } else {
                    Phase::Draining
                }
            },
            (Phase::Draining, ServerEvent::Done | ServerEvent::Failed) => {
                Phase::Ended(ServerEnd::Finished)
            },
            (phase, _) => phase,
        };
        Server { table: self.table, phase }
    }
}

/// A server binds the control address of its own table and no other: the first thing that it wants
/// is to bind it, and whatever has happened, an address that it wants bound is that one.
pub proof fn law_server_binds_its_own_address(
    table: RouteTableView,
    events: Seq<ServerEvent<Seq<u8>>>,
    bound: Seq<char>,
)
    ensures
        ({
            let routes = table.pairs.len();
            &&& server_request(server_run(routes, Seq::empty()), table) == ServerRequest::Bind(
                table.tunn,
            )
            &&& server_request(server_run(routes, events), table) == ServerRequest::Bind(bound)
                ==> bound == table.tunn
        }),
{
}

/// What a server wants after each answer until it comes to its routes: once its address is bound it
/// waits for a control connection, gives it nine seconds to send as many bytes as the handshake has,
/// and starts the multiplexer, with sixty seconds without traffic, if these are the handshake. A
/// server without a route then gives up; any other starts the first of its table.
pub proof fn law_server_goes_on(
    table: RouteTableView,
    events: Seq<ServerEvent<Seq<u8>>>,
    other: Seq<u8>,
)
    requires
        other != wire::handshake(),
    ensures
        ({
            let routes = table.pairs.len();
            let now = server_request(server_run(routes, events), table);
            let done = server_run(routes, events.push(ServerEvent::Done));
            let next = server_request(done, table);
            let failed = server_run(routes, events.push(ServerEvent::Failed));
            let late = server_run(routes, events.push(ServerEvent::TimedOut));
            let known = server_run(routes, events.push(ServerEvent::Received(wire::handshake())));
            let stranger = server_run(routes, events.push(ServerEvent::Received(other)));
            &&& now is Bind ==> next is Accept && failed == Phase::Ended(ServerEnd::Unbound)
            &&& now is Accept ==> failed == Phase::Ended(ServerEnd::AcceptFailed)
            &&& now is Accept ==> next == (ServerRequest::<Seq<char>>::ReadHandshake {
                len: 66,
                secs: 9,
            })
            &&& now is ReadHandshake ==> server_request(late, table) is Accept
            &&& now is ReadHandshake ==> server_request(stranger, table) is Accept
            &&& now is ReadHandshake ==> server_request(known, table) == (ServerRequest::<
                Seq<char>,
            >::StartMux { idle_secs: 60 })
            &&& now is StartMux && routes == 0 ==> done == Phase::Ended(ServerEnd::NoRoutes)
            &&& now is StartMux && routes > 0 ==> next == (ServerRequest::StartRoute {
                listen: table.pairs[0].0,
                target: table.pairs[0].1,
            })
            &&& now is Stop ==> next is Stop
        }),
{
    wire::law_handshake_is_its_text();
    assert(events.push(ServerEvent::Done).drop_last() =~= events);
    assert(events.push(ServerEvent::Failed).drop_last() =~= events);
    assert(events.push(ServerEvent::TimedOut).drop_last() =~= events);
    assert(events.push(ServerEvent::Received(wire::handshake())).drop_last() =~= events);
    assert(events.push(ServerEvent::Received(other)).drop_last() =~= events);
}

/// Every route of a table is started, in the table's order, from its own first address to its own
/// second, whatever became of those before it. Then the routes that came up are awaited, from the
/// first of them on; where none did, the server gives up.
pub proof fn law_routes_are_started_in_order(
    table: RouteTableView,
    outcomes: Seq<bool>,
    tried: nat,
)
    requires
        outcomes.len() == table.pairs.len(),
        outcomes.len() <= usize::MAX,
        tried <= outcomes.len(),
    ensures
        ({
            let routes = table.pairs.len();
            let first = server_step(routes, Phase::Multiplexing, ServerEvent::Done);
            let phase = server_run_from(routes, first, reported(outcomes.take(tried as int)));
            &&& tried < routes ==> server_request(phase, table) == (ServerRequest::StartRoute {
                listen: table.pairs[tried as int].0,
                target: table.pairs[tried as int].1,
            })
            &&& tried == routes && !outcomes.contains(true) ==> phase == Phase::Ended(
                ServerEnd::NoRoutes,
            )
            &&& tried == routes && outcomes.contains(true) ==> server_request(phase, table)
                == ServerRequest::<Seq<char>>::JoinRoute(0)
        }),
{
    law_every_route_is_tried(outcomes, tried);
    if tried == outcomes.len() {
        assert(outcomes.take(tried as int) =~= outcomes);
        law_successes_are_counted(outcomes);
        lemma_some_success(outcomes);
    }
}

/// The routes that came up are awaited one after the other, each once, then the multiplexer, and
/// then the server has ended well, however each of these ended.
pub proof fn law_started_routes_are_awaited(
    table: RouteTableView,
    outcomes: Seq<bool>,
    ends: Seq<bool>,
    over: nat,
    last: bool,
)
    requires
        outcomes.len() == table.pairs.len(),
        outcomes.len() <= usize::MAX,
        ends.len() == outcomes.filter(|up: bool| up).len(),
        ends.len() > 0,
        over <= ends.len(),
    ensures
        ({
            let routes = table.pairs.len();
            let first = server_step(routes, Phase::Multiplexing, ServerEvent::Done);
            let serving = server_run_from(routes, first, reported(outcomes));
            let phase = server_run_from(routes, serving, reported(ends.take(over as int)));
            &&& over < ends.len() ==> server_request(phase, table) == ServerRequest::<
                Seq<char>,
            >::JoinRoute(over as usize)
            &&& over == ends.len() ==> server_request(phase, table) is JoinWorker
            &&& over == ends.len() ==> server_step(routes, phase, ServerEvent::Done)
                == Phase::Ended(ServerEnd::Finished)
            &&& over == ends.len() ==> server_step(routes, phase, ServerEvent::Failed)
                == Phase::Ended(ServerEnd::Finished)
        }),
{
    law_every_route_is_tried(outcomes, outcomes.len());
    assert(outcomes.take(outcomes.len() as int) =~= outcomes);
    law_successes_are_counted(outcomes);
    lemma_joining(table.pairs.len(), ends.len() as usize, ends, over);
}

/// As many routes count as up as there are successes among the outcomes.
pub proof fn law_successes_are_counted(outcomes: Seq<bool>)
    ensures
        successes(outcomes) == outcomes.filter(|up: bool| up).len(),
    decreases outcomes.len(),
{
    reveal(Seq::filter);
    if outcomes.len() > 0 {
        law_successes_are_counted(outcomes.drop_last());
    }
}

/// There is a success among some outcomes exactly where some route counts as up.
proof fn lemma_some_success(outcomes: Seq<bool>)
    ensures
        successes(outcomes) > 0 <==> outcomes.contains(true),
    decreases outcomes.len(),
{
    if outcomes.len() > 0 {
        let before = outcomes.drop_last();
        lemma_some_success(before);
        if before.contains(true) {
            let i = choose|i: int| 0 <= i < before.len() && before[i] == true;
            assert(outcomes[i] == true);
        }
        if outcomes.last() {
            assert(outcomes[outcomes.len() - 1] == true);
        }
        if outcomes.contains(true) && !outcomes.last() {
            let i = choose|i: int| 0 <= i < outcomes.len() && outcomes[i] == true;
            assert(before[i] == true);
        }
    }
}

/// An outcome is reported as done where it is a success, and as failed where it is none.
pub proof fn law_outcomes_are_reported(outcomes: Seq<bool>, i: int)
    requires
        0 <= i < outcomes.len(),
    ensures
        reported(outcomes).len() == outcomes.len(),
        outcomes[i] ==> reported(outcomes)[i] is Done,
        !outcomes[i] ==> reported(outcomes)[i] is Failed,
{
}

/// A server counts as greeted from the handshake on, and for good.
pub proof fn law_greeting_is_final(
    table: RouteTableView,
    phase: Phase,
    event: ServerEvent<Seq<u8>>,
)
    ensures
        server_request(phase, table) is ReadHandshake ==> greeted(
            server_step(table.pairs.len(), phase, ServerEvent::Received(wire::handshake())),
        ),
        greeted(phase) ==> greeted(server_step(table.pairs.len(), phase, event)),
        !greeted(phase) && greeted(server_step(table.pairs.len(), phase, event)) ==> event
            == ServerEvent::Received(wire::handshake()),
{
}

/// Requests and events in the model are those of the program, with their texts and bytes.
pub proof fn law_server_views(
    addr: String,
    listen: String,
    target: String,
    bytes: Vec<u8>,
    len: usize,
    secs: u64,
)
    ensures
        ServerRequest::Bind(addr)@ == ServerRequest::Bind(addr@),
        ServerRequest::<String>::Accept@ is Accept,
        (ServerRequest::<String>::ReadHandshake { len, secs })@ == (ServerRequest::<
            Seq<char>,
        >::ReadHandshake { len, secs }),
        (ServerRequest::<String>::StartMux { idle_secs: secs })@ == (ServerRequest::<
            Seq<char>,
        >::StartMux { idle_secs: secs }),
        (ServerRequest::StartRoute { listen, target })@ == (ServerRequest::StartRoute {
            listen: listen@,
            target: target@,
        }),
        ServerRequest::<String>::JoinRoute(len)@ == ServerRequest::<Seq<char>>::JoinRoute(len),
        ServerRequest::<String>::JoinWorker@ is JoinWorker,
        ServerRequest::<String>::Stop@ is Stop,
        ServerEvent::<Vec<u8>>::Done@ is Done,
        ServerEvent::<Vec<u8>>::Failed@ is Failed,
        ServerEvent::<Vec<u8>>::TimedOut@ is TimedOut,
        ServerEvent::Received(bytes)@ == ServerEvent::Received(bytes@),
{
}

/// An event that is no answer to what a server wants changes nothing: the time runs out, and bytes
/// come, for the handshake alone, which is neither done nor fails in any other way, and the start of
/// the multiplexer cannot fail.
pub proof fn law_server_heeds_answers_alone(
    table: RouteTableView,
    phase: Phase,
    event: ServerEvent<Seq<u8>>,
)
    requires
        ({
            let now = server_request(phase, table);
            match event {
                ServerEvent::Done => now is ReadHandshake || now is Stop,
                ServerEvent::Failed => now is ReadHandshake || now is StartMux || now is Stop,
                ServerEvent::TimedOut | ServerEvent::Received(_) => !(now is ReadHandshake),
            }
        }),
    ensures
        server_step(table.pairs.len(), phase, event) == phase,
{
}

} // verus!
