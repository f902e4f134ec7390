use tunrs::cli::{Args, RouteTable};
use tunrs::route::{
    Forward, ForwardEnd, ForwardEvent, ForwardRequest, Listener, ListenerEvent, ListenerRequest,
};
use tunrs::server::{Phase, Server, ServerEnd, ServerEvent, ServerRequest};
use tunrs::stream::{Stream, StreamEnd, StreamEvent, StreamRequest};
use tunrs::supervise::{tasks, Task, Watch, WatchRequest, RECONNECT_SECS};
use tunrs::tunnel::{Tunnel, TunnelEnd, TunnelEvent, TunnelRequest};
use tunrs::wire::{encode_frame, handshake_bytes, is_handshake, HANDSHAKE};

#[test]
fn handshake_is_its_text() {
    assert_eq!(handshake_bytes(), HANDSHAKE.as_bytes().to_vec());
    assert_eq!(HANDSHAKE.len(), 66);
    assert!(is_handshake(&handshake_bytes()));
}

#[test]
fn other_handshakes_are_refused() {
    let whole = handshake_bytes();
    assert!(!is_handshake(&vec![]));
    for got in 0..whole.len() {
        let mut buf = vec![0u8; whole.len()];
        buf[..got].copy_from_slice(&whole[..got]);
        assert!(!is_handshake(&buf));
        assert!(!is_handshake(&whole[..got].to_vec()));
    }
    let mut long = whole.clone();
    long.push(b'=');
    assert!(!is_handshake(&long));
    let mut other = whole.clone();
    other[10] ^= 1;
    assert!(!is_handshake(&other));
}

#[test]
fn frames() {
    assert_eq!(encode_frame(""), vec![0]);
    assert_eq!(encode_frame("1.2.3.4:5"), b"\x091.2.3.4:5".to_vec());
    assert_eq!(encode_frame("\u{e9}"), vec![2, 0xc3, 0xa9]);
    assert_eq!(encode_frame(&"a".repeat(255))[0], 255);
    let long = encode_frame(&"a".repeat(256));
    assert_eq!(long[0], 0);
    assert_eq!(long.len(), 257);
}

/// Answers all of a stream's requests to read from some bytes.
fn read_from(bytes: &[u8]) -> (Stream<String>, Vec<u8>) {
    let mut rest = bytes.to_vec();
    let mut state = Stream::new();
    loop {
        let (event, taken) = match state.request() {
            StreamRequest::ReadLength if rest.is_empty() => (StreamEvent::Failed, 0),
            StreamRequest::ReadLength => (StreamEvent::Length(rest[0]), 1),
            StreamRequest::ReadBytes(n) if rest.len() < n as usize => (StreamEvent::Failed, 0),
            StreamRequest::ReadBytes(n) => {
                (StreamEvent::Bytes(rest[..n as usize].to_vec()), n as usize)
            }
            _ => return (state, rest),
        };
        rest.drain(..taken);
        state = state.step(event);
    }
}

#[test]
fn header_reads_back() {
    for (peer, target) in [
        ("10.0.0.9:51234", "10.0.0.1:80"),
        ("", ""),
        ("\u{e9}\u{1f600}", "x"),
        ("[::1]:1", "[fe80::1%2]:65535"),
    ] {
        let mut bytes = encode_frame(peer);
        bytes.extend(encode_frame(target));
        let header = bytes.len();
        bytes.extend(b"GET / HTTP/1.1");
        let connecting = Stream::Connecting { peer: peer.to_string(), target: target.to_string() };
        assert_eq!(connecting.request(), StreamRequest::Connect(target.to_string()));
        assert_eq!(read_from(&bytes), (connecting, b"GET / HTTP/1.1".to_vec()));
        for len in 0..header {
            assert!(matches!(read_from(&bytes[..len]).0, Stream::Ended(_)));
        }
    }
}

#[test]
fn broken_headers() {
    assert_eq!(read_from(b"").0, Stream::Ended(StreamEnd::PeerLengthUnread));
    assert_eq!(read_from(b"\x02a").0, Stream::Ended(StreamEnd::PeerUnread));
    assert_eq!(read_from(b"\x01\xff").0, Stream::Ended(StreamEnd::PeerInvalid));
    assert_eq!(read_from(b"\x01a").0, Stream::Ended(StreamEnd::TargetLengthUnread));
    assert_eq!(read_from(b"\x01a\x02b").0, Stream::Ended(StreamEnd::TargetUnread));
    assert_eq!(read_from(b"\x01a\x02\xc3\x28").0, Stream::Ended(StreamEnd::TargetInvalid));
}

#[test]
fn stream_after_its_header() {
    let connecting = || Stream::Connecting { peer: "p".to_string(), target: "t".to_string() };
    let copying = || connecting().step(StreamEvent::Connected);
    assert_eq!(copying(), Stream::Copying { peer: "p".to_string(), target: "t".to_string() });
    assert_eq!(copying().request(), StreamRequest::Copy);
    assert_eq!(
        connecting().step(StreamEvent::Failed),
        Stream::Ended(StreamEnd::TargetUnreachable {
            peer: "p".to_string(),
            target: "t".to_string()
        })
    );
    assert_eq!(
        copying().step(StreamEvent::Copied { from_remote: 3, from_local: 4 }),
        Stream::Ended(StreamEnd::Closed {
            peer: "p".to_string(),
            target: "t".to_string(),
            from_remote: 3,
            from_local: 4
        })
    );
    let ended = copying().step(StreamEvent::Failed);
    assert_eq!(
        ended,
        Stream::Ended(StreamEnd::TransferFailed { peer: "p".to_string(), target: "t".to_string() })
    );
    assert_eq!(ended.request(), StreamRequest::Stop);
}

#[test]
fn events_that_answer_nothing() {
    assert_eq!(Stream::new().step(StreamEvent::Connected), Stream::PeerLength);
    assert_eq!(
        Stream::PeerText { len: 2 }.step(StreamEvent::Bytes(vec![b'a'])),
        Stream::PeerText { len: 2 }
    );
    assert_eq!(Tunnel::Accepting.step(TunnelEvent::Failed), Tunnel::Accepting);
    assert_eq!(Forward::Copying.step(&ForwardEvent::Done), Forward::Copying);
}

#[test]
fn tunnel_greets_first() {
    let mut tunnel = Tunnel::new();
    assert_eq!(tunnel.request("1.2.3.4:9000"), TunnelRequest::Connect("1.2.3.4:9000".to_string()));
    tunnel = tunnel.step(TunnelEvent::Done);
    assert_eq!(tunnel.request("1.2.3.4:9000"), TunnelRequest::Write(handshake_bytes()));
    tunnel = tunnel.step(TunnelEvent::Done);
    assert_eq!(tunnel.request("1.2.3.4:9000"), TunnelRequest::Flush);
    tunnel = tunnel.step(TunnelEvent::Done);
    assert_eq!(
        tunnel.request("1.2.3.4:9000"),
        TunnelRequest::StartMux { keep_alive_secs: 18 }
    );
    tunnel = tunnel.step(TunnelEvent::Done);
    assert_eq!(tunnel.request("1.2.3.4:9000"), TunnelRequest::Accept);
    tunnel = tunnel.step(TunnelEvent::Done);
    assert_eq!(tunnel.request("1.2.3.4:9000"), TunnelRequest::Spawn);
    tunnel = tunnel.step(TunnelEvent::Done);
    assert_eq!(tunnel.request("1.2.3.4:9000"), TunnelRequest::Accept);
    tunnel = tunnel.step(TunnelEvent::Closed);
    assert_eq!(tunnel.request("1.2.3.4:9000"), TunnelRequest::JoinWorker);
    tunnel = tunnel.step(TunnelEvent::Failed);
    assert_eq!(tunnel, Tunnel::Ended(TunnelEnd::Finished));
    assert_eq!(tunnel.request("1.2.3.4:9000"), TunnelRequest::Stop);
}

#[test]
fn tunnel_failures() {
    let mut tunnel = Tunnel::new();
    for end in [TunnelEnd::Unreachable, TunnelEnd::HandshakeUnsent, TunnelEnd::HandshakeUnflushed] {
        assert_eq!(tunnel.step(TunnelEvent::Failed), Tunnel::Ended(end));
        tunnel = tunnel.step(TunnelEvent::Done);
    }
}

#[test]
fn bound_routes_never_stop() {
    assert_eq!(Listener::new().request("a:1"), ListenerRequest::Bind("a:1".to_string()));
    assert_eq!(Listener::new().step(ListenerEvent::Failed), Listener::Unbound);
    assert_eq!(Listener::Unbound.request("a:1"), ListenerRequest::Stop);

    let mut route = Listener::new().step(ListenerEvent::Done);
    for seed in 0..64u32 {
        for bit in 0..6 {
            let done = seed >> bit & 1 == 1;
            let event = if done { ListenerEvent::Done } else { ListenerEvent::Failed };
            route = route.step(event);
            assert_ne!(route.request("a:1"), ListenerRequest::Stop);
        }
    }
}

#[test]
fn route_takes_a_connection() {
    let mut route = Listener::Accepting;
    assert_eq!(route.request("a:1"), ListenerRequest::Accept);
    assert_eq!(route.step(ListenerEvent::Failed), Listener::Accepting);
    route = route.step(ListenerEvent::Done);
    assert_eq!(route.request("a:1"), ListenerRequest::OpenStream);
    assert_eq!(route.step(ListenerEvent::Failed), Listener::Accepting);
    route = route.step(ListenerEvent::Done);
    assert_eq!(route.request("a:1"), ListenerRequest::Spawn);
    assert_eq!(route.step(ListenerEvent::Done), Listener::Accepting);
}

#[test]
fn forwarding_sends_its_header() {
    let (peer, target) = ("10.0.0.9:51234", "10.0.0.1:80");
    let mut sent = Vec::new();
    let mut forward = Forward::new();
    while let ForwardRequest::Write(bytes) = forward.request(peer, target) {
        sent.extend(bytes);
        forward = forward.step(&ForwardEvent::Done);
    }
    assert_eq!(forward.request(peer, target), ForwardRequest::Flush);
    forward = forward.step(&ForwardEvent::Done);
    assert_eq!(forward.request(peer, target), ForwardRequest::Copy);
    assert_eq!(sent, b"\x0e10.0.0.9:51234\x0b10.0.0.1:80".to_vec());
    assert_eq!(
        read_from(&sent).0,
        Stream::Connecting { peer: peer.to_string(), target: target.to_string() }
    );
    forward = forward.step(&ForwardEvent::Copied { from_client: 1, from_target: 2 });
    assert_eq!(forward, Forward::Ended(ForwardEnd::Completed { from_client: 1, from_target: 2 }));
    assert_eq!(forward.request(peer, target), ForwardRequest::Stop);
}

#[test]
fn forwarding_failures() {
    let failed = |reason: &str| ForwardEvent::Failed(reason.to_string());
    assert_eq!(Forward::new().step(&failed("x")), Forward::Ended(ForwardEnd::PeerUnsent));
    assert_eq!(
        Forward::SendingTarget.step(&failed("closed")),
        Forward::Ended(ForwardEnd::TargetUnsent)
    );
    assert_eq!(Forward::Flushing.step(&failed("x")), Forward::Ended(ForwardEnd::Unflushed));
    assert_eq!(
        Forward::Copying.step(&failed("stream was closed by peer")),
        Forward::Ended(ForwardEnd::Closed)
    );
    assert_eq!(
        Forward::Copying.step(&failed("connection reset by peer")),
        Forward::Ended(ForwardEnd::Broken)
    );
}

fn table(routes: usize) -> RouteTable {
    RouteTable {
        tunn: "0.0.0.0:9000".to_string(),
        pairs: (0..routes).map(|i| [format!("listen:{i}"), format!("target:{i}")]).collect(),
    }
}

fn greeted(routes: usize) -> Server {
    Server::new(table(routes))
        .step(&ServerEvent::Done)
        .step(&ServerEvent::Done)
        .step(&ServerEvent::Received(handshake_bytes()))
        .step(&ServerEvent::Done)
}

#[test]
fn server_waits_for_the_handshake() {
    let new = || Server::new(table(1));
    assert_eq!(new().request(), ServerRequest::Bind("0.0.0.0:9000".to_string()));
    assert_eq!(new().step(&ServerEvent::Failed).phase, Phase::Ended(ServerEnd::Unbound));
    let bound = || new().step(&ServerEvent::Done);
    assert_eq!(bound().request(), ServerRequest::Accept);
    assert_eq!(bound().step(&ServerEvent::Failed).phase, Phase::Ended(ServerEnd::AcceptFailed));
    let met = || bound().step(&ServerEvent::Done);
    assert_eq!(met().request(), ServerRequest::ReadHandshake { len: 66, secs: 9 });
    assert_eq!(met().step(&ServerEvent::TimedOut).phase, Phase::Accepting);
    let wrong = ServerEvent::Received(vec![0; HANDSHAKE.len()]);
    assert_eq!(met().step(&wrong).phase, Phase::Accepting);
    assert!(!met().step(&wrong).greeted());
    let accepted = met().step(&ServerEvent::Received(handshake_bytes()));
    assert!(!met().greeted() && accepted.greeted());
    assert_eq!(accepted.request(), ServerRequest::StartMux { idle_secs: 60 });
    assert_eq!(
        accepted.step(&ServerEvent::Done).request(),
        ServerRequest::StartRoute { listen: "listen:0".to_string(), target: "target:0".to_string() }
    );
}

#[test]
fn server_tries_every_route() {
    for outcomes in 0..16u32 {
        let mut server = greeted(4);
        for i in 0..4 {
            assert_eq!(
                server.request(),
                ServerRequest::StartRoute {
                    listen: format!("listen:{i}"),
                    target: format!("target:{i}"),
                }
            );
            let up = outcomes >> i & 1 == 1;
            server = server.step(&if up { ServerEvent::Done } else { ServerEvent::Failed });
        }
        let started = outcomes.count_ones() as usize;
        if started == 0 {
            assert_eq!(server.phase, Phase::Ended(ServerEnd::NoRoutes));
            continue;
        }
        for i in 0..started {
            assert_eq!(server.request(), ServerRequest::JoinRoute(i));
            server = server.step(&if i == 0 { ServerEvent::Failed } else { ServerEvent::Done });
        }
        assert_eq!(server.request(), ServerRequest::JoinWorker);
        server = server.step(&ServerEvent::Done);
        assert_eq!(server.phase, Phase::Ended(ServerEnd::Finished));
        assert_eq!(server.request(), ServerRequest::Stop);
    }
}

#[test]
fn server_without_routes() {
    assert_eq!(greeted(0).phase, Phase::Ended(ServerEnd::NoRoutes));
}

#[test]
fn path_of_a_connection() {
    let server = greeted(1);
    let (listen, target) = match server.request() {
        ServerRequest::StartRoute { listen, target } => (listen, target),
        other => panic!("{other:?}"),
    };
    assert_eq!(Listener::new().request(&listen), ListenerRequest::Bind("listen:0".to_string()));
    let mut sent = Vec::new();
    let mut forward = Forward::new();
    while let ForwardRequest::Write(bytes) = forward.request("peer:7", &target) {
        sent.extend(bytes);
        forward = forward.step(&ForwardEvent::Done);
    }
    assert_eq!(read_from(&sent).0.request(), StreamRequest::Connect("target:0".to_string()));
}

#[test]
fn server_accepts_a_tunnel() {
    let greeting = Tunnel::new().step(TunnelEvent::Done).request("0.0.0.0:9000");
    let sent = match greeting {
        TunnelRequest::Write(bytes) => bytes,
        other => panic!("{other:?}"),
    };
    let server = Server::new(table(1)).step(&ServerEvent::Done).step(&ServerEvent::Done);
    let server = server.step(&ServerEvent::Received(sent));
    assert_eq!(server.phase, Phase::Multiplexing);
    assert_eq!(server.step(&ServerEvent::Done).phase, Phase::Starting { next: 0, started: 0 });
}

#[test]
fn keep_alive_is_the_shorter_time() {
    let keep_alive = match Tunnel::Multiplexing.request("1.2.3.4:9000") {
        TunnelRequest::StartMux { keep_alive_secs } => keep_alive_secs,
        other => panic!("{other:?}"),
    };
    let server = Server { table: table(1), phase: Phase::Multiplexing };
    let idle = match server.request() {
        ServerRequest::StartMux { idle_secs } => idle_secs,
        other => panic!("{other:?}"),
    };
    assert!(0 < keep_alive && keep_alive < idle);
}

#[test]
fn handshake_is_sent_once() {
    let mut sent = Vec::new();
    let mut tunnel = Tunnel::new();
    while tunnel != Tunnel::Dispatching {
        if let TunnelRequest::Write(bytes) = tunnel.request("1.2.3.4:9000") {
            sent.extend(bytes);
        }
        tunnel = tunnel.step(TunnelEvent::Done);
    }
    assert_eq!(sent, handshake_bytes());
}

#[test]
fn server_errors_of_its_own() {
    assert_eq!(ServerEnd::NoRoutes.error(), Some("no routes started"));
    for end in [ServerEnd::Unbound, ServerEnd::AcceptFailed, ServerEnd::Finished] {
        assert_eq!(end.error(), None);
        let server = Server { table: table(1), phase: Phase::Ended(end) };
        assert_eq!(server.greeted(), end == ServerEnd::Finished);
    }
}

#[test]
fn command_line_routes_work() {
    let line: Vec<String> =
        ["-r", "9000", "3000", "65535"].iter().map(|a| a.to_string()).collect();
    let found = Args::parse(&line).unwrap();
    let target = &found.route_table[0].pairs[0][1];
    assert_eq!(encode_frame(target), b"\x0d0.0.0.0:65535".to_vec());
    let mut bytes = encode_frame("peer:7");
    bytes.extend(encode_frame(target));
    assert_eq!(
        read_from(&bytes).0.request(),
        StreamRequest::Connect("0.0.0.0:65535".to_string())
    );
}

#[test]
fn tasks_in_order() {
    let table = |tunn: &str| RouteTable { tunn: tunn.to_string(), pairs: vec![] };
    let args = Args {
        tunn: vec!["a".to_string(), "b".to_string()],
        route_table: vec![table("c"), table("d")],
    };
    assert_eq!(
        tasks(args),
        vec![
            Task::Server(table("c")),
            Task::Server(table("d")),
            Task::Tunnel("a".to_string()),
            Task::Tunnel("b".to_string()),
        ]
    );
}

#[test]
fn tasks_are_restarted() {
    let mut watch = Watch::new();
    for run in 1..5 {
        assert_eq!(watch, Watch::Running { attempt: run });
        assert_eq!(watch.request(), WatchRequest::Run);
        watch = watch.step();
        assert_eq!(watch, Watch::Resting { attempt: run });
        assert_eq!(watch.request(), WatchRequest::Wait(6));
        watch = watch.step();
    }
    assert_eq!(RECONNECT_SECS, 6);
}

#[test]
fn frames_are_told_apart() {
    let mut one = encode_frame("ab");
    one.extend(encode_frame("c"));
    let mut other = encode_frame("a");
    other.extend(encode_frame("bc"));
    assert_ne!(one, other);
    assert_ne!(read_from(&one).0, read_from(&other).0);
}

#[test]
fn ended_stays_ended() {
    let tunnel = Tunnel::Ended(TunnelEnd::Unreachable);
    assert_eq!(tunnel.step(TunnelEvent::Done), tunnel);
    let stream: Stream<String> = Stream::Ended(StreamEnd::PeerInvalid);
    assert_eq!(stream.step(StreamEvent::Length(1)), Stream::Ended(StreamEnd::PeerInvalid));
    let forward = Forward::Ended(ForwardEnd::Closed);
    assert_eq!(forward.step(&ForwardEvent::Failed("closed".to_string())), forward);
    let server = Server { table: table(1), phase: Phase::Ended(ServerEnd::NoRoutes) };
    assert_eq!(server.step(&ServerEvent::Done).phase, Phase::Ended(ServerEnd::NoRoutes));
}

#[test]
fn which_ends_are_a_success() {
    assert!(ServerEnd::Finished.succeeded());
    for end in [ServerEnd::Unbound, ServerEnd::AcceptFailed, ServerEnd::NoRoutes] {
        assert!(!end.succeeded());
    }
    assert!(TunnelEnd::Finished.succeeded());
    for end in [TunnelEnd::Unreachable, TunnelEnd::HandshakeUnsent, TunnelEnd::HandshakeUnflushed] {
        assert!(!end.succeeded());
    }
}

#[test]
fn strangers_leave_no_trace() {
    let mut server = Server::new(table(1)).step(&ServerEvent::Done);
    for event in [
        ServerEvent::TimedOut,
        ServerEvent::Received(vec![]),
        ServerEvent::Received(vec![b'x'; HANDSHAKE.len()]),
        ServerEvent::TimedOut,
    ] {
        server = server.step(&ServerEvent::Done).step(&event);
        assert_eq!(server, Server::new(table(1)).step(&ServerEvent::Done));
    }
}
