# tunrs

A lightweight TCP tunnel. A server listens on its routes and sends every connection that arrives
over one multiplexed control connection to a tunnel client, which connects it to the route's target.

    # client mode
    tunrs --tunn 1.2.3.4:9000

    # server mode: incoming connection -> <A> -> <TUNN> -> <B>
    tunrs --route 0.0.0.0:9000 \
        127.0.0.1:3000 10.0.0.1:80 \
        127.0.0.1:4000 10.0.0.2:443

`src/` is the library, verified with Verus: how a command line is read, what goes over the wire, and
what to do next after each operation. It does no I/O.

| module      | what it holds                                                        |
|-------------|----------------------------------------------------------------------|
| `text`      | comparison and search of texts, decimal numerals                     |
| `addr`      | addresses: bare ports, and the readings of other texts               |
| `cli`       | the command line: arguments, route tables, exits                     |
| `grammar`   | what a command line means, and the laws that hold of it              |
| `wire`      | the handshake, and the frames that open a stream                     |
| `server`    | the server's side of a control connection                            |
| `route`     | one route of a server, and the forwarding of one connection          |
| `tunnel`    | the tunnel's side of a control connection                            |
| `stream`    | one stream at the tunnel's end                                       |
| `supervise` | which tasks a program runs, and how it restarts them                 |

The running parts are state machines. `request` says which operation is wanted, `step` takes what
came of it. `app/` is the program. It performs the operations with Tokio and `async_smux`, reads each
argument as a socket address with the standard library and hands the library what came of that, and
words the log. None of this is verified; in particular, nothing is proved of which texts spell socket
addresses, or of how their canonical forms look.

What is taken on trust is marked `external_body`: one function, which calls `String::from_utf8`.
