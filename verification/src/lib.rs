//! The decisions of a small TCP tunnel.
//!
//! A server sits on a public machine and a tunnel client behind a firewall. The client dials the
//! server and keeps one control connection open; the server multiplexes every connection that
//! arrives on one of its routes over it, and the client opens the matching connection on its side.
//!
//! This crate holds what the two programs decide: how a command line is read, what goes over the
//! wire, and what to do next after each piece of I/O. It performs no I/O of its own. Each running
//! part is a state machine: it says which operation it wants (`request`), and is told what came of
//! it (`step`).

pub mod supervise;
pub mod text;
pub mod addr;
pub mod cli;
pub mod grammar;
pub mod route;
pub mod server;
pub mod stream;
pub mod tunnel;
pub mod wire;
