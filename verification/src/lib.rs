//! The protocol core of a local control socket: where the socket lives, what
//! the acceptor does on each wake-up, and how one client session runs from
//! its first byte to its close.
//!
//! Nothing here touches a socket. The caller performs the reads, writes and
//! scheduling and reports each outcome as an event; the library answers with
//! the next thing to do.

pub mod decimal;
pub mod framing;
pub mod protocol;
pub mod server;
pub mod session;
pub mod socket;
pub mod trace;
