//! The server's own life: started once its socket listens, and woken
//! whenever the socket has a connection to accept.

use crate::session::{fresh, Session};
use vstd::prelude::*;

verus! {

/// How the attempt to listen at the socket path went.
#[derive(Clone, Copy, Debug, PartialEq, Eq, Structural)]
pub enum ListenOutcome {
    /// The socket is bound and non-blocking.
    Listening,
    /// The path is taken or cannot be written.
    BindFailed,
    /// The socket was bound but could not be made non-blocking.
    NonBlockingFailed,
}

/// Why the server did not start. The host decides whether to go on without
/// its control socket.
#[derive(Clone, Copy, Debug, PartialEq, Eq, Structural)]
pub enum BindError {
    /// The socket could not be bound.
    Bind,
    /// The socket could not be made non-blocking.
    NonBlocking,
}

impl BindError {
    /// The text that `message` returns.
    pub open spec fn message_spec(self) -> Seq<char> {
        match self {
            BindError::Bind => "error binding socket"@,
            BindError::NonBlocking => "error setting socket to non-blocking"@,
        }
    }

    /// A line for the log.
    pub fn message(&self) -> (text: &'static str)
        ensures
            text@ == self.message_spec(),
    {
        match self {
            BindError::Bind => "error binding socket",
            BindError::NonBlocking => "error setting socket to non-blocking",
        }
    }
}

/// A running server. It owns the path of its socket file: whoever drops the
/// server removes the file at `socket_path`, and does not mind if the file
/// is already gone.
#[derive(Debug)]
pub struct IpcServer {
    pub socket_path: String,
}

impl IpcServer {
    /// The server for the socket at `socket_path`, given how listening there
    /// went. There is a server exactly when the socket listens; each failure
    /// comes back as its own error.
    pub fn start(socket_path: String, listen: ListenOutcome) -> (started: Result<
        IpcServer,
        BindError,
    >)
        ensures
            match listen {
                ListenOutcome::Listening => started matches Ok(server) && server.socket_path
                    == socket_path,
                ListenOutcome::BindFailed => started matches Err(e) && e == BindError::Bind,
                ListenOutcome::NonBlockingFailed => started matches Err(e) && e
                    == BindError::NonBlocking,
            },
    {
        match listen {
            ListenOutcome::Listening => Ok(IpcServer { socket_path }),
            ListenOutcome::BindFailed => Err(BindError::Bind),
            ListenOutcome::NonBlockingFailed => Err(BindError::NonBlocking),
        }
    }
}

/// What one attempt to accept gave.
#[derive(Clone, Copy, Debug, PartialEq, Eq, Structural)]
pub enum Accepted {
    /// A connection.
    Connection,
    /// Nothing is waiting.
    WouldBlock,
    /// The system refused, for any other reason.
    Failed,
}

/// What the acceptor does after one attempt to accept.
#[derive(Debug)]
pub enum AcceptStep {
    /// Run this session for the new connection, and keep listening.
    Spawn(Session),
    /// Keep listening.
    Continue,
    /// Stop listening: remove the socket from the event loop. Sessions that
    /// already run are not touched.
    Remove,
}

/// The acceptor's answer to one wake-up. It is given the outcome of a
/// single attempt to accept, so a wake-up starts at most one session;
/// connections that still wait wake it again.
pub fn on_readable(accepted: Accepted) -> (step: AcceptStep)
    ensures
        match accepted {
            Accepted::Connection => step matches AcceptStep::Spawn(session) && session@
                == fresh(),
            Accepted::WouldBlock => step is Continue,
            Accepted::Failed => step is Remove,
        },
{
    match accepted {
        Accepted::Connection => AcceptStep::Spawn(Session::new()),
        Accepted::WouldBlock => AcceptStep::Continue,
        Accepted::Failed => AcceptStep::Remove,
    }
}

} // verus!
