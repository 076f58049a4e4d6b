//! The values that travel through one exchange: what a client may ask, what
//! it may be told, and what can end a session early.

use std::collections::HashMap;
use vstd::prelude::*;

verus! {

/// What a client asks for on its single line. `A` is the action payload,
/// which the library carries to the host without looking inside.
#[derive(Debug, PartialEq, Eq)]
pub enum Request<A> {
    /// Asks for the current outputs.
    Outputs,
    /// Asks the host to perform an action. Nothing is sent back.
    Action(A),
}

/// What a client is told. `D` is the descriptor of one output.
#[derive(Debug, PartialEq, Eq)]
pub enum Response<D> {
    /// Every output by its identifier.
    Outputs(HashMap<String, D>),
}

/// Why a session ended before its exchange was complete. None of these is
/// ever reported to the client: all the client sees is the connection close.
#[derive(Clone, Copy, Debug, PartialEq, Eq, Structural)]
pub enum SessionError {
    /// The accepted connection could not be made pollable.
    StreamAdapt,
    /// The line could not be read: the read failed, the peer closed before
    /// the newline, or the line is not UTF-8.
    Read,
    /// The line is not a request.
    Parse,
    /// The host could not take the action in the form it was sent.
    ActionConversion,
    /// The response could not be serialised.
    Encode,
    /// The response could not be written.
    Write,
}

impl SessionError {
    /// The text that `message` returns.
    pub open spec fn message_spec(self) -> Seq<char> {
        match self {
            SessionError::StreamAdapt => "error making IPC stream async"@,
            SessionError::Read => "error reading request"@,
            SessionError::Parse => "error parsing request"@,
            SessionError::ActionConversion => "error converting action"@,
            SessionError::Encode => "error formatting response"@,
            SessionError::Write => "error writing response"@,
        }
    }

    /// A line for the log.
    pub fn message(&self) -> (text: &'static str)
        ensures
            text@ == self.message_spec(),
    {
        match self {
            SessionError::StreamAdapt => "error making IPC stream async",
            SessionError::Read => "error reading request",
            SessionError::Parse => "error parsing request",
            SessionError::ActionConversion => "error converting action",
            SessionError::Encode => "error formatting response",
            SessionError::Write => "error writing response",
        }
    }
}

/// What the caller reports to a session. Each is the outcome of the step
/// that the session last asked for.
#[derive(Debug, PartialEq, Eq)]
pub enum Event<A, D> {
    /// The connection is now pollable.
    Adapted,
    /// The connection could not be made pollable.
    AdaptFailed,
    /// These bytes arrived.
    Data(Vec<u8>),
    /// The peer closed its side.
    Eof,
    /// Reading failed.
    ReadFailed,
    /// The line is this request.
    Decoded(Request<A>),
    /// The line is no request.
    DecodeFailed,
    /// The outputs as they are now.
    Snapshot(HashMap<String, D>),
    /// The response serialised to these bytes.
    Encoded(Vec<u8>),
    /// The response could not be serialised.
    EncodeFailed,
    /// Every byte was written.
    Written,
    /// Writing failed.
    WriteFailed,
    /// The action is queued with the host.
    Deferred,
    /// The host could not take the action.
    ConversionFailed,
}

/// What a session asks its caller to do next.
#[derive(Debug, PartialEq, Eq)]
pub enum Action<A, D> {
    /// Wait for bytes and report them.
    Read,
    /// Decode this line as a request.
    Decode(String),
    /// Take a copy of the outputs as they are at this moment.
    Snapshot,
    /// Serialise this response.
    Encode(Response<D>),
    /// Write these bytes to the client.
    Write(Vec<u8>),
    /// Hand this action to the host, to run once the current turn is over.
    Defer(A),
    /// Release the connection; the session is over, with this result.
    Close(Result<(), SessionError>),
}

/// An event with its bytes as a sequence.
pub enum EventView<A, D> {
    Adapted,
    AdaptFailed,
    Data(Seq<u8>),
    Eof,
    ReadFailed,
    Decoded(Request<A>),
    DecodeFailed,
    Snapshot(HashMap<String, D>),
    Encoded(Seq<u8>),
    EncodeFailed,
    Written,
    WriteFailed,
    Deferred,
    ConversionFailed,
}

/// An action with its text and bytes as sequences.
pub enum ActionView<A, D> {
    Read,
    Decode(Seq<char>),
    Snapshot,
    Encode(Response<D>),
    Write(Seq<u8>),
    Defer(A),
    Close(Result<(), SessionError>),
}

impl<A, D> View for Event<A, D> {
    type V = EventView<A, D>;

    open spec fn view(&self) -> EventView<A, D> {
        match *self {
            Event::Adapted => EventView::Adapted,
            Event::AdaptFailed => EventView::AdaptFailed,
            Event::Data(bytes) => EventView::Data(bytes@),
            Event::Eof => EventView::Eof,
            Event::ReadFailed => EventView::ReadFailed,
            Event::Decoded(request) => EventView::Decoded(request),
            Event::DecodeFailed => EventView::DecodeFailed,
            Event::Snapshot(outputs) => EventView::Snapshot(outputs),
            Event::Encoded(bytes) => EventView::Encoded(bytes@),
            Event::EncodeFailed => EventView::EncodeFailed,
            Event::Written => EventView::Written,
            Event::WriteFailed => EventView::WriteFailed,
            Event::Deferred => EventView::Deferred,
            Event::ConversionFailed => EventView::ConversionFailed,
        }
    }
}

impl<A, D> View for Action<A, D> {
    type V = ActionView<A, D>;

    open spec fn view(&self) -> ActionView<A, D> {
        match *self {
            Action::Read => ActionView::Read,
            Action::Decode(line) => ActionView::Decode(line@),
            Action::Snapshot => ActionView::Snapshot,
            Action::Encode(response) => ActionView::Encode(response),
            Action::Write(bytes) => ActionView::Write(bytes@),
            Action::Defer(action) => ActionView::Defer(action),
            Action::Close(result) => ActionView::Close(result),
        }
    }
}

} // verus!
