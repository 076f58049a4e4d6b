//! One client session: read a line, decode it, answer a query or hand an
//! action to the host, close.
//!
//! A session never performs a step itself. It is told what happened and says
//! what to do next, so that a caller can run any number of sessions side by
//! side on one thread and suspend each wherever it waits.

use crate::framing::{feed, has_newline, Framed, LineBuffer};
use crate::protocol::{Action, ActionView, Event, EventView, Request, Response, SessionError};
use vstd::prelude::*;
use vstd::utf8::*;

verus! {

/// How far the response to a query has come.
#[derive(Clone, Copy, Debug, PartialEq, Eq, Structural)]
pub enum Reply {
    /// Waiting for the copy of the outputs.
    Snapshot,
    /// Waiting for the serialised response.
    Encode,
    /// Waiting for the write to finish.
    Write,
}

/// Where a session stands.
#[derive(Clone, Copy, Debug, PartialEq, Eq, Structural)]
pub enum Phase {
    /// Accepted; the connection is not yet pollable.
    Connected,
    /// Reading the request line.
    AwaitingLine,
    /// The line is complete and is being decoded.
    Parsed,
    /// Answering a query.
    Responding(Reply),
    /// Handing an action to the host.
    Dispatching,
    /// Over. Nothing more happens on this connection.
    Closed,
}

/// A session as contracts see it.
pub struct SessionView {
    pub phase: Phase,
    /// The bytes of the line read so far.
    pub pending: Seq<u8>,
}

impl SessionView {
    /// Holds of every session: the bytes that wait for the rest of the line
    /// hold no newline.
    pub open spec fn wf(self) -> bool {
        !has_newline(self.pending)
    }
}

/// A session that has just been accepted.
pub open spec fn fresh() -> SessionView {
    SessionView { phase: Phase::Connected, pending: Seq::empty() }
}

/// What a session does when `event` is reported to it: its next state and
/// the action it asks for. `None` where the event answers nothing that a
/// session in this phase asked for; such an event changes nothing.
pub open spec fn step_spec<A, D>(s: SessionView, event: EventView<A, D>) -> Option<
    (SessionView, ActionView<A, D>),
> {
    let to = |phase: Phase| SessionView { phase, pending: s.pending };
    let fail = |error: SessionError| Some((to(Phase::Closed), ActionView::Close(Err(error))));
    match (s.phase, event) {
        (Phase::Connected, EventView::Adapted) => Some((to(Phase::AwaitingLine), ActionView::Read)),
        (Phase::Connected, EventView::AdaptFailed) => fail(SessionError::StreamAdapt),
        (Phase::AwaitingLine, EventView::Data(chunk)) => match feed(s.pending, chunk) {
            Framed::Partial(rest) => Some(
                (SessionView { phase: Phase::AwaitingLine, pending: rest }, ActionView::Read),
            ),
            Framed::Line(line) => if valid_utf8(line) {
                Some(
                    (
                        SessionView { phase: Phase::Parsed, pending: Seq::empty() },
                        ActionView::Decode(decode_utf8(line)),
                    ),
                )
            } else {
                Some(
                    (
                        SessionView { phase: Phase::Closed, pending: Seq::empty() },
                        ActionView::Close(Err(SessionError::Read)),
                    ),
                )
            },
        },
        (Phase::AwaitingLine, EventView::Eof) => fail(SessionError::Read),
        (Phase::AwaitingLine, EventView::ReadFailed) => fail(SessionError::Read),
        (Phase::Parsed, EventView::Decoded(Request::Outputs)) => Some(
            (to(Phase::Responding(Reply::Snapshot)), ActionView::Snapshot),
        ),
        (Phase::Parsed, EventView::Decoded(Request::Action(action))) => Some(
            (to(Phase::Dispatching), ActionView::Defer(action)),
        ),
        (Phase::Parsed, EventView::DecodeFailed) => fail(SessionError::Parse),
        (Phase::Responding(Reply::Snapshot), EventView::Snapshot(outputs)) => Some(
            (to(Phase::Responding(Reply::Encode)), ActionView::Encode(Response::Outputs(outputs))),
        ),
        (Phase::Responding(Reply::Encode), EventView::Encoded(bytes)) => Some(
            (to(Phase::Responding(Reply::Write)), ActionView::Write(bytes)),
        ),
        (Phase::Responding(Reply::Encode), EventView::EncodeFailed) => fail(SessionError::Encode),
        (Phase::Responding(Reply::Write), EventView::Written) => Some(
            (to(Phase::Closed), ActionView::Close(Ok(()))),
        ),
        (Phase::Responding(Reply::Write), EventView::WriteFailed) => fail(SessionError::Write),
        (Phase::Dispatching, EventView::Deferred) => Some(
            (to(Phase::Closed), ActionView::Close(Ok(()))),
        ),
        (Phase::Dispatching, EventView::ConversionFailed) => fail(
            SessionError::ActionConversion,
        ),
        _ => None,
    }
}

/// `String::from_utf8`: the text of `bytes` where they are UTF-8, and `None`
/// where they are not. That the standard library accepts exactly the byte
/// sequences that `valid_utf8` describes, and yields the characters that
/// `decode_utf8` gives, is taken on trust.
#[verifier::external_body]
fn utf8_text(bytes: Vec<u8>) -> (text: Option<String>)
    ensures
        text is Some <==> valid_utf8(bytes@),
        text matches Some(s) ==> s@ == decode_utf8(bytes@),
{
    String::from_utf8(bytes).ok()
}

/// One client session.
#[derive(Debug)]
pub struct Session {
    phase: Phase,
    line: LineBuffer,
}

impl View for Session {
    type V = SessionView;

    closed spec fn view(&self) -> SessionView {
        SessionView { phase: self.phase, pending: self.line@ }
    }
}

impl Session {
    /// The session of a connection that was just accepted.
    pub fn new() -> (session: Session)
        ensures
            session@ == fresh(),
            session@.wf(),
    {
        Session { phase: Phase::Connected, line: LineBuffer::new() }
    }

    /// Where the session stands.
    pub fn phase(&self) -> (phase: Phase)
        ensures
            phase == self@.phase,
    {
        self.phase
    }

    /// True once the session is over.
    pub fn is_closed(&self) -> (closed: bool)
        ensures
            closed <==> self@.phase == Phase::Closed,
    {
        self.phase == Phase::Closed
    }

    fn close<A, D>(&mut self, result: Result<(), SessionError>) -> (action: Option<Action<A, D>>)
        ensures
            final(self)@ == (SessionView { phase: Phase::Closed, pending: old(self)@.pending }),
            action == Some(Action::<A, D>::Close(result)),
    {
        self.phase = Phase::Closed;
        Some(Action::Close(result))
    }

    fn advance<A, D>(&mut self, phase: Phase, action: Action<A, D>) -> (next: Option<Action<A, D>>)
        ensures
            final(self)@ == (SessionView { phase, pending: old(self)@.pending }),
            next == Some(action),
    {
        self.phase = phase;
        Some(action)
    }

    /// Reports `event` to the session and returns what to do next. An event
    /// that answers nothing the session asked for is ignored: the session
    /// stays as it is and `None` comes back.
    pub fn step<A, D>(&mut self, event: Event<A, D>) -> (action: Option<Action<A, D>>)
        ensures
            old(self)@.wf(),
            final(self)@.wf(),
            match step_spec(old(self)@, event@) {
                Some((next, asked)) => {
                    &&& final(self)@ == next
                    &&& action matches Some(a)
                    &&& a@ == asked
                },
                None => final(self)@ == old(self)@ && action is None,
            },
    {
        proof {
            use_type_invariant(&self.line);
            self.line.lemma_no_newline_waits();
        }
        match self.phase {
            Phase::Connected => match event {
                Event::Adapted => self.advance(Phase::AwaitingLine, Action::Read),
                Event::AdaptFailed => self.close(Err(SessionError::StreamAdapt)),
                _ => None,
            },
            Phase::AwaitingLine => match event {
                Event::Data(chunk) => match self.line.push(chunk.as_slice()) {
                    None => Some(Action::Read),
                    Some(line) => match utf8_text(line) {
                        Some(text) => self.advance(Phase::Parsed, Action::Decode(text)),
                        None => self.close(Err(SessionError::Read)),
                    },
                },
                Event::Eof => self.close(Err(SessionError::Read)),
                Event::ReadFailed => self.close(Err(SessionError::Read)),
                _ => None,
            },
            Phase::Parsed => match event {
                Event::Decoded(Request::Outputs) => self.advance(
                    Phase::Responding(Reply::Snapshot),
                    Action::Snapshot,
                ),
                Event::Decoded(Request::Action(action)) => self.advance(
                    Phase::Dispatching,
                    Action::Defer(action),
                ),
                Event::DecodeFailed => self.close(Err(SessionError::Parse)),
                _ => None,
            },
            Phase::Responding(Reply::Snapshot) => match event {
                Event::Snapshot(outputs) => self.advance(
                    Phase::Responding(Reply::Encode),
                    Action::Encode(Response::Outputs(outputs)),
                ),
                _ => None,
            },
            Phase::Responding(Reply::Encode) => match event {
                Event::Encoded(bytes) => self.advance(
                    Phase::Responding(Reply::Write),
                    Action::Write(bytes),
                ),
                Event::EncodeFailed => self.close(Err(SessionError::Encode)),
                _ => None,
            },
            Phase::Responding(Reply::Write) => match event {
                Event::Written => self.close(Ok(())),
                Event::WriteFailed => self.close(Err(SessionError::Write)),
                _ => None,
            },
            Phase::Dispatching => match event {
                Event::Deferred => self.close(Ok(())),
                Event::ConversionFailed => self.close(Err(SessionError::ActionConversion)),
                _ => None,
            },
            Phase::Closed => None,
        }
    }
}

} // verus!
