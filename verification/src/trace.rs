//! What holds of whole sessions, whatever the caller reports and in
//! whatever order.

use crate::framing::{feed, lemma_first_line_of_prefix, Framed};
use crate::protocol::{ActionView, EventView, Request, Response, SessionError};
use crate::session::{fresh, step_spec, Phase, Reply, SessionView};
use vstd::prelude::*;

verus! {

/// The state a session reaches, and the actions it asks for on the way, when
/// `events` are reported to it in order. Events that it ignores leave no
/// trace.
pub open spec fn run<A, D>(s: SessionView, events: Seq<EventView<A, D>>) -> (
    SessionView,
    Seq<ActionView<A, D>>,
)
    decreases events.len(),
{
    if events.len() == 0 {
        (s, Seq::empty())
    } else {
        match step_spec(s, events.first()) {
            Some((next, action)) => {
                let rest = run(next, events.drop_first());
                (rest.0, seq![action] + rest.1)
            },
            None => run(s, events.drop_first()),
        }
    }
}

/// How many elements of `items` satisfy `wanted`.
pub open spec fn count<T>(items: Seq<T>, wanted: spec_fn(T) -> bool) -> nat
    decreases items.len(),
{
    if items.len() == 0 {
        0
    } else {
        count(items.drop_last(), wanted) + if wanted(items.last()) {
            1nat
        } else {
            0nat
        }
    }
}

/// How many lines were handed out for decoding.
pub open spec fn decodes<A, D>(actions: Seq<ActionView<A, D>>) -> nat {
    count(actions, |a: ActionView<A, D>| a is Decode)
}

/// How many responses were handed out for serialising.
pub open spec fn encodes<A, D>(actions: Seq<ActionView<A, D>>) -> nat {
    count(actions, |a: ActionView<A, D>| a is Encode)
}

/// How many times bytes were sent to the client.
pub open spec fn writes<A, D>(actions: Seq<ActionView<A, D>>) -> nat {
    count(actions, |a: ActionView<A, D>| a is Write)
}

/// How many actions were handed to the host.
pub open spec fn defers<A, D>(actions: Seq<ActionView<A, D>>) -> nat {
    count(actions, |a: ActionView<A, D>| a is Defer)
}

/// Counting over two sequences joined is counting over each.
pub proof fn lemma_count_add<T>(a: Seq<T>, b: Seq<T>, wanted: spec_fn(T) -> bool)
    ensures
        count(a + b, wanted) == count(a, wanted) + count(b, wanted),
    decreases b.len(),
{
    if b.len() == 0 {
        assert(a + b =~= a);
    } else {
        assert((a + b).drop_last() =~= a + b.drop_last());
        lemma_count_add(a, b.drop_last(), wanted);
    }
}

/// Counting over one element.
pub proof fn lemma_count_one<T>(item: T, wanted: spec_fn(T) -> bool)
    ensures
        count(seq![item], wanted) == if wanted(item) {
            1nat
        } else {
            0nat
        },
{
    assert(seq![item].drop_last() =~= Seq::<T>::empty());
    assert(count(Seq::<T>::empty(), wanted) == 0);
}

/// Running over two sequences joined is running over the first and going on
/// over the second.
pub proof fn lemma_run_add<A, D>(
    s: SessionView,
    first: Seq<EventView<A, D>>,
    second: Seq<EventView<A, D>>,
)
    ensures
        run(s, first + second) == ({
            let a = run(s, first);
            let b = run(a.0, second);
            (b.0, a.1 + b.1)
        }),
    decreases first.len(),
{
    if first.len() == 0 {
        assert(first + second =~= second);
        assert(Seq::<ActionView<A, D>>::empty() + run(s, second).1 =~= run(s, second).1);
    } else {
        let all = first + second;
        assert(all.first() == first.first());
        assert(all.drop_first() =~= first.drop_first() + second);
        match step_spec(s, first.first()) {
            Some((next, action)) => {
                lemma_run_add(next, first.drop_first(), second);
                let a = run(next, first.drop_first());
                let b = run(a.0, second);
                assert(seq![action] + (a.1 + b.1) =~= (seq![action] + a.1) + b.1);
            },
            None => {
                lemma_run_add(s, first.drop_first(), second);
            },
        }
    }
}

/// Running over one event is one step.
pub proof fn lemma_run_one<A, D>(s: SessionView, event: EventView<A, D>)
    ensures
        run(s, seq![event]) == match step_spec(s, event) {
            Some((next, action)) => (next, seq![action]),
            None => (s, Seq::empty()),
        },
{
    let events = seq![event];
    assert(events.first() == event);
    assert(events.drop_first() =~= Seq::<EventView<A, D>>::empty());
    match step_spec(s, event) {
        Some((next, action)) => {
            assert(run(next, events.drop_first()) == (next, Seq::<ActionView<A, D>>::empty()));
            assert(seq![action] + Seq::<ActionView<A, D>>::empty() =~= seq![action]);
        },
        None => {
            assert(run(s, events.drop_first()) == (s, Seq::<ActionView<A, D>>::empty()));
        },
    }
}

/// Whatever is reported, the bytes that wait in a session hold no newline.
pub proof fn lemma_always_wf<A, D>(s: SessionView, events: Seq<EventView<A, D>>)
    requires
        s.wf(),
    ensures
        run(s, events).0.wf(),
    decreases events.len(),
{
    if events.len() > 0 {
        match step_spec(s, events.first()) {
            Some((next, _)) => {
                lemma_always_wf(next, events.drop_first());
            },
            None => {
                lemma_always_wf(s, events.drop_first());
            },
        }
    }
}

/// A closed session stays closed and asks for nothing more: no connection
/// outlives its one exchange.
pub proof fn lemma_closed_is_final<A, D>(s: SessionView, events: Seq<EventView<A, D>>)
    requires
        s.phase == Phase::Closed,
    ensures
        run(s, events) == (s, Seq::<ActionView<A, D>>::empty()),
    decreases events.len(),
{
    if events.len() > 0 {
        lemma_closed_is_final(s, events.drop_first());
    }
}

/// True when a session in `phase` has not yet handed out its line.
pub open spec fn before_decode(phase: Phase) -> bool {
    phase == Phase::Connected || phase == Phase::AwaitingLine
}

/// True when a session in `phase` has not yet decided what its request asks
/// for.
pub open spec fn before_dispatch(phase: Phase) -> bool {
    before_decode(phase) || phase == Phase::Parsed
}

/// True when a session in `phase` has not yet handed out a response.
pub open spec fn before_encode(phase: Phase) -> bool {
    before_dispatch(phase) || phase == Phase::Responding(Reply::Snapshot)
}

/// True when a session in `phase` may still send bytes to its client.
pub open spec fn before_write(phase: Phase) -> bool {
    before_encode(phase) || phase == Phase::Responding(Reply::Encode)
}

/// From any state on, a session hands out a line, a response, bytes for the
/// client and an action for the host only while it has not passed the phase
/// for it, and then at most once; and it never both writes to the client and
/// hands an action to the host.
pub proof fn lemma_at_most_once<A, D>(s: SessionView, events: Seq<EventView<A, D>>)
    ensures
        decodes(run(s, events).1) <= if before_decode(s.phase) {
            1nat
        } else {
            0nat
        },
        encodes(run(s, events).1) <= if before_encode(s.phase) {
            1nat
        } else {
            0nat
        },
        defers(run(s, events).1) <= if before_dispatch(s.phase) {
            1nat
        } else {
            0nat
        },
        writes(run(s, events).1) + defers(run(s, events).1) <= if before_write(s.phase) {
            1nat
        } else {
            0nat
        },
    decreases events.len(),
{
    if events.len() == 0 {
    } else {
        match step_spec(s, events.first()) {
            Some((next, action)) => {
                lemma_at_most_once(next, events.drop_first());
                let rest = run(next, events.drop_first()).1;
                let is_decode = |a: ActionView<A, D>| a is Decode;
                let is_encode = |a: ActionView<A, D>| a is Encode;
                let is_write = |a: ActionView<A, D>| a is Write;
                let is_defer = |a: ActionView<A, D>| a is Defer;
                lemma_count_add(seq![action], rest, is_decode);
                lemma_count_add(seq![action], rest, is_encode);
                lemma_count_add(seq![action], rest, is_write);
                lemma_count_add(seq![action], rest, is_defer);
                lemma_count_one(action, is_decode);
                lemma_count_one(action, is_encode);
                lemma_count_one(action, is_write);
                lemma_count_one(action, is_defer);
            },
            None => {
                lemma_at_most_once(s, events.drop_first());
            },
        }
    }
}

/// Each connection carries one request and gets at most one response:
/// whatever is reported to a new session, it hands out at most one line and
/// at most one response, and either writes to its client once, or hands one
/// action to the host, or does neither.
pub proof fn lemma_one_exchange<A, D>(events: Seq<EventView<A, D>>)
    ensures
        decodes(run(fresh(), events).1) <= 1,
        encodes(run(fresh(), events).1) <= 1,
        writes(run(fresh(), events).1) + defers(run(fresh(), events).1) <= 1,
{
    lemma_at_most_once(fresh(), events);
}

/// Nothing is counted where nothing is wanted, and the other way round.
pub proof fn lemma_count_zero<T>(items: Seq<T>, wanted: spec_fn(T) -> bool)
    ensures
        count(items, wanted) == 0 <==> forall|i: int| 0 <= i < items.len() ==> !wanted(items[i]),
    decreases items.len(),
{
    if items.len() > 0 {
        lemma_count_zero(items.drop_last(), wanted);
        if count(items, wanted) == 0 {
            assert forall|i: int| 0 <= i < items.len() implies !wanted(items[i]) by {
                if i < items.len() - 1 {
                    assert(items.drop_last()[i] == items[i]);
                }
            }
        } else {
            if !wanted(items.last()) {
                let i = choose|i: int|
                    0 <= i < items.drop_last().len() && wanted(items.drop_last()[i]);
                assert(wanted(items[i]));
            }
        }
    }
}

/// A session that has not passed a phase has not yet done what belongs to
/// it: before its request is dispatched a new session has handed out no
/// response, sent no byte and deferred no action, and it has sent no byte
/// for as long as it may still write.
pub proof fn lemma_nothing_early<A, D>(events: Seq<EventView<A, D>>)
    ensures
        before_dispatch(run(fresh(), events).0.phase) ==> defers(run(fresh(), events).1) == 0,
        before_encode(run(fresh(), events).0.phase) ==> encodes(run(fresh(), events).1) == 0,
        before_write(run(fresh(), events).0.phase) ==> writes(run(fresh(), events).1) == 0,
    decreases events.len(),
{
    if events.len() > 0 {
        let init = events.drop_last();
        let last = events.last();
        assert(events =~= init + seq![last]);
        lemma_nothing_early(init);
        lemma_run_add(fresh(), init, seq![last]);
        let before = run(fresh(), init);
        lemma_run_one(before.0, last);
        match step_spec(before.0, last) {
            Some((next, action)) => {
                let is_encode = |a: ActionView<A, D>| a is Encode;
                let is_write = |a: ActionView<A, D>| a is Write;
                let is_defer = |a: ActionView<A, D>| a is Defer;
                lemma_count_add(before.1, seq![action], is_encode);
                lemma_count_add(before.1, seq![action], is_write);
                lemma_count_add(before.1, seq![action], is_defer);
                lemma_count_one(action, is_encode);
                lemma_count_one(action, is_write);
                lemma_count_one(action, is_defer);
            },
            None => {
                assert(before.1 + Seq::<ActionView<A, D>>::empty() =~= before.1);
            },
        }
    }
}

/// A line that is no request gets no reply: once the decoder reports that it
/// failed, the session closes with a parse error, and over its whole life it
/// has sent no byte to the client and handed nothing to the host, whatever
/// is reported afterwards.
pub proof fn lemma_invalid_request_gets_no_reply<A, D>(
    before: Seq<EventView<A, D>>,
    after: Seq<EventView<A, D>>,
)
    requires
        run(fresh(), before).0.phase == Phase::Parsed,
    ensures
        ({
            let r = run(fresh(), before + seq![EventView::DecodeFailed] + after);
            &&& r.0.phase == Phase::Closed
            &&& r.1 == run(fresh(), before).1.push(ActionView::Close(Err(SessionError::Parse)))
            &&& writes(r.1) == 0
            &&& encodes(r.1) == 0
            &&& defers(r.1) == 0
        }),
{
    let event = EventView::<A, D>::DecodeFailed;
    let start = run(fresh(), before);
    lemma_nothing_early(before);
    lemma_run_add(fresh(), before + seq![event], after);
    lemma_run_add(fresh(), before, seq![event]);
    lemma_run_one(start.0, event);
    let closed = SessionView { phase: Phase::Closed, pending: start.0.pending };
    let close = ActionView::<A, D>::Close(Err(SessionError::Parse));
    lemma_closed_is_final(closed, after);
    let r = run(fresh(), before + seq![event] + after);
    assert(r.1 =~= start.1.push(close));
    assert(start.1.push(close) =~= start.1 + seq![close]);
    let is_encode = |a: ActionView<A, D>| a is Encode;
    let is_write = |a: ActionView<A, D>| a is Write;
    let is_defer = |a: ActionView<A, D>| a is Defer;
    lemma_count_add(start.1, seq![close], is_encode);
    lemma_count_add(start.1, seq![close], is_write);
    lemma_count_add(start.1, seq![close], is_defer);
    lemma_count_one(close, is_encode);
    lemma_count_one(close, is_write);
    lemma_count_one(close, is_defer);
}

/// An action request is fire and forget: the session hands that action to
/// the host, once, and over its whole life sends no byte to the client,
/// whatever is reported afterwards. It closes as soon as the host has taken
/// the action.
pub proof fn lemma_action_gets_no_reply<A, D>(
    before: Seq<EventView<A, D>>,
    action: A,
    after: Seq<EventView<A, D>>,
)
    requires
        run(fresh(), before).0.phase == Phase::Parsed,
    ensures
        ({
            let asked = run(fresh(), before).1;
            let r = run(
                fresh(),
                before + seq![EventView::Decoded(Request::Action(action))] + after,
            );
            &&& asked.len() < r.1.len()
            &&& r.1.take(asked.len() as int) == asked
            &&& r.1[asked.len() as int] == ActionView::<A, D>::Defer(action)
            &&& defers(r.1) == 1
            &&& writes(r.1) == 0
            &&& encodes(r.1) == 0
            &&& after.len() > 0 && after[0] == EventView::<A, D>::Deferred ==> r.0.phase
                == Phase::Closed && r.1 == asked + seq![
                ActionView::Defer(action),
                ActionView::Close(Ok(())),
            ]
        }),
{
    let event = EventView::<A, D>::Decoded(Request::Action(action));
    let start = run(fresh(), before);
    lemma_nothing_early(before);
    lemma_run_add(fresh(), before + seq![event], after);
    lemma_run_add(fresh(), before, seq![event]);
    lemma_run_one(start.0, event);
    let next = SessionView { phase: Phase::Dispatching, pending: start.0.pending };
    let defer = ActionView::<A, D>::Defer(action);
    let rest = run(next, after);
    lemma_at_most_once(next, after);
    let r = run(fresh(), before + seq![event] + after);
    assert(r.1 =~= (start.1 + seq![defer]) + rest.1);
    assert(r.1.take(start.1.len() as int) =~= start.1);
    let is_encode = |a: ActionView<A, D>| a is Encode;
    let is_write = |a: ActionView<A, D>| a is Write;
    let is_defer = |a: ActionView<A, D>| a is Defer;
    lemma_count_add(start.1 + seq![defer], rest.1, is_encode);
    lemma_count_add(start.1 + seq![defer], rest.1, is_write);
    lemma_count_add(start.1 + seq![defer], rest.1, is_defer);
    lemma_count_add(start.1, seq![defer], is_encode);
    lemma_count_add(start.1, seq![defer], is_write);
    lemma_count_add(start.1, seq![defer], is_defer);
    lemma_count_one(defer, is_encode);
    lemma_count_one(defer, is_write);
    lemma_count_one(defer, is_defer);
    if after.len() > 0 && after[0] == EventView::<A, D>::Deferred {
        let closed = SessionView { phase: Phase::Closed, pending: start.0.pending };
        assert(after =~= seq![after[0]] + after.drop_first());
        lemma_run_add(next, seq![after[0]], after.drop_first());
        lemma_run_one(next, after[0]);
        lemma_closed_is_final(closed, after.drop_first());
        assert(r.1 =~= start.1 + seq![defer, ActionView::Close(Ok(()))]);
    }
}

/// The reply to a query is the snapshot taken at dispatch: the one response
/// that the session ever hands out for serialising holds exactly the outputs
/// that were reported in answer to its request for a snapshot, and nothing
/// is handed to the host. The bytes that the serialiser then reports are the
/// bytes sent, unchanged.
pub proof fn lemma_query_reply_is_the_snapshot<A, D>(
    before: Seq<EventView<A, D>>,
    outputs: std::collections::HashMap<String, D>,
    after: Seq<EventView<A, D>>,
)
    requires
        run(fresh(), before).0.phase == Phase::Parsed,
    ensures
        ({
            let r = run(
                fresh(),
                before + seq![
                    EventView::Decoded(Request::Outputs),
                    EventView::Snapshot(outputs),
                ] + after,
            );
            &&& encodes(r.1) == 1
            &&& forall|i: int|
                0 <= i < r.1.len() && r.1[i] is Encode ==> r.1[i] == ActionView::<
                    A,
                    D,
                >::Encode(Response::Outputs(outputs))
            &&& defers(r.1) == 0
            &&& forall|bytes: Seq<u8>|
                after.len() > 0 && after[0] == EventView::<A, D>::Encoded(bytes) ==> writes(r.1)
                    == 1 && forall|i: int|
                    0 <= i < r.1.len() && r.1[i] is Write ==> r.1[i] == ActionView::<
                        A,
                        D,
                    >::Write(bytes)
        }),
{
    let query = EventView::<A, D>::Decoded(Request::Outputs);
    let given = EventView::<A, D>::Snapshot(outputs);
    let start = run(fresh(), before);
    lemma_nothing_early(before);
    let events = before + seq![query, given] + after;
    assert(before + seq![query, given] =~= (before + seq![query]) + seq![given]);
    lemma_run_add(fresh(), before + seq![query, given], after);
    lemma_run_add(fresh(), before + seq![query], seq![given]);
    lemma_run_add(fresh(), before, seq![query]);
    lemma_run_one(start.0, query);
    let asking = SessionView { phase: Phase::Responding(Reply::Snapshot), pending: start.0.pending };
    lemma_run_one(asking, given);
    let encoding = SessionView { phase: Phase::Responding(Reply::Encode), pending: start.0.pending };
    let snapshot = ActionView::<A, D>::Snapshot;
    let encode = ActionView::<A, D>::Encode(Response::Outputs(outputs));
    let rest = run(encoding, after);
    lemma_at_most_once(encoding, after);
    let r = run(fresh(), events);
    let head = start.1 + seq![snapshot] + seq![encode];
    assert(r.1 =~= head + rest.1);
    let is_encode = |a: ActionView<A, D>| a is Encode;
    let is_write = |a: ActionView<A, D>| a is Write;
    let is_defer = |a: ActionView<A, D>| a is Defer;
    lemma_count_add(head, rest.1, is_encode);
    lemma_count_add(head, rest.1, is_write);
    lemma_count_add(head, rest.1, is_defer);
    lemma_count_add(start.1 + seq![snapshot], seq![encode], is_encode);
    lemma_count_add(start.1 + seq![snapshot], seq![encode], is_write);
    lemma_count_add(start.1 + seq![snapshot], seq![encode], is_defer);
    lemma_count_add(start.1, seq![snapshot], is_encode);
    lemma_count_add(start.1, seq![snapshot], is_write);
    lemma_count_add(start.1, seq![snapshot], is_defer);
    lemma_count_one(snapshot, is_encode);
    lemma_count_one(snapshot, is_write);
    lemma_count_one(snapshot, is_defer);
    lemma_count_one(encode, is_encode);
    lemma_count_one(encode, is_write);
    lemma_count_one(encode, is_defer);
    lemma_count_zero(start.1, is_encode);
    lemma_count_zero(rest.1, is_encode);
    lemma_count_zero(start.1, is_write);
    assert forall|i: int| 0 <= i < r.1.len() && r.1[i] is Encode implies r.1[i] == encode by {
        if i < start.1.len() {
            assert(r.1[i] == start.1[i]);
            assert(!is_encode(start.1[i]));
        } else if i >= head.len() {
            assert(r.1[i] == rest.1[i - head.len()]);
            assert(!is_encode(rest.1[i - head.len()]));
        }
    }
    assert forall|bytes: Seq<u8>|
        after.len() > 0 && after[0] == EventView::<A, D>::Encoded(bytes) implies writes(r.1) == 1
        && forall|i: int|
        0 <= i < r.1.len() && r.1[i] is Write ==> r.1[i] == ActionView::<A, D>::Write(bytes) by {
        if after.len() > 0 && after[0] == EventView::<A, D>::Encoded(bytes) {
            let writing = SessionView {
                phase: Phase::Responding(Reply::Write),
                pending: start.0.pending,
            };
            let write = ActionView::<A, D>::Write(bytes);
            assert(after =~= seq![after[0]] + after.drop_first());
            lemma_run_add(encoding, seq![after[0]], after.drop_first());
            lemma_run_one(encoding, after[0]);
            let tail = run(writing, after.drop_first());
            lemma_at_most_once(writing, after.drop_first());
            assert(rest.1 =~= seq![write] + tail.1);
            lemma_count_add(seq![write], tail.1, is_write);
            lemma_count_one(write, is_write);
            lemma_count_zero(tail.1, is_write);
            assert forall|i: int| 0 <= i < r.1.len() && r.1[i] is Write implies r.1[i]
                == write by {
                if i < start.1.len() {
                    assert(r.1[i] == start.1[i]);
                    assert(!is_write(start.1[i]));
                } else if i > head.len() {
                    assert(r.1[i] == tail.1[i - head.len() - 1]);
                    assert(!is_write(tail.1[i - head.len() - 1]));
                } else if i == head.len() {
                    assert(r.1[i] == rest.1[0]);
                }
            }
        }
    }
}

/// The events that report `chunks` as they arrive, one event for each.
pub open spec fn arrivals<A, D>(chunks: Seq<Seq<u8>>) -> Seq<EventView<A, D>> {
    Seq::new(chunks.len(), |i: int| EventView::Data(chunks[i]))
}

/// Bytes that arrive once the line is complete are not looked at.
pub proof fn lemma_late_bytes_are_ignored<A, D>(s: SessionView, chunks: Seq<Seq<u8>>)
    requires
        s.phase != Phase::AwaitingLine,
    ensures
        run(s, arrivals::<A, D>(chunks)) == (s, Seq::<ActionView<A, D>>::empty()),
    decreases chunks.len(),
{
    if chunks.len() > 0 {
        let events = arrivals::<A, D>(chunks);
        assert(events.drop_first() =~= arrivals::<A, D>(chunks.drop_first()));
        lemma_late_bytes_are_ignored::<A, D>(s, chunks.drop_first());
    }
}

/// A request line is reassembled however it was split: a session that reads
/// its line in several chunks ends in the state, and with the request for
/// decoding or the failure, that reading the same bytes in one chunk gives.
/// All that differs is that it asks to read again after each chunk that
/// leaves the line unfinished.
pub proof fn lemma_line_is_reassembled<A, D>(s: SessionView, chunks: Seq<Seq<u8>>)
    requires
        s.phase == Phase::AwaitingLine,
        s.wf(),
    ensures
        ({
            let split = run(s, arrivals::<A, D>(chunks));
            let joined = run(s, seq![EventView::<A, D>::Data(chunks.flatten())]);
            &&& split.0 == joined.0
            &&& joined.1.len() == 1
            &&& forall|i: int|
                0 <= i < split.1.len() ==> split.1[i] == ActionView::<A, D>::Read || (i
                    == split.1.len() - 1 && split.1[i] == joined.1[0])
            &&& joined.1[0] != ActionView::<A, D>::Read ==> split.1.len() > 0 && split.1.last()
                == joined.1[0]
        }),
    decreases chunks.len(),
{
    let whole = EventView::<A, D>::Data(chunks.flatten());
    lemma_run_one(s, whole);
    if chunks.len() == 0 {
        assert(chunks.flatten() =~= Seq::<u8>::empty());
        assert(s.pending + Seq::<u8>::empty() =~= s.pending);
    } else {
        let head = chunks[0];
        let rest = chunks.drop_first();
        let events = arrivals::<A, D>(chunks);
        assert(events.first() == EventView::<A, D>::Data(head));
        assert(events.drop_first() =~= arrivals::<A, D>(rest));
        assert(chunks.flatten() =~= head + rest.flatten());
        assert(s.pending + chunks.flatten() =~= (s.pending + head) + rest.flatten());
        match feed(s.pending, head) {
            Framed::Partial(waiting) => {
                let next = SessionView { phase: Phase::AwaitingLine, pending: waiting };
                lemma_line_is_reassembled::<A, D>(next, rest);
                lemma_run_one(next, EventView::<A, D>::Data(rest.flatten()));
                let tail = run(next, arrivals::<A, D>(rest));
                let split = run(s, events);
                assert(split.1 =~= seq![ActionView::<A, D>::Read] + tail.1);
                assert forall|i: int| 0 <= i < split.1.len() implies split.1[i] == ActionView::<
                    A,
                    D,
                >::Read || (i == split.1.len() - 1 && split.1[i] == run(s, seq![whole]).1[0]) by {
                    if i > 0 {
                        assert(split.1[i] == tail.1[i - 1]);
                    }
                }
            },
            Framed::Line(_) => {
                lemma_first_line_of_prefix(s.pending + head, rest.flatten());
                let stepped = step_spec(s, EventView::<A, D>::Data(head)).unwrap();
                let next = stepped.0;
                lemma_late_bytes_are_ignored::<A, D>(next, rest);
                let split = run(s, events);
                assert(split.1 =~= seq![stepped.1]);
            },
        }
    }
}

/// The events among `events` that are addressed to connection `to`.
pub open spec fn addressed_to<A, D>(events: Seq<(nat, EventView<A, D>)>, to: nat) -> Seq<
    EventView<A, D>,
>
    decreases events.len(),
{
    if events.len() == 0 {
        Seq::empty()
    } else if events.first().0 == to {
        seq![events.first().1] + addressed_to(events.drop_first(), to)
    } else {
        addressed_to(events.drop_first(), to)
    }
}

/// Many connections served in turn: each event is reported to the session
/// it is addressed to, in the order in which the events come. Each entry is
/// a session with the actions it has asked for so far.
pub open spec fn run_all<A, D>(
    sessions: Seq<(SessionView, Seq<ActionView<A, D>>)>,
    events: Seq<(nat, EventView<A, D>)>,
) -> Seq<(SessionView, Seq<ActionView<A, D>>)>
    decreases events.len(),
{
    if events.len() == 0 {
        sessions
    } else {
        let to = events.first().0 as int;
        let served = if to < sessions.len() {
            match step_spec(sessions[to].0, events.first().1) {
                Some((next, action)) => sessions.update(to, (next, sessions[to].1.push(action))),
                None => sessions,
            }
        } else {
            sessions
        };
        run_all(served, events.drop_first())
    }
}

/// Connections are independent: however the events of many connections are
/// interleaved, each session ends where it would have ended, and asks for
/// what it would have asked for, had it been served alone. A connection
/// that never completes its line can therefore neither delay nor change the
/// exchange on another.
pub proof fn lemma_sessions_are_independent<A, D>(
    sessions: Seq<(SessionView, Seq<ActionView<A, D>>)>,
    events: Seq<(nat, EventView<A, D>)>,
    which: nat,
)
    requires
        which < sessions.len(),
    ensures
        run_all(sessions, events).len() == sessions.len(),
        ({
            let alone = run(sessions[which as int].0, addressed_to(events, which));
            run_all(sessions, events)[which as int] == (
                alone.0,
                sessions[which as int].1 + alone.1,
            )
        }),
    decreases events.len(),
{
    let this = sessions[which as int];
    if events.len() == 0 {
        assert(this.1 + Seq::<ActionView<A, D>>::empty() =~= this.1);
    } else {
        let to = events.first().0 as int;
        let event = events.first().1;
        let served = if to < sessions.len() {
            match step_spec(sessions[to].0, event) {
                Some((next, action)) => sessions.update(to, (next, sessions[to].1.push(action))),
                None => sessions,
            }
        } else {
            sessions
        };
        lemma_sessions_are_independent(served, events.drop_first(), which);
        if to == which {
            let mine = addressed_to(events, which);
            assert(mine.first() == event);
            assert(mine.drop_first() =~= addressed_to(events.drop_first(), which));
            match step_spec(this.0, event) {
                Some((next, action)) => {
                    let tail = run(next, addressed_to(events.drop_first(), which));
                    assert(this.1.push(action) + tail.1 =~= this.1 + (seq![action] + tail.1));
                },
                None => {},
            }
        }
    }
}

} // verus!
