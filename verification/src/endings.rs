//! What ends a connection, and what never ends the process.

use crate::connection::{Action, ConnectionView, Event, Stage};
use crate::drain::{drain, DrainEvent};
use crate::event_loop::{LoopEvent, LoopView, Phase};
use crate::history::{lemma_run_consistent, run};
use crate::io::{IoError, Side};
use crate::relay::{relay, RelayEvent};
use crate::rounds::orderly;
use crate::stream::{accounted, consistent, lemma_begin_keeps_items, lemma_step_accounted};
use vstd::prelude::*;

verus! {

/// Whether an error is one that a socket may report in the normal course
/// of things: the call would have blocked, or the peer reset the connection.
pub open spec fn passing(error: IoError) -> bool {
    error is WouldBlock || error is ConnectionReset
}

/// Whether an event reports nothing worse than a call that would have
/// blocked or a connection that was reset.
pub open spec fn benign<Fd>(event: Event<Fd>) -> bool {
    match event {
        Event::Polled { .. } => true,
        Event::Received(Ok(_)) => true,
        Event::Received(Err(error)) => passing(error),
        Event::Sent(Ok(_)) => true,
        Event::Sent(Err(error)) => passing(error),
    }
}

/// Whether an event answers what the connection last asked for: a report of
/// a wait between turns, the outcome of a receive when a relay waits for
/// one, the outcome of a send when a message is in flight.
pub open spec fn in_turn<Fd>(c: ConnectionView<Fd>, event: Event<Fd>) -> bool {
    match event {
        Event::Polled { .. } => c.stage is Idle,
        Event::Received(_) => c.stage.relays() && c.in_flight is None,
        Event::Sent(_) => c.in_flight is Some,
    }
}

/// Whether an event reports the end of a connection: an error or a hangup at
/// a wait, a read of no bytes, a send that took nothing, or a reset.
pub open spec fn ends<Fd>(event: Event<Fd>) -> bool {
    match event {
        Event::Polled { server, child } => server.failed() || child.failed(),
        Event::Received(Ok(chunk)) => chunk@.bytes.len() == 0,
        Event::Received(Err(error)) => error is ConnectionReset,
        Event::Sent(Ok(sent)) => sent == 0,
        Event::Sent(Err(error)) => error is ConnectionReset,
    }
}

/// A connection asks the process to stop only for an error that is neither
/// a would-block nor a reset, and it closes exactly when an event reports
/// its end. Its two endpoints close together.
#[verifier::rlimit(40)]
pub proof fn lemma_step_ends_only_by_endings<Fd>(c: ConnectionView<Fd>, event: Event<Fd>)
    requires
        consistent(c),
        in_turn(c, event),
    ensures
        ({
            let (after, action) = c.step(event);
            &&& action is Fatal <==> !benign(event)
            &&& after.child_side is None <==> after.server_side is None
            &&& c.live() ==> (!after.live() <==> ends(event))
        }),
{
    let (after, action) = c.step(event);
    lemma_step_accounted(c, event, Side::Server);
    assert(accounted(c, event, Side::Server));
    match event {
        Event::Polled { server, child } => {
            if !(server.failed() || child.failed()) {
                let noted = ConnectionView {
                    server_connected: c.server_connected || server.writable,
                    server_ready: server,
                    child_ready: child,
                    ..c
                };
                if noted.server_connected {
                    lemma_begin_keeps_items(noted, Stage::RelayFromServer);
                }
            }
        },
        Event::Received(outcome) => {
            let lane = c.lane(c.stage);
            let (lane2, step) = relay(lane, RelayEvent::Received(outcome));
            let moved = c.with_lane(c.stage, lane2);
            if step is Done {
                lemma_begin_keeps_items(moved, c.stage.next());
            }
        },
        Event::Sent(outcome) => {
            let lane = c.lane(c.stage);
            if c.stage.relays() {
                let (lane2, step) = relay(lane, RelayEvent::Sent(outcome));
                let moved = c.with_lane(c.stage, lane2);
                if step is Done {
                    lemma_begin_keeps_items(moved, c.stage.next());
                }
            } else {
                let (lane2, step) = drain(lane, DrainEvent::Sent(outcome));
                let moved = c.with_lane(c.stage, lane2);
                if step is Done {
                    lemma_begin_keeps_items(moved, c.stage.next());
                }
            }
        },
    }
}

/// Whether every event of a run answers what the connection asked for and
/// reports nothing worse than a would-block or a reset.
pub open spec fn well_driven<Fd>(c: ConnectionView<Fd>, events: Seq<Event<Fd>>) -> bool
    decreases events.len(),
{
    events.len() == 0 || (in_turn(c, events[0]) && benign(events[0]) && well_driven(
        c.step(events[0]).0,
        events.skip(1),
    ))
}

/// Whether some event of a run made the connection ask the process to stop.
pub open spec fn faulted<Fd>(c: ConnectionView<Fd>, events: Seq<Event<Fd>>) -> bool
    decreases events.len(),
{
    events.len() > 0 && (c.step(events[0]).1 is Fatal || faulted(
        c.step(events[0]).0,
        events.skip(1),
    ))
}

/// Whether some event of a run reported the end of the connection.
pub open spec fn ended<Fd>(events: Seq<Event<Fd>>) -> bool
    decreases events.len(),
{
    events.len() > 0 && (ends(events[0]) || ended(events.skip(1)))
}

/// A reset or an end of stream ends a connection, never the process. Over
/// any run of events that answer what the connection asked for and report
/// nothing worse than a would-block or a reset, the connection never asks
/// the process to stop; its endpoints are open or closed together; and it
/// is closed at the end exactly if some event reported its end.
pub proof fn lemma_run_ends_only_by_endings<Fd>(c: ConnectionView<Fd>, events: Seq<Event<Fd>>)
    requires
        consistent(c),
        well_driven(c, events),
    ensures
        !faulted(c, events),
        run(c, events).child_side is None <==> run(c, events).server_side is None,
        c.live() ==> (!run(c, events).live() <==> ended(events)),
    decreases events.len(),
{
    if events.len() > 0 {
        let next = c.step(events[0]).0;
        lemma_step_ends_only_by_endings(c, events[0]);
        lemma_step_accounted(c, events[0], Side::Server);
        lemma_run_ends_only_by_endings(next, events.skip(1));
        lemma_run_consistent(next, events.skip(1));
    }
}

/// Whether an event answers what the loop asked for and reports nothing
/// that it would stop the process for.
pub open spec fn expected<Fd>(l: LoopView<Fd>, event: LoopEvent<Fd>) -> bool {
    match (l.phase, event) {
        (Phase::Waiting, LoopEvent::Waited(Ok(reports))) => reports.connections@.len()
            == l.connections.len(),
        (Phase::Waiting, LoopEvent::Waited(Err(error))) => error is Interrupted,
        (Phase::Accepting, LoopEvent::Accepted(Ok(client))) => match client.connect {
            Ok(_) => true,
            Err(error) => error is WouldBlock,
        },
        (Phase::Accepting, LoopEvent::Accepted(Err(error))) => error is WouldBlock,
        (Phase::Serving, LoopEvent::Received(outcome)) => {
            let event = Event::Received(outcome);
            in_turn(l.connections[l.cursor as int], event) && benign(event)
        },
        (Phase::Serving, LoopEvent::Sent(outcome)) => {
            let event = Event::<Fd>::Sent(outcome);
            in_turn(l.connections[l.cursor as int], event) && benign(event)
        },
        (Phase::Checking, LoopEvent::ChildChecked { .. }) => true,
        _ => false,
    }
}

#[verifier::rlimit(40)]
proof fn lemma_serve_never_stops<Fd>(l: LoopView<Fd>, from: nat)
    requires
        forall|i: int| 0 <= i < l.connections.len() ==> consistent(#[trigger] l.connections[i]),
        forall|i: int| 0 <= i < l.connections.len() ==> (#[trigger] l.connections[i]).stage is Idle,
    ensures
        !(l.serve(from).1 is Fatal),
    decreases l.ready.len() - from, 1nat,
{
    if !(from >= l.ready.len() || from >= l.connections.len()) {
        let polled = Event::Polled {
            server: l.ready[from as int].0,
            child: l.ready[from as int].1,
        };
        let (conn, action) = l.connections[from as int].step(polled);
        lemma_step_ends_only_by_endings(l.connections[from as int], polled);
        lemma_step_accounted(l.connections[from as int], polled, Side::Server);
        assert(accounted(l.connections[from as int], polled, Side::Server));
        let turned = LoopView {
            connections: l.connections.update(from as int, conn),
            phase: Phase::Serving,
            cursor: from,
            ..l
        };
        lemma_settle_never_stops(turned, action);
    }
}

#[verifier::rlimit(40)]
proof fn lemma_settle_never_stops<Fd>(l: LoopView<Fd>, action: Action)
    requires
        forall|i: int| 0 <= i < l.connections.len() ==> consistent(#[trigger] l.connections[i]),
        forall|i: int|
            0 <= i < l.connections.len() && i != l.cursor ==> (
            #[trigger] l.connections[i]).stage is Idle,
        action is Done ==> l.cursor < l.connections.len()
            && l.connections[l.cursor as int].stage is Idle,
        l.cursor < l.ready.len(),
        !(action is Fatal),
    ensures
        !(l.settle(action).1 is Fatal),
    decreases l.ready.len() - l.cursor, 0nat,
{
    if action is Done {
        lemma_serve_never_stops(l, l.cursor + 1);
    }
}

/// Nothing that happens to a connection in the normal course of things
/// stops the process. An orderly loop asks the process to stop only when it
/// is told of an error that is neither a would-block nor a reset nor, for a
/// wait, an interruption, or of something that it did not ask for.
#[verifier::rlimit(40)]
pub proof fn lemma_expected_never_stops<Fd>(l: LoopView<Fd>, event: LoopEvent<Fd>)
    requires
        orderly(l),
        expected(l, event),
    ensures
        !(l.step(event).1 is Fatal),
{
    match (l.phase, event) {
        (Phase::Waiting, LoopEvent::Waited(outcome)) => {
            if let Ok(reports) = outcome {
                let noted = LoopView { ready: reports.connections@, ..l };
                if !reports.listener.readable {
                    lemma_serve_never_stops(noted, 0);
                }
            }
        },
        (Phase::Accepting, LoopEvent::Accepted(outcome)) => {
            if outcome is Err {
                lemma_serve_never_stops(l, 0);
            }
        },
        (Phase::Serving, LoopEvent::Received(outcome)) => {
            lemma_served_never_stops(l, Event::Received(outcome));
        },
        (Phase::Serving, LoopEvent::Sent(outcome)) => {
            lemma_served_never_stops(l, Event::Sent(outcome));
        },
        _ => {},
    }
}

#[verifier::rlimit(40)]
proof fn lemma_served_never_stops<Fd>(l: LoopView<Fd>, event: Event<Fd>)
    requires
        orderly(l),
        l.phase is Serving,
        in_turn(l.connections[l.cursor as int], event),
        benign(event),
    ensures
        !(l.served(event).1 is Fatal),
{
    let served = l.connections[l.cursor as int];
    let (conn, action) = served.step(event);
    lemma_step_ends_only_by_endings(served, event);
    lemma_step_accounted(served, event, Side::Server);
    assert(accounted(served, event, Side::Server));
    let turned = LoopView { connections: l.connections.update(l.cursor as int, conn), ..l };
    lemma_settle_never_stops(turned, action);
}

} // verus!
