//! The queue toward an endpoint, seen over runs of events: it is delivered
//! whole and in order, and never holds more than one message.

use crate::connection::{ConnectionView, Event, Stage};
use crate::drain::{drain, DrainEvent};
use crate::history::{lemma_run_consistent, run};
use crate::io::{IoError, Side};
use crate::lane::Step;
use crate::message::{lemma_wire_of_push_back, wire_of, Item, MessageView};
use crate::relay::{relay, RelayEvent};
use crate::stream::{
    consistent, given, lemma_begin_keeps_items, lemma_drain_moves_items, lemma_relay_moves_items,
    lemma_step_consistent, pending, serves, wire_opt,
};
use vstd::prelude::*;

verus! {

/// What waits for an endpoint because it did not take it when it was first
/// offered: the queue, with the message that a drain took from its front and
/// has in flight.
pub open spec fn backlog<Fd>(c: ConnectionView<Fd>, toward: Side) -> Seq<Item<Fd>> {
    if serves(c, toward) && c.stage.drains() {
        wire_opt(c.in_flight) + wire_of(c.queued(toward))
    } else {
        wire_of(c.queued(toward))
    }
}

/// What the outcome of a relay's own send leaves for the queue: the whole
/// message if the send would have blocked, and what is left of it if only a
/// part was taken.
pub open spec fn left_over<Fd>(
    in_flight: Option<MessageView<Fd>>,
    outcome: Result<usize, IoError>,
) -> Seq<Item<Fd>> {
    match (in_flight, outcome) {
        (Some(msg), Err(IoError::WouldBlock)) => msg.wire(),
        (Some(msg), Ok(sent)) => if 0 < sent < msg.bytes.len() {
            msg.remainder(sent as int).wire()
        } else {
            Seq::empty()
        },
        _ => Seq::empty(),
    }
}

/// What an event adds to the backlog of an endpoint.
pub open spec fn enqueued_by<Fd>(c: ConnectionView<Fd>, event: Event<Fd>, toward: Side) -> Seq<
    Item<Fd>,
> {
    match event {
        Event::Sent(outcome) => if serves(c, toward) && c.stage.relays() {
            left_over(c.in_flight, outcome)
        } else {
            Seq::empty()
        },
        _ => Seq::empty(),
    }
}

/// What an endpoint accepts from its backlog by an event.
pub open spec fn drained_by<Fd>(c: ConnectionView<Fd>, event: Event<Fd>, toward: Side) -> Seq<
    Item<Fd>,
> {
    if c.stage.drains() {
        given(c, event, toward)
    } else {
        Seq::empty()
    }
}

/// Everything that a run of events added to the backlog of an endpoint, in
/// the order in which it was added.
pub open spec fn enqueued<Fd>(c: ConnectionView<Fd>, events: Seq<Event<Fd>>, toward: Side) -> Seq<
    Item<Fd>,
>
    decreases events.len(),
{
    if events.len() == 0 {
        Seq::empty()
    } else {
        enqueued_by(c, events[0], toward) + enqueued(c.step(events[0]).0, events.skip(1), toward)
    }
}

/// Everything that an endpoint accepted from its backlog during a run of
/// events, in the order in which it accepted it.
pub open spec fn drained<Fd>(c: ConnectionView<Fd>, events: Seq<Event<Fd>>, toward: Side) -> Seq<
    Item<Fd>,
>
    decreases events.len(),
{
    if events.len() == 0 {
        Seq::empty()
    } else {
        drained_by(c, events[0], toward) + drained(c.step(events[0]).0, events.skip(1), toward)
    }
}

#[verifier::rlimit(40)]
proof fn lemma_settled_backlog<Fd>(moved: ConnectionView<Fd>, step: Step, toward: Side)
    requires
        moved.child_side is Some <==> moved.server_side is Some,
        !(moved.stage is Idle),
        step is Done ==> moved.in_flight is None,
    ensures
        ({
            let after = moved.proceed(step).0;
            &&& backlog(after, toward) == backlog(moved, toward)
            &&& after.live() == moved.live()
        }),
{
    let none = Seq::<Item<Fd>>::empty();
    if step is Done {
        let after = moved.begin(moved.stage.next()).0;
        lemma_begin_keeps_items(moved, moved.stage.next());
        assert(none + wire_of(moved.queued(toward)) =~= wire_of(moved.queued(toward)));
        assert(wire_of(after.queued(toward)) + none =~= wire_of(after.queued(toward)));
        assert(backlog(after, toward) == pending(after, toward));
    }
}

/// The backlog is a queue. While a connection stays live, what an endpoint
/// accepted from its backlog by an event, followed by the backlog that is
/// left, is the backlog that was there followed by what the event added to
/// it.
#[verifier::rlimit(40)]
pub proof fn lemma_step_keeps_backlog<Fd>(c: ConnectionView<Fd>, event: Event<Fd>, toward: Side)
    requires
        consistent(c),
    ensures
        ({
            let after = c.step(event).0;
            after.live() ==> drained_by(c, event, toward) + backlog(after, toward) == backlog(
                c,
                toward,
            ) + enqueued_by(c, event, toward)
        }),
{
    let after = c.step(event).0;
    let none = Seq::<Item<Fd>>::empty();
    let was = backlog(c, toward);
    let now = backlog(after, toward);
    match event {
        Event::Polled { server, child } => {
            if c.stage is Idle && !(server.failed() || child.failed()) {
                let noted = ConnectionView {
                    server_connected: c.server_connected || server.writable,
                    server_ready: server,
                    child_ready: child,
                    ..c
                };
                if noted.server_connected {
                    lemma_begin_keeps_items(noted, Stage::RelayFromServer);
                    assert(wire_of(after.queued(toward)) + none =~= wire_of(after.queued(toward)));
                    assert(now == pending(after, toward));
                }
            }
            assert(now == was);
            assert(none + now =~= was + none);
        },
        Event::Received(outcome) => {
            if c.stage.relays() {
                let lane = c.lane(c.stage);
                let (lane2, step) = relay(lane, RelayEvent::Received(outcome));
                lemma_relay_moves_items(lane, RelayEvent::Received(outcome));
                let moved = c.with_lane(c.stage, lane2);
                lemma_settled_backlog(moved, step, toward);
                assert(lane2.queued == lane.queued);
                assert(backlog(moved, toward) == was);
            }
            assert(after.live() ==> now == was);
            assert(none + now =~= now + none);
        },
        Event::Sent(outcome) => {
            if c.stage.relays() {
                let lane = c.lane(c.stage);
                let (lane2, step) = relay(lane, RelayEvent::Sent(outcome));
                lemma_relay_moves_items(lane, RelayEvent::Sent(outcome));
                let moved = c.with_lane(c.stage, lane2);
                lemma_settled_backlog(moved, step, toward);
                if serves(c, toward) {
                    if let Some(msg) = lane.in_flight {
                        match outcome {
                            Ok(sent) => {
                                if 0 < sent < msg.bytes.len() {
                                    lemma_wire_of_push_back(
                                        lane.queued,
                                        msg.remainder(sent as int),
                                    );
                                }
                            },
                            Err(error) => {
                                if error is WouldBlock {
                                    lemma_wire_of_push_back(lane.queued, msg);
                                }
                            },
                        }
                    }
                    assert(wire_of(lane2.queued) == wire_of(lane.queued) + enqueued_by(
                        c,
                        event,
                        toward,
                    )) by {
                        assert(wire_of(lane.queued) + none =~= wire_of(lane.queued));
                    }
                    assert(backlog(moved, toward) == wire_of(lane2.queued));
                    assert(was == wire_of(lane.queued));
                } else {
                    assert(backlog(moved, toward) == was);
                    assert(was + none =~= was);
                }
                assert(none + now =~= now);
            } else if c.stage.drains() {
                let lane = c.lane(c.stage);
                let (lane2, step) = drain(lane, DrainEvent::Sent(outcome));
                lemma_drain_moves_items(lane, DrainEvent::Sent(outcome));
                let moved = c.with_lane(c.stage, lane2);
                lemma_settled_backlog(moved, step, toward);
                if serves(c, toward) {
                    assert(backlog(moved, toward) == wire_opt(lane2.in_flight) + wire_of(
                        lane2.queued,
                    ));
                    assert(was == wire_opt(lane.in_flight) + wire_of(lane.queued));
                } else {
                    assert(backlog(moved, toward) == was);
                    assert(none + now =~= now);
                }
                assert(was + none =~= was);
            } else {
                assert(none + now =~= now + none);
            }
        },
    }
}

/// The backlog is delivered in the order in which it built up. Over any run
/// of events that leaves the connection live, what an endpoint accepted from
/// its backlog, followed by the backlog that is left, is the backlog that
/// was there at the start followed by what was added to it: nothing of it is
/// lost, repeated or out of place, however often a send would have blocked
/// and wherever a send was cut.
#[verifier::rlimit(40)]
pub proof fn lemma_backlog_in_order<Fd>(c: ConnectionView<Fd>, events: Seq<Event<Fd>>, toward: Side)
    requires
        consistent(c),
        run(c, events).live(),
    ensures
        drained(c, events, toward) + backlog(run(c, events), toward) == backlog(c, toward)
            + enqueued(c, events, toward),
    decreases events.len(),
{
    let none = Seq::<Item<Fd>>::empty();
    if events.len() == 0 {
        assert(none + backlog(c, toward) =~= backlog(c, toward) + none);
    } else {
        let first = events[0];
        let next = c.step(first).0;
        let later = events.skip(1);
        lemma_step_consistent(c, first);
        lemma_run_consistent(next, later);
        lemma_step_keeps_backlog(c, first, toward);
        lemma_backlog_in_order(next, later, toward);
        assert(drained(c, events, toward) + backlog(run(c, events), toward) =~= drained_by(
            c,
            first,
            toward,
        ) + (drained(next, later, toward) + backlog(run(next, later), toward)));
        assert(backlog(c, toward) + enqueued(c, events, toward) =~= (backlog(c, toward)
            + enqueued_by(c, first, toward)) + enqueued(next, later, toward));
        assert(drained_by(c, first, toward) + (backlog(next, toward) + enqueued(
            next,
            later,
            toward,
        )) =~= (drained_by(c, first, toward) + backlog(next, toward)) + enqueued(
            next,
            later,
            toward,
        ));
    }
}

/// A backlog is delivered whole. When a run of events leaves the connection
/// live, adds nothing to the backlog of an endpoint and leaves none, the
/// endpoint has accepted exactly the backlog that was there at the start:
/// every byte and every descriptor, in order.
pub proof fn lemma_backlog_delivered_whole<Fd>(
    c: ConnectionView<Fd>,
    events: Seq<Event<Fd>>,
    toward: Side,
)
    requires
        consistent(c),
        run(c, events).live(),
        enqueued(c, events, toward).len() == 0,
        backlog(run(c, events), toward).len() == 0,
    ensures
        drained(c, events, toward) == backlog(c, toward),
{
    lemma_backlog_in_order(c, events, toward);
    assert(drained(c, events, toward) + backlog(run(c, events), toward) =~= drained(
        c,
        events,
        toward,
    ));
    assert(backlog(c, toward) + enqueued(c, events, toward) =~= backlog(c, toward));
}

/// The number of messages that wait for an endpoint: those in its queue,
/// and the one that a drain took from the queue and has in flight.
pub open spec fn waiting<Fd>(c: ConnectionView<Fd>, toward: Side) -> nat {
    if serves(c, toward) && c.stage.drains() && c.in_flight is Some {
        c.queued(toward).len() + 1
    } else {
        c.queued(toward).len()
    }
}

/// Whether at most one message waits for each endpoint.
pub open spec fn bounded<Fd>(c: ConnectionView<Fd>) -> bool {
    waiting(c, Side::Server) <= 1 && waiting(c, Side::Child) <= 1
}

#[verifier::rlimit(40)]
proof fn lemma_begin_bounded<Fd>(c: ConnectionView<Fd>, stage: Stage)
    requires
        c.in_flight is None,
        c.to_server.len() <= 1,
        c.to_child.len() <= 1,
    ensures
        bounded(c.begin(stage).0),
    decreases stage.remaining(),
{
    if !(stage is Idle) {
        let (lane, step) = c.open_stage(stage);
        let opened = ConnectionView { stage, ..c.with_lane(stage, lane) };
        if step is Done {
            lemma_begin_bounded(opened, stage.next());
        }
    }
}

/// The relay holds back rather than pile up. A connection on which at most
/// one message waits for each endpoint stays so, whatever happens: the relay
/// reads nothing more for an endpoint while a message waits for it.
#[verifier::rlimit(40)]
pub proof fn lemma_step_bounded<Fd>(c: ConnectionView<Fd>, event: Event<Fd>)
    requires
        consistent(c),
        bounded(c),
    ensures
        bounded(c.step(event).0),
{
    match event {
        Event::Polled { server, child } => {
            if c.stage is Idle && !(server.failed() || child.failed()) {
                let noted = ConnectionView {
                    server_connected: c.server_connected || server.writable,
                    server_ready: server,
                    child_ready: child,
                    ..c
                };
                if noted.server_connected {
                    lemma_begin_bounded(noted, Stage::RelayFromServer);
                }
            }
        },
        Event::Received(outcome) => {
            if c.stage.relays() {
                let lane = c.lane(c.stage);
                let (lane2, step) = relay(lane, RelayEvent::Received(outcome));
                if step is Done {
                    lemma_begin_bounded(c.with_lane(c.stage, lane2), c.stage.next());
                }
            }
        },
        Event::Sent(outcome) => {
            let lane = c.lane(c.stage);
            if c.stage.relays() {
                let (lane2, step) = relay(lane, RelayEvent::Sent(outcome));
                if step is Done {
                    lemma_begin_bounded(c.with_lane(c.stage, lane2), c.stage.next());
                }
            } else if c.stage.drains() {
                let (lane2, step) = drain(lane, DrainEvent::Sent(outcome));
                if step is Done {
                    lemma_begin_bounded(c.with_lane(c.stage, lane2), c.stage.next());
                }
            }
        },
    }
}

/// On a connection that was accepted, never more than one message waits for
/// an endpoint.
pub proof fn lemma_fresh_bounded<Fd>(
    child_side: Fd,
    server_side: Fd,
    server_connected: bool,
    events: Seq<Event<Fd>>,
)
    ensures
        bounded(run(ConnectionView::fresh(child_side, server_side, server_connected), events)),
{
    lemma_run_bounded(ConnectionView::fresh(child_side, server_side, server_connected), events);
}

/// Over any run of events, at most one message goes on waiting for each
/// endpoint.
pub proof fn lemma_run_bounded<Fd>(c: ConnectionView<Fd>, events: Seq<Event<Fd>>)
    requires
        consistent(c),
        bounded(c),
    ensures
        bounded(run(c, events)),
    decreases events.len(),
{
    if events.len() > 0 {
        lemma_step_bounded(c, events[0]);
        lemma_step_consistent(c, events[0]);
        lemma_run_bounded(c.step(events[0]).0, events.skip(1));
    }
}

} // verus!
