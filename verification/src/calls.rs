//! Whole calls of the relay and of the drain: what a run of events does to
//! one direction of a connection.

use crate::drain::{drain, DrainEvent};
use crate::endings::passing;
use crate::lane::Lane;
use crate::message::{wire_of, Item};
use crate::relay::{relay, RelayEvent};
use crate::stream::{
    lemma_drain_moves_items, lemma_relay_moves_items, received_items, sent_items, wire_opt,
};
use vstd::prelude::*;

verus! {

/// What a lane holds and has not delivered while a relay works on it: the
/// queue, then the message in flight.
pub open spec fn relay_pending<Fd>(lane: Lane<Fd>) -> Seq<Item<Fd>> {
    wire_of(lane.queued) + wire_opt(lane.in_flight)
}

/// What a lane holds and has not delivered while a drain works on it: the
/// message in flight, then the queue.
pub open spec fn drain_pending<Fd>(lane: Lane<Fd>) -> Seq<Item<Fd>> {
    wire_opt(lane.in_flight) + wire_of(lane.queued)
}

/// The lane after a run of relay events, the first one first.
pub open spec fn relay_run<Fd>(lane: Lane<Fd>, events: Seq<RelayEvent<Fd>>) -> Lane<Fd>
    decreases events.len(),
{
    if events.len() == 0 {
        lane
    } else {
        relay_run(relay(lane, events[0]).0, events.skip(1))
    }
}

/// Whether the relay answered some event of a run by asking the process to
/// stop.
pub open spec fn relay_stopped<Fd>(lane: Lane<Fd>, events: Seq<RelayEvent<Fd>>) -> bool
    decreases events.len(),
{
    events.len() > 0 && (relay(lane, events[0]).1 is Fatal || relay_stopped(
        relay(lane, events[0]).0,
        events.skip(1),
    ))
}

/// What the receives of a run of relay events brought in, in their order.
pub open spec fn relay_received<Fd>(lane: Lane<Fd>, events: Seq<RelayEvent<Fd>>) -> Seq<Item<Fd>>
    decreases events.len(),
{
    if events.len() == 0 {
        Seq::empty()
    } else {
        (match events[0] {
            RelayEvent::Received(outcome) => received_items(lane.in_flight, outcome),
            _ => Seq::empty(),
        }) + relay_received(relay(lane, events[0]).0, events.skip(1))
    }
}

/// What the sends of a run of relay events got accepted, in their order.
pub open spec fn relay_accepted<Fd>(lane: Lane<Fd>, events: Seq<RelayEvent<Fd>>) -> Seq<Item<Fd>>
    decreases events.len(),
{
    if events.len() == 0 {
        Seq::empty()
    } else {
        (match events[0] {
            RelayEvent::Sent(outcome) => sent_items(lane.in_flight, outcome),
            _ => Seq::empty(),
        }) + relay_accepted(relay(lane, events[0]).0, events.skip(1))
    }
}

/// A relay keeps the order, whatever is queued when it begins. Over any run
/// of relay events that does not stop the process and leaves the lane open,
/// what the sink accepted, followed by what the lane still holds, is what
/// the lane held followed by what was received: nothing that was received
/// goes ahead of what was queued, and nothing is lost or repeated.
#[verifier::rlimit(40)]
pub proof fn lemma_relay_keeps_order<Fd>(lane: Lane<Fd>, events: Seq<RelayEvent<Fd>>)
    requires
        !relay_stopped(lane, events),
        relay_run(lane, events).live(),
    ensures
        relay_accepted(lane, events) + relay_pending(relay_run(lane, events)) == relay_pending(
            lane,
        ) + relay_received(lane, events),
    decreases events.len(),
{
    let none = Seq::<Item<Fd>>::empty();
    if events.len() == 0 {
        assert(none + relay_pending(lane) =~= relay_pending(lane) + none);
    } else {
        let (next, step) = relay(lane, events[0]);
        let later = events.skip(1);
        lemma_relay_moves_items(lane, events[0]);
        lemma_relay_stays_closed(next, later);
        lemma_relay_keeps_order(next, later);
        let taken = match events[0] {
            RelayEvent::Received(outcome) => received_items(lane.in_flight, outcome),
            _ => Seq::empty(),
        };
        let given = match events[0] {
            RelayEvent::Sent(outcome) => sent_items(lane.in_flight, outcome),
            _ => Seq::empty(),
        };
        assert(given + relay_pending(next) == relay_pending(lane) + taken);
        assert(relay_accepted(lane, events) + relay_pending(relay_run(lane, events)) =~= given
            + (relay_accepted(next, later) + relay_pending(relay_run(next, later))));
        assert(given + (relay_pending(next) + relay_received(next, later)) =~= (given
            + relay_pending(next)) + relay_received(next, later));
        assert(relay_pending(lane) + relay_received(lane, events) =~= (relay_pending(lane)
            + taken) + relay_received(next, later));
    }
}

/// A lane that a relay has closed stays closed.
pub proof fn lemma_relay_stays_closed<Fd>(lane: Lane<Fd>, events: Seq<RelayEvent<Fd>>)
    ensures
        relay_run(lane, events).live() ==> lane.live(),
    decreases events.len(),
{
    if events.len() > 0 {
        lemma_relay_moves_items(lane, events[0]);
        lemma_relay_stays_closed(relay(lane, events[0]).0, events.skip(1));
    }
}

/// Whether a relay event answers what the relay asked for: a beginning
/// with nothing in flight, the outcome of a receive on an open lane with
/// nothing in flight and nothing queued, the outcome of a send of the message
/// in flight on an open lane with nothing queued.
pub open spec fn relay_in_turn<Fd>(lane: Lane<Fd>, event: RelayEvent<Fd>) -> bool {
    match event {
        RelayEvent::Begin { .. } => lane.in_flight is None,
        RelayEvent::Received(_) => lane.in_flight is None && lane.live() && lane.queued.len() == 0,
        RelayEvent::Sent(_) => lane.in_flight is Some && lane.live() && lane.queued.len() == 0,
    }
}

/// Whether a relay event reports nothing worse than a would-block or a
/// reset.
pub open spec fn relay_benign<Fd>(event: RelayEvent<Fd>) -> bool {
    match event {
        RelayEvent::Begin { .. } => true,
        RelayEvent::Received(Ok(_)) => true,
        RelayEvent::Received(Err(error)) => passing(error),
        RelayEvent::Sent(Ok(_)) => true,
        RelayEvent::Sent(Err(error)) => passing(error),
    }
}

/// Whether a relay event reports the end of the connection: a read of no
/// bytes, a send that took nothing, or a reset.
pub open spec fn relay_ends<Fd>(event: RelayEvent<Fd>) -> bool {
    match event {
        RelayEvent::Begin { .. } => false,
        RelayEvent::Received(Ok(chunk)) => chunk@.bytes.len() == 0,
        RelayEvent::Received(Err(error)) => error is ConnectionReset,
        RelayEvent::Sent(Ok(sent)) => sent == 0,
        RelayEvent::Sent(Err(error)) => error is ConnectionReset,
    }
}

/// A relay stops the process exactly for an event that it did not ask for
/// or that reports an error other than a would-block or a reset. It closes
/// an open lane exactly when an event that it asked for reports the end of
/// the connection, and then it closes both endpoints.
pub proof fn lemma_relay_ends_only_by_endings<Fd>(lane: Lane<Fd>, event: RelayEvent<Fd>)
    ensures
        ({
            let (after, step) = relay(lane, event);
            &&& step is Fatal <==> !(relay_in_turn(lane, event) && relay_benign(event))
            &&& lane.live() ==> (!after.live() <==> relay_in_turn(lane, event) && relay_ends(
                event,
            ))
            &&& lane.live() ==> (after.from is None <==> after.to is None)
            &&& !lane.live() ==> after == lane
        }),
{
}

/// Whether a drain event answers what the drain asked for.
pub open spec fn drain_in_turn<Fd>(lane: Lane<Fd>, event: DrainEvent) -> bool {
    match event {
        DrainEvent::Begin { .. } => lane.in_flight is None,
        DrainEvent::Sent(_) => lane.in_flight is Some && lane.live(),
    }
}

/// Whether a drain event reports nothing worse than a would-block or a
/// reset.
pub open spec fn drain_benign(event: DrainEvent) -> bool {
    match event {
        DrainEvent::Begin { .. } => true,
        DrainEvent::Sent(Ok(_)) => true,
        DrainEvent::Sent(Err(error)) => passing(error),
    }
}

/// Whether a drain event reports the end of the connection: a send that
/// took nothing, or a reset.
pub open spec fn drain_ends(event: DrainEvent) -> bool {
    match event {
        DrainEvent::Begin { .. } => false,
        DrainEvent::Sent(Ok(sent)) => sent == 0,
        DrainEvent::Sent(Err(error)) => error is ConnectionReset,
    }
}

/// A drain stops the process exactly for an event that it did not ask for
/// or that reports an error other than a would-block or a reset. It closes
/// an open lane exactly when a send that it asked for reports the end of the
/// connection, and then it closes both endpoints.
pub proof fn lemma_drain_ends_only_by_endings<Fd>(lane: Lane<Fd>, event: DrainEvent)
    ensures
        ({
            let (after, step) = drain(lane, event);
            &&& step is Fatal <==> !(drain_in_turn(lane, event) && drain_benign(event))
            &&& lane.live() ==> (!after.live() <==> drain_in_turn(lane, event) && drain_ends(
                event,
            ))
            &&& lane.live() ==> (after.from is None <==> after.to is None)
            &&& !lane.live() ==> after == lane
        }),
{
}

/// The lane after a run of drain events, the first one first.
pub open spec fn drain_run<Fd>(lane: Lane<Fd>, events: Seq<DrainEvent>) -> Lane<Fd>
    decreases events.len(),
{
    if events.len() == 0 {
        lane
    } else {
        drain_run(drain(lane, events[0]).0, events.skip(1))
    }
}

/// Whether the drain answered some event of a run by asking the process to
/// stop.
pub open spec fn drain_stopped<Fd>(lane: Lane<Fd>, events: Seq<DrainEvent>) -> bool
    decreases events.len(),
{
    events.len() > 0 && (drain(lane, events[0]).1 is Fatal || drain_stopped(
        drain(lane, events[0]).0,
        events.skip(1),
    ))
}

/// What the sends of a run of drain events got accepted, in their order.
pub open spec fn drain_accepted<Fd>(lane: Lane<Fd>, events: Seq<DrainEvent>) -> Seq<Item<Fd>>
    decreases events.len(),
{
    if events.len() == 0 {
        Seq::empty()
    } else {
        (match events[0] {
            DrainEvent::Sent(outcome) => sent_items(lane.in_flight, outcome),
            _ => Seq::empty(),
        }) + drain_accepted(drain(lane, events[0]).0, events.skip(1))
    }
}

/// A lane that a drain has closed stays closed.
pub proof fn lemma_drain_stays_closed<Fd>(lane: Lane<Fd>, events: Seq<DrainEvent>)
    ensures
        drain_run(lane, events).live() ==> lane.live(),
    decreases events.len(),
{
    if events.len() > 0 {
        lemma_drain_moves_items(lane, events[0]);
        lemma_drain_stays_closed(drain(lane, events[0]).0, events.skip(1));
    }
}

/// A drain delivers the queue front first and whole. Over any run of drain
/// events that does not stop the process and leaves the lane open, what the
/// sink accepted, followed by what the lane still holds, is what the lane
/// held: every byte and descriptor, in order, however the sends were cut.
#[verifier::rlimit(40)]
pub proof fn lemma_drain_keeps_order<Fd>(lane: Lane<Fd>, events: Seq<DrainEvent>)
    requires
        !drain_stopped(lane, events),
        drain_run(lane, events).live(),
    ensures
        drain_accepted(lane, events) + drain_pending(drain_run(lane, events)) == drain_pending(
            lane,
        ),
    decreases events.len(),
{
    let none = Seq::<Item<Fd>>::empty();
    if events.len() == 0 {
        assert(none + drain_pending(lane) =~= drain_pending(lane));
    } else {
        let (next, step) = drain(lane, events[0]);
        let later = events.skip(1);
        lemma_drain_moves_items(lane, events[0]);
        lemma_drain_stays_closed(next, later);
        lemma_drain_keeps_order(next, later);
        let given = match events[0] {
            DrainEvent::Sent(outcome) => sent_items(lane.in_flight, outcome),
            _ => Seq::empty(),
        };
        assert(given + drain_pending(next) == drain_pending(lane));
        assert(drain_accepted(lane, events) + drain_pending(drain_run(lane, events)) =~= given
            + (drain_accepted(next, later) + drain_pending(drain_run(next, later))));
    }
}

} // verus!
