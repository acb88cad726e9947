//! What one event does to the items that a connection carries.

use crate::connection::{ConnectionView, Event, Stage};
use crate::drain::{drain, DrainEvent};
use crate::io::{IoError, Side};
use crate::lane::{Lane, Step};
use crate::message::{
    lemma_partial_send_splits, lemma_wire_of_push_back, lemma_wire_of_push_front, wire_of,
    BufferedMessage, Item, MessageView,
};
use crate::relay::{relay, RelayEvent};
use vstd::prelude::*;

verus! {

/// The items of a message that may be absent.
pub open spec fn wire_opt<Fd>(m: Option<MessageView<Fd>>) -> Seq<Item<Fd>> {
    match m {
        Some(m) => m.wire(),
        None => Seq::empty(),
    }
}

/// What the sink took from the message in flight, by the outcome of the
/// send: every descriptor and the bytes that the send reported, which are all
/// of them when it reported as many as it was offered or more.
pub open spec fn sent_items<Fd>(
    in_flight: Option<MessageView<Fd>>,
    outcome: Result<usize, IoError>,
) -> Seq<Item<Fd>> {
    match (in_flight, outcome) {
        (Some(msg), Ok(sent)) => if sent == 0 {
            Seq::empty()
        } else if sent >= msg.bytes.len() {
            msg.wire()
        } else {
            msg.accepted(sent as int)
        },
        _ => Seq::empty(),
    }
}

/// What a receive brought into a lane that had nothing in flight.
pub open spec fn received_items<Fd>(
    in_flight: Option<MessageView<Fd>>,
    outcome: Result<BufferedMessage<Fd>, IoError>,
) -> Seq<Item<Fd>> {
    match (in_flight, outcome) {
        (None, Ok(chunk)) => if chunk@.bytes.len() > 0 {
            chunk@.wire()
        } else {
            Seq::empty()
        },
        _ => Seq::empty(),
    }
}

/// What a relay event does to the items of its lane. Unless the event is
/// refused, and as long as the lane stays open, what the sink took, followed
/// by what is left, is what was there followed by what came in: a relay
/// never works with anything queued, so nothing goes ahead of anything.
#[verifier::rlimit(40)]
pub proof fn lemma_relay_moves_items<Fd>(lane: Lane<Fd>, event: RelayEvent<Fd>)
    ensures
        ({
            let (after, step) = relay(lane, event);
            let taken = match event {
                RelayEvent::Received(outcome) => received_items(lane.in_flight, outcome),
                _ => Seq::empty(),
            };
            let given = match event {
                RelayEvent::Sent(outcome) => sent_items(lane.in_flight, outcome),
                _ => Seq::empty(),
            };
            &&& after.live() ==> lane.live() && after.from == lane.from && after.to == lane.to
            &&& !lane.live() ==> after == lane && !(step is Receive) && !(step is Send)
            &&& step is Done ==> after.in_flight is None
            &&& step is Receive ==> after.in_flight is None
            &&& step is Send ==> after.in_flight is Some
            &&& step is Receive || step is Send ==> after.live() && after.queued.len() == 0
            &&& step is Fatal ==> after == lane
            &&& after.live() && !(step is Fatal) ==> given + (wire_of(after.queued) + wire_opt(
                after.in_flight,
            )) == wire_of(lane.queued) + wire_opt(lane.in_flight) + taken
        }),
{
    let (after, step) = relay(lane, event);
    let none = Seq::<Item<Fd>>::empty();
    let was = wire_of(lane.queued) + wire_opt(lane.in_flight);
    let now = wire_of(after.queued) + wire_opt(after.in_flight);
    if after.live() && !(step is Fatal) {
        match event {
            RelayEvent::Begin { readable } => {
                assert(none + now =~= was + none);
            },
            RelayEvent::Received(outcome) => {
                let taken = received_items(lane.in_flight, outcome);
                assert(wire_of(lane.queued) =~= none);
                assert(none + now =~= was + taken);
            },
            RelayEvent::Sent(outcome) => {
                let given = sent_items(lane.in_flight, outcome);
                assert(wire_of(lane.queued) =~= none);
                match (lane.in_flight, outcome) {
                    (Some(msg), Ok(sent)) => {
                        if sent >= msg.bytes.len() {
                            assert(given + now =~= was + none);
                        } else {
                            let rest = msg.remainder(sent as int);
                            lemma_partial_send_splits(msg, sent as int);
                            lemma_wire_of_push_back(lane.queued, rest);
                            assert(now =~= rest.wire());
                            assert(given + now =~= was + none);
                        }
                    },
                    (Some(msg), Err(error)) => {
                        lemma_wire_of_push_back(lane.queued, msg);
                        assert(now =~= msg.wire());
                        assert(none + now =~= was + none);
                    },
                    (None, _) => {},
                }
            },
        }
    }
}

/// What a drain event does to the items of its lane. Unless the event is
/// refused, and as long as the lane stays open, what the sink took, followed
/// by what is left, is what was there.
#[verifier::rlimit(40)]
pub proof fn lemma_drain_moves_items<Fd>(lane: Lane<Fd>, event: DrainEvent)
    ensures
        ({
            let (after, step) = drain(lane, event);
            let given = match event {
                DrainEvent::Sent(outcome) => sent_items(lane.in_flight, outcome),
                _ => Seq::empty(),
            };
            &&& after.live() ==> lane.live() && after.from == lane.from && after.to == lane.to
            &&& !lane.live() ==> after == lane && !(step is Send)
            &&& step is Done ==> after.in_flight is None
            &&& !(step is Receive)
            &&& step is Send ==> after.in_flight is Some && after.live()
            &&& step is Fatal ==> after == lane
            &&& after.live() && !(step is Fatal) ==> given + (wire_opt(after.in_flight) + wire_of(
                after.queued,
            )) == wire_opt(lane.in_flight) + wire_of(lane.queued)
        }),
{
    let (after, step) = drain(lane, event);
    let none = Seq::<Item<Fd>>::empty();
    let was = wire_opt(lane.in_flight) + wire_of(lane.queued);
    let now = wire_opt(after.in_flight) + wire_of(after.queued);
    if after.live() && !(step is Fatal) {
        match event {
            DrainEvent::Begin { writable } => {
                assert(none + now =~= now);
                if step is Send {
                    assert(now =~= was);
                }
            },
            DrainEvent::Sent(outcome) => {
                let given = sent_items(lane.in_flight, outcome);
                match (lane.in_flight, outcome) {
                    (Some(msg), Ok(sent)) => {
                        if sent >= msg.bytes.len() {
                            assert(now =~= wire_of(lane.queued));
                            assert(given + now =~= was);
                        } else {
                            let rest = msg.remainder(sent as int);
                            lemma_partial_send_splits(msg, sent as int);
                            lemma_wire_of_push_front(rest, lane.queued);
                            assert(now =~= rest.wire() + wire_of(lane.queued));
                            assert(given + now =~= was);
                        }
                    },
                    (Some(msg), Err(error)) => {
                        lemma_wire_of_push_front(msg, lane.queued);
                        assert(now =~= was);
                        assert(none + now =~= now);
                    },
                    (None, _) => {},
                }
            },
        }
    }
}

/// What holds of every connection that the relay brings about: the two
/// endpoints are open or closed together, a message is in flight only within
/// a turn, a turn is under way only on a live connection, and a relay is
/// under way only with nothing queued toward its sink.
pub open spec fn consistent<Fd>(c: ConnectionView<Fd>) -> bool {
    &&& c.child_side is Some <==> c.server_side is Some
    &&& c.in_flight is Some ==> !(c.stage is Idle)
    &&& !(c.stage is Idle) ==> c.live()
    &&& c.stage.relays() ==> c.queued(c.stage.toward()).len() == 0
}

/// A connection is consistent when it is accepted.
pub proof fn lemma_fresh_consistent<Fd>(child_side: Fd, server_side: Fd, server_connected: bool)
    ensures
        consistent(ConnectionView::fresh(child_side, server_side, server_connected)),
{
}

/// Whether the stage that the connection is in works on the direction toward
/// an endpoint.
pub open spec fn serves<Fd>(c: ConnectionView<Fd>, toward: Side) -> bool {
    !(c.stage is Idle) && c.stage.toward() == toward
}

/// What the connection holds for an endpoint and has not delivered, in the
/// order in which it is to arrive: the queue, and the message in flight,
/// which a relay puts behind the queue and a drain took from its front.
pub open spec fn pending<Fd>(c: ConnectionView<Fd>, toward: Side) -> Seq<Item<Fd>> {
    if serves(c, toward) {
        if c.stage.relays() {
            wire_of(c.queued(toward)) + wire_opt(c.in_flight)
        } else {
            wire_opt(c.in_flight) + wire_of(c.queued(toward))
        }
    } else {
        wire_of(c.queued(toward))
    }
}

/// What an event brings into the direction toward an endpoint.
pub open spec fn taken<Fd>(c: ConnectionView<Fd>, event: Event<Fd>, toward: Side) -> Seq<
    Item<Fd>,
> {
    match event {
        Event::Received(outcome) => if serves(c, toward) && c.stage.relays() {
            received_items(c.in_flight, outcome)
        } else {
            Seq::empty()
        },
        _ => Seq::empty(),
    }
}

/// What an endpoint accepts by an event.
pub open spec fn given<Fd>(c: ConnectionView<Fd>, event: Event<Fd>, toward: Side) -> Seq<
    Item<Fd>,
> {
    match event {
        Event::Sent(outcome) => if serves(c, toward) {
            sent_items(c.in_flight, outcome)
        } else {
            Seq::empty()
        },
        _ => Seq::empty(),
    }
}

/// Taking up a stage moves no item and asks for a system call only on a live
/// connection.
#[verifier::rlimit(40)]
pub proof fn lemma_begin_keeps_items<Fd>(c: ConnectionView<Fd>, stage: Stage)
    requires
        c.in_flight is None,
        c.child_side is Some <==> c.server_side is Some,
    ensures
        ({
            let (after, action) = c.begin(stage);
            &&& after.child_side == c.child_side
            &&& after.server_side == c.server_side
            &&& after.server_connected == c.server_connected
            &&& consistent(after)
            &&& !(action is Fatal)
            &&& action is Done <==> after.stage is Idle
            &&& action is Send ==> after.in_flight is Some
            &&& action is Receive ==> after.in_flight is None
            &&& action is Receive || action is Send ==> after.live()
            &&& after.in_flight is Some ==> after.stage.drains()
            &&& !c.live() ==> after.to_server == c.to_server && after.to_child == c.to_child
                && after.in_flight is None
            &&& pending(after, Side::Server) == wire_of(c.to_server)
            &&& pending(after, Side::Child) == wire_of(c.to_child)
        }),
    decreases stage.remaining(),
{
    let none = Seq::<Item<Fd>>::empty();
    if stage is Idle {
    } else {
        let (lane, step) = c.open_stage(stage);
        let opened = ConnectionView { stage, ..c.with_lane(stage, lane) };
        if stage.relays() {
            assert(lane == c.lane(stage));
            assert(opened.to_server == c.to_server && opened.to_child == c.to_child);
            if step is Done {
                lemma_begin_keeps_items(opened, stage.next());
            } else {
                assert(wire_of(c.to_server) + none =~= wire_of(c.to_server));
                assert(wire_of(c.to_child) + none =~= wire_of(c.to_child));
            }
        } else {
            if step is Done {
                assert(lane == c.lane(stage));
                lemma_begin_keeps_items(opened, stage.next());
            } else {
                assert(step is Send);
                let queue = c.queued(stage.toward());
                assert(lane.in_flight == Some(queue[0]));
                assert(lane.queued == queue.skip(1));
                assert(wire_of(queue) == queue[0].wire() + wire_of(queue.skip(1)));
            }
        }
    }
}

/// What follows a stage's step moves no item either.
#[verifier::rlimit(40)]
proof fn lemma_proceed_keeps_items<Fd>(moved: ConnectionView<Fd>, step: Step)
    requires
        moved.child_side is Some <==> moved.server_side is Some,
        !(moved.stage is Idle),
        step is Done ==> moved.in_flight is None,
        step is Receive ==> moved.in_flight is None,
        step is Send ==> moved.in_flight is Some,
        !(step is Done) ==> consistent(moved),
    ensures
        ({
            let (after, action) = moved.proceed(step);
            &&& after.child_side == moved.child_side
            &&& after.server_side == moved.server_side
            &&& consistent(after)
            &&& action is Receive || action is Send ==> after.live() && !(after.stage is Idle)
            &&& action is Send ==> after.in_flight is Some
            &&& action is Receive ==> after.in_flight is None
            &&& action is Done ==> after.stage is Idle
            &&& action is Fatal <==> step is Fatal
            &&& !after.live() ==> after.in_flight is None && after.to_server == moved.to_server
                && after.to_child == moved.to_child
            &&& pending(after, Side::Server) == pending(moved, Side::Server)
            &&& pending(after, Side::Child) == pending(moved, Side::Child)
        }),
{
    let none = Seq::<Item<Fd>>::empty();
    if step is Done {
        lemma_begin_keeps_items(moved, moved.stage.next());
        assert(wire_of(moved.to_server) + none =~= wire_of(moved.to_server));
        assert(wire_of(moved.to_child) + none =~= wire_of(moved.to_child));
        assert(none + wire_of(moved.to_server) =~= wire_of(moved.to_server));
        assert(none + wire_of(moved.to_child) =~= wire_of(moved.to_child));
    }
}

/// The account that an event leaves of the direction toward an endpoint.
///
/// The connection stays as the relay brings connections about. It never
/// comes back to life, a system call is asked for only on a live connection,
/// and a closed one keeps what it holds. While it stays live, nothing is
/// lost, made up or moved out of place: what the endpoint accepted, followed
/// by what is still pending for it, is what was pending followed by what
/// came in.
pub open spec fn accounted<Fd>(c: ConnectionView<Fd>, event: Event<Fd>, toward: Side) -> bool {
    let (after, action) = c.step(event);
    &&& consistent(after)
    &&& after.live() ==> c.live() && after.child_side == c.child_side && after.server_side
        == c.server_side
    &&& action is Receive || action is Send ==> after.live() && !(after.stage is Idle)
    &&& action is Send ==> after.in_flight is Some
    &&& action is Receive ==> after.in_flight is None
    &&& action is Done ==> after.stage is Idle
    &&& !c.live() ==> after.to_server == c.to_server && after.to_child == c.to_child
        && after.in_flight is None
    &&& !after.live() ==> given(c, event, toward).len() == 0
    &&& !c.live() ==> taken(c, event, toward).len() == 0
    &&& after.live() ==> given(c, event, toward) + pending(after, toward) == pending(c, toward)
        + taken(c, event, toward)
}

proof fn lemma_unmoved<Fd>(was: Seq<Item<Fd>>, now: Seq<Item<Fd>>)
    requires
        was == now,
    ensures
        Seq::<Item<Fd>>::empty() + now == was + Seq::<Item<Fd>>::empty(),
{
    let none = Seq::<Item<Fd>>::empty();
    assert(none + now =~= was + none);
}

#[verifier::rlimit(40)]
proof fn lemma_polled_accounted<Fd>(c: ConnectionView<Fd>, event: Event<Fd>, toward: Side)
    requires
        consistent(c),
        event is Polled,
    ensures
        accounted(c, event, toward),
{
    let (after, action) = c.step(event);
    if let Event::Polled { server, child } = event {
        if c.stage is Idle && !(server.failed() || child.failed()) {
            let noted = ConnectionView {
                server_connected: c.server_connected || server.writable,
                server_ready: server,
                child_ready: child,
                ..c
            };
            if noted.server_connected {
                lemma_begin_keeps_items(noted, Stage::RelayFromServer);
            }
        }
        assert(pending(after, Side::Server) == pending(c, Side::Server));
        assert(pending(after, Side::Child) == pending(c, Side::Child));
        lemma_unmoved(pending(c, toward), pending(after, toward));
    }
}

proof fn lemma_out_of_turn_accounted<Fd>(c: ConnectionView<Fd>, event: Event<Fd>, toward: Side)
    requires
        consistent(c),
        c.step(event).0 == c,
        c.step(event).1 is Fatal,
        taken(c, event, toward).len() == 0,
        given(c, event, toward).len() == 0,
    ensures
        accounted(c, event, toward),
{
    lemma_unmoved(pending(c, toward), pending(c, toward));
    assert(taken(c, event, toward) =~= Seq::empty());
    assert(given(c, event, toward) =~= Seq::empty());
}

#[verifier::rlimit(40)]
proof fn lemma_relayed_accounted<Fd>(c: ConnectionView<Fd>, event: Event<Fd>, toward: Side)
    requires
        consistent(c),
        c.stage.relays(),
        event is Received || event is Sent,
    ensures
        accounted(c, event, toward),
{
    let (after, action) = c.step(event);
    let lane_event = match event {
        Event::Received(outcome) => RelayEvent::Received(outcome),
        Event::Sent(outcome) => RelayEvent::Sent(outcome),
        _ => RelayEvent::Begin { readable: false },
    };
    let lane = c.lane(c.stage);
    let (lane2, step) = relay(lane, lane_event);
    lemma_relay_moves_items(lane, lane_event);
    let moved = c.with_lane(c.stage, lane2);
    assert(after == moved.proceed(step).0);
    if step is Fatal {
        assert(moved == c);
        assert(taken(c, event, toward) =~= Seq::empty());
        assert(given(c, event, toward) =~= Seq::empty());
        lemma_unmoved(pending(c, toward), pending(c, toward));
    } else {
        lemma_proceed_keeps_items(moved, step);
        if after.live() {
            if serves(c, toward) {
                assert(pending(moved, toward) == wire_of(lane2.queued) + wire_opt(
                    lane2.in_flight,
                ));
                assert(pending(c, toward) == wire_of(lane.queued) + wire_opt(lane.in_flight));
            } else {
                assert(pending(moved, toward) == pending(c, toward));
                lemma_unmoved(pending(c, toward), pending(after, toward));
            }
        }
    }
}

#[verifier::rlimit(40)]
proof fn lemma_drained_accounted<Fd>(c: ConnectionView<Fd>, event: Event<Fd>, toward: Side)
    requires
        consistent(c),
        c.stage.drains(),
        event is Sent,
    ensures
        accounted(c, event, toward),
{
    let (after, action) = c.step(event);
    if let Event::Sent(outcome) = event {
        let lane = c.lane(c.stage);
        let (lane2, step) = drain(lane, DrainEvent::Sent(outcome));
        lemma_drain_moves_items(lane, DrainEvent::Sent(outcome));
        let moved = c.with_lane(c.stage, lane2);
        assert(after == moved.proceed(step).0);
        if step is Fatal {
            assert(moved == c);
            assert(given(c, event, toward) =~= Seq::empty());
            lemma_unmoved(pending(c, toward), pending(c, toward));
        } else {
            lemma_proceed_keeps_items(moved, step);
            if after.live() {
                if serves(c, toward) {
                    assert(pending(moved, toward) == wire_opt(lane2.in_flight) + wire_of(
                        lane2.queued,
                    ));
                    assert(pending(c, toward) == wire_opt(lane.in_flight) + wire_of(lane.queued));
                    assert(pending(c, toward) + Seq::<Item<Fd>>::empty() =~= pending(c, toward));
                } else {
                    assert(pending(moved, toward) == pending(c, toward));
                    lemma_unmoved(pending(c, toward), pending(after, toward));
                }
            }
        }
    }
}

/// A consistent connection stays consistent, whatever happens.
pub proof fn lemma_step_consistent<Fd>(c: ConnectionView<Fd>, event: Event<Fd>)
    requires
        consistent(c),
    ensures
        consistent(c.step(event).0),
{
    lemma_step_accounted(c, event, Side::Server);
}

/// Every event leaves its account, in both directions, of a connection that
/// the relay brought about.
pub proof fn lemma_step_accounted<Fd>(c: ConnectionView<Fd>, event: Event<Fd>, toward: Side)
    requires
        consistent(c),
    ensures
        accounted(c, event, toward),
{
    match event {
        Event::Polled { .. } => lemma_polled_accounted(c, event, toward),
        Event::Received(_) => {
            if c.stage.relays() {
                lemma_relayed_accounted(c, event, toward);
            } else {
                lemma_out_of_turn_accounted(c, event, toward);
            }
        },
        Event::Sent(_) => {
            if c.stage.relays() {
                lemma_relayed_accounted(c, event, toward);
            } else if c.stage.drains() {
                lemma_drained_accounted(c, event, toward);
            } else {
                lemma_out_of_turn_accounted(c, event, toward);
            }
        },
    }
}

} // verus!
