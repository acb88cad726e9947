//! What holds of the event loop between any two system calls.

use crate::connection::{Action, ConnectionView, Event};
use crate::event_loop::{is_live, LoopAction, LoopEvent, LoopView, Phase, WAIT_TIMEOUT_MILLIS};
use crate::io::Side;
use crate::stream::{accounted, consistent, lemma_step_accounted};
use vstd::prelude::*;

verus! {

/// What holds of the loop between any two system calls. Every connection is
/// as the relay brings connections about. While the connections are served,
/// the one at the cursor is in its turn and all others are idle. At all
/// other times every connection in the table is idle and live.
pub open spec fn orderly<Fd>(l: LoopView<Fd>) -> bool {
    &&& forall|i: int| 0 <= i < l.connections.len() ==> consistent(#[trigger] l.connections[i])
    &&& l.phase is Serving || l.phase is Accepting ==> l.ready.len() <= l.connections.len()
        && l.ready.len() <= usize::MAX
    &&& l.phase is Serving ==> {
        &&& l.cursor < l.ready.len()
        &&& !(l.connections[l.cursor as int].stage is Idle)
        &&& forall|i: int|
            0 <= i < l.connections.len() && i != l.cursor ==> (
            #[trigger] l.connections[i]).stage is Idle
    }
    &&& !(l.phase is Serving) ==> forall|i: int|
        0 <= i < l.connections.len() ==> (#[trigger] l.connections[i]).stage is Idle
            && l.connections[i].live()
}

/// What holds of the loop when it asks for something. A receive or a send is
/// asked for only on the connection that is being served, which is then live,
/// and a send only with a message in flight. The loop ends only with an
/// empty table.
pub open spec fn well_asked<Fd>(l: LoopView<Fd>, action: LoopAction) -> bool {
    match action {
        LoopAction::Receive { connection, side } => {
            &&& l.phase is Serving
            &&& connection == l.cursor
            &&& l.connections[connection as int].live()
            &&& l.connections[connection as int].in_flight is None
        },
        LoopAction::Send { connection, side } => {
            &&& l.phase is Serving
            &&& connection == l.cursor
            &&& l.connections[connection as int].live()
            &&& l.connections[connection as int].in_flight is Some
        },
        LoopAction::Wait { timeout_millis } => l.phase is Waiting && timeout_millis
            == WAIT_TIMEOUT_MILLIS,
        LoopAction::Accept => l.phase is Accepting,
        LoopAction::CheckChild => l.phase is Checking,
        LoopAction::Exit => l.phase is Finished && l.connections.len() == 0,
        LoopAction::Fatal(_) => true,
    }
}

/// Pruning keeps exactly the live connections, each as it was.
pub proof fn lemma_pruned<Fd>(table: Seq<ConnectionView<Fd>>)
    ensures
        forall|i: int|
            0 <= i < table.filter(is_live()).len() ==> (#[trigger] table.filter(
                is_live(),
            )[i]).live() && table.contains(table.filter(is_live())[i]),
        forall|i: int|
            0 <= i < table.len() && table[i].live() ==> table.filter(is_live()).contains(
                #[trigger] table[i],
            ),
        table.filter(is_live()).filter(is_live()) == table.filter(is_live()),
    decreases table.len(),
{
    let kept = table.filter(is_live());
    assert forall|i: int| 0 <= i < kept.len() implies (#[trigger] kept[i]).live()
        && table.contains(kept[i]) by {
        table.lemma_filter_pred(is_live(), i);
        assert(kept.contains(kept[i]));
        table.lemma_filter_contains_rev(is_live(), kept[i]);
    }
    assert forall|i: int| 0 <= i < table.len() && table[i].live() implies kept.contains(
        #[trigger] table[i],
    ) by {
        table.lemma_filter_contains(is_live(), i);
    }
    lemma_filter_of_kept(kept);
}

proof fn lemma_filter_of_kept<Fd>(kept: Seq<ConnectionView<Fd>>)
    requires
        forall|i: int| 0 <= i < kept.len() ==> (#[trigger] kept[i]).live(),
    ensures
        kept.filter(is_live()) == kept,
    decreases kept.len(),
{
    reveal(Seq::filter);
    if kept.len() > 0 {
        lemma_filter_of_kept(kept.drop_last());
        assert(kept.last().live());
        assert(kept.drop_last().push(kept.last()) =~= kept);
    }
}

/// Serving the connections from one of them on keeps the loop orderly.
#[verifier::rlimit(40)]
proof fn lemma_serve_orderly<Fd>(l: LoopView<Fd>, from: nat)
    requires
        forall|i: int| 0 <= i < l.connections.len() ==> consistent(#[trigger] l.connections[i]),
        forall|i: int| 0 <= i < l.connections.len() ==> (#[trigger] l.connections[i]).stage is Idle,
        l.ready.len() <= l.connections.len(),
        l.ready.len() <= usize::MAX,
        from <= l.ready.len(),
    ensures
        ({
            let (after, action) = l.serve(from);
            action is Fatal || (orderly(after) && well_asked(after, action))
        }),
    decreases l.ready.len() - from, 1nat,
{
    if from >= l.ready.len() || from >= l.connections.len() {
        let kept = l.connections.filter(is_live());
        lemma_pruned(l.connections);
        assert forall|i: int| 0 <= i < kept.len() implies consistent(#[trigger] kept[i])
            && kept[i].stage is Idle && kept[i].live() by {
            assert(l.connections.contains(kept[i]));
        }
    } else {
        let polled = Event::Polled {
            server: l.ready[from as int].0,
            child: l.ready[from as int].1,
        };
        let (conn, action) = l.connections[from as int].step(polled);
        lemma_step_accounted(l.connections[from as int], polled, Side::Server);
        assert(accounted(l.connections[from as int], polled, Side::Server));
        let turned = LoopView {
            connections: l.connections.update(from as int, conn),
            phase: Phase::Serving,
            cursor: from,
            ..l
        };
        lemma_settle_orderly(turned, action);
    }
}

/// Going on from what the served connection asked for keeps the loop
/// orderly.
#[verifier::rlimit(40)]
proof fn lemma_settle_orderly<Fd>(l: LoopView<Fd>, action: Action)
    requires
        forall|i: int| 0 <= i < l.connections.len() ==> consistent(#[trigger] l.connections[i]),
        forall|i: int|
            0 <= i < l.connections.len() && i != l.cursor ==> (
            #[trigger] l.connections[i]).stage is Idle,
        l.ready.len() <= l.connections.len(),
        l.ready.len() <= usize::MAX,
        l.cursor < l.ready.len(),
        l.phase is Serving,
        action is Done ==> l.connections[l.cursor as int].stage is Idle,
        action is Receive || action is Send ==> l.connections[l.cursor as int].live() && !(
        l.connections[l.cursor as int].stage is Idle),
        action is Send ==> l.connections[l.cursor as int].in_flight is Some,
        action is Receive ==> l.connections[l.cursor as int].in_flight is None,
    ensures
        ({
            let (after, next) = l.settle(action);
            next is Fatal || (orderly(after) && well_asked(after, next))
        }),
    decreases l.ready.len() - l.cursor, 0nat,
{
    if action is Done {
        lemma_serve_orderly(l, l.cursor + 1);
    }
}

/// Every event leaves the loop orderly and asking well, unless the process
/// is to stop.
pub proof fn lemma_step_orderly<Fd>(l: LoopView<Fd>, event: LoopEvent<Fd>)
    requires
        orderly(l),
    ensures
        ({
            let (after, action) = l.step(event);
            action is Fatal || (orderly(after) && well_asked(after, action))
        }),
{
    let (after, action) = l.step(event);
    match (l.phase, event) {
        (Phase::Waiting, LoopEvent::Waited(outcome)) => {
            if let Ok(reports) = outcome {
                if reports.connections@.len() == l.connections.len() {
                    assert(reports.connections.len() == reports.connections@.len());
                    let noted = LoopView { ready: reports.connections@, ..l };
                    if !reports.listener.readable {
                        lemma_serve_orderly(noted, 0);
                    }
                }
            }
        },
        (Phase::Accepting, LoopEvent::Accepted(outcome)) => {
            match outcome {
                Ok(client) => {},
                Err(error) => {
                    if error is WouldBlock {
                        lemma_serve_orderly(l, 0);
                    }
                },
            }
        },
        (Phase::Serving, LoopEvent::Received(outcome)) => {
            lemma_served_orderly(l, Event::Received(outcome));
        },
        (Phase::Serving, LoopEvent::Sent(outcome)) => {
            lemma_served_orderly(l, Event::Sent(outcome));
        },
        _ => {},
    }
}

#[verifier::rlimit(40)]
proof fn lemma_served_orderly<Fd>(l: LoopView<Fd>, event: Event<Fd>)
    requires
        orderly(l),
        l.phase is Serving,
        event is Received || event is Sent,
    ensures
        ({
            let (after, action) = l.served(event);
            action is Fatal || (orderly(after) && well_asked(after, action))
        }),
{
    let served = l.connections[l.cursor as int];
    let (conn, action) = served.step(event);
    lemma_step_accounted(served, event, Side::Server);
    assert(accounted(served, event, Side::Server));
    let turned = LoopView { connections: l.connections.update(l.cursor as int, conn), ..l };
    lemma_settle_orderly(turned, action);
}

/// The table in which each connection from `from` up to, but not including,
/// `upto` has taken what the wait reported for it, and no other connection
/// has changed.
pub open spec fn polled_between<Fd>(l: LoopView<Fd>, from: nat, upto: nat) -> Seq<
    ConnectionView<Fd>,
> {
    Seq::new(
        l.connections.len(),
        |j: int|
            if from <= j < upto {
                l.connections[j].step(
                    Event::Polled { server: l.ready[j].0, child: l.ready[j].1 },
                ).0
            } else {
                l.connections[j]
            },
    )
}

/// Serving touches each connection by its own events only. From the
/// connection at `from` on, each one in turn takes what the wait reported for
/// it, up to the one that asks for a system call; when none does, the table
/// is pruned. No other connection changes.
#[verifier::rlimit(40)]
pub proof fn lemma_serve_spares_others<Fd>(l: LoopView<Fd>, from: nat)
    requires
        l.ready.len() <= l.connections.len(),
        l.ready.len() <= usize::MAX,
        from <= l.ready.len(),
    ensures
        ({
            let (after, action) = l.serve(from);
            &&& after.ready == l.ready
            &&& action is Receive || action is Send || action is Fatal ==> from <= after.cursor
                < l.ready.len() && after.connections == polled_between(
                l,
                from,
                after.cursor + 1,
            )
            &&& action is CheckChild ==> after.connections == polled_between(
                l,
                from,
                l.ready.len(),
            ).filter(is_live())
            &&& !(action is Wait || action is Accept || action is Exit)
        }),
    decreases l.ready.len() - from,
{
    let (after, action) = l.serve(from);
    if from >= l.ready.len() || from >= l.connections.len() {
        assert(polled_between(l, from, l.ready.len()) =~= l.connections);
    } else {
        let polled = Event::Polled {
            server: l.ready[from as int].0,
            child: l.ready[from as int].1,
        };
        let (conn, asked) = l.connections[from as int].step(polled);
        let turned = LoopView {
            connections: l.connections.update(from as int, conn),
            phase: Phase::Serving,
            cursor: from,
            ..l
        };
        if asked is Done {
            lemma_serve_spares_others(turned, from + 1);
            let (last, _) = turned.serve(from + 1);
            if action is CheckChild {
                assert(polled_between(turned, from + 1, l.ready.len()) =~= polled_between(
                    l,
                    from,
                    l.ready.len(),
                ));
            } else {
                assert(polled_between(turned, from + 1, last.cursor + 1) =~= polled_between(
                    l,
                    from,
                    last.cursor + 1,
                ));
            }
        } else {
            assert(turned.connections =~= polled_between(l, from, from + 1));
        }
    }
}

/// An event that is reported while the connections are served reaches the
/// connection at the cursor and no other; the connections after it then take
/// what the wait reported for them, as in any serving.
pub proof fn lemma_served_spares_others<Fd>(l: LoopView<Fd>, event: Event<Fd>)
    requires
        l.phase is Serving,
        l.cursor < l.ready.len() <= l.connections.len(),
        l.ready.len() <= usize::MAX,
    ensures
        ({
            let (after, action) = l.served(event);
            let taken = LoopView {
                connections: l.connections.update(
                    l.cursor as int,
                    l.connections[l.cursor as int].step(event).0,
                ),
                ..l
            };
            &&& action is Receive || action is Send || action is Fatal ==> l.cursor
                <= after.cursor < l.ready.len() && after.connections == polled_between(
                taken,
                l.cursor + 1,
                after.cursor + 1,
            )
            &&& action is CheckChild ==> after.connections == polled_between(
                taken,
                l.cursor + 1,
                l.ready.len(),
            ).filter(is_live())
        }),
{
    let (conn, asked) = l.connections[l.cursor as int].step(event);
    let taken = LoopView { connections: l.connections.update(l.cursor as int, conn), ..l };
    if asked is Done {
        lemma_serve_spares_others(taken, l.cursor + 1);
    } else {
        assert(taken.connections =~= polled_between(taken, l.cursor + 1, l.cursor + 1));
    }
}

/// A loop with an empty table is orderly.
pub proof fn lemma_initial_orderly<Fd>()
    ensures
        orderly(LoopView::<Fd>::initial()),
{
}

/// The loop after a run of events, the first one first, as long as none of
/// them made it ask the process to stop.
pub open spec fn run_loop<Fd>(l: LoopView<Fd>, events: Seq<LoopEvent<Fd>>) -> Option<LoopView<Fd>>
    decreases events.len(),
{
    if events.len() == 0 {
        Some(l)
    } else if l.step(events[0]).1 is Fatal {
        None
    } else {
        run_loop(l.step(events[0]).0, events.skip(1))
    }
}

/// A loop that starts with an empty table is orderly whatever happens, up to
/// the event that makes it ask the process to stop: in particular a
/// connection that has closed is out of the table by the end of the
/// iteration in which it closed, and is never served again.
pub proof fn lemma_always_orderly<Fd>(events: Seq<LoopEvent<Fd>>)
    ensures
        run_loop(LoopView::<Fd>::initial(), events) matches Some(l) ==> orderly(l),
{
    lemma_initial_orderly::<Fd>();
    lemma_run_orderly(LoopView::<Fd>::initial(), events);
}

/// An orderly loop stays orderly over any run of events, up to the event
/// that makes it ask the process to stop.
pub proof fn lemma_run_orderly<Fd>(l: LoopView<Fd>, events: Seq<LoopEvent<Fd>>)
    requires
        orderly(l),
    ensures
        run_loop(l, events) matches Some(after) ==> orderly(after),
    decreases events.len(),
{
    if events.len() > 0 {
        lemma_step_orderly(l, events[0]);
        if !(l.step(events[0]).1 is Fatal) {
            lemma_run_orderly(l.step(events[0]).0, events.skip(1));
        }
    }
}

} // verus!
