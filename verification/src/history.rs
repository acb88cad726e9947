//! What runs of events do to a connection: order, conservation, and the
//! silence of a closed connection.

use crate::connection::{ConnectionView, Event};
use crate::io::Side;
use crate::message::Item;
use crate::stream::{consistent, given, lemma_step_accounted, pending, taken};
use vstd::prelude::*;
use vstd::seq_lib::lemma_multiset_commutative;

verus! {

/// The connection after a run of events, the first one first.
pub open spec fn run<Fd>(c: ConnectionView<Fd>, events: Seq<Event<Fd>>) -> ConnectionView<Fd>
    decreases events.len(),
{
    if events.len() == 0 {
        c
    } else {
        run(c.step(events[0]).0, events.skip(1))
    }
}

/// Everything that a run of events brought into the direction toward an
/// endpoint, in the order in which it came.
pub open spec fn received<Fd>(c: ConnectionView<Fd>, events: Seq<Event<Fd>>, toward: Side) -> Seq<
    Item<Fd>,
>
    decreases events.len(),
{
    if events.len() == 0 {
        Seq::empty()
    } else {
        taken(c, events[0], toward) + received(c.step(events[0]).0, events.skip(1), toward)
    }
}

/// Everything that an endpoint accepted during a run of events, in the order
/// in which it accepted it.
pub open spec fn delivered<Fd>(c: ConnectionView<Fd>, events: Seq<Event<Fd>>, toward: Side) -> Seq<
    Item<Fd>,
>
    decreases events.len(),
{
    if events.len() == 0 {
        Seq::empty()
    } else {
        given(c, events[0], toward) + delivered(c.step(events[0]).0, events.skip(1), toward)
    }
}

proof fn lemma_nothing_in_nothing<A>()
    ensures
        forall|a: A| Seq::<A>::empty().to_multiset().count(a) == 0,
{
    assert forall|a: A| Seq::<A>::empty().to_multiset().count(a) == 0 by {
        Seq::<A>::empty().to_multiset_ensures();
    }
}

/// Whatever happens, a connection stays as the relay brings connections
/// about, and a closed connection stays closed.
pub proof fn lemma_run_consistent<Fd>(c: ConnectionView<Fd>, events: Seq<Event<Fd>>)
    requires
        consistent(c),
    ensures
        consistent(run(c, events)),
        run(c, events).live() ==> c.live(),
    decreases events.len(),
{
    if events.len() > 0 {
        lemma_step_accounted(c, events[0], Side::Server);
        lemma_run_consistent(c.step(events[0]).0, events.skip(1));
    }
}

/// Once both endpoints of a connection are closed, no event makes the relay
/// ask for a receive or a send on it, and none changes what it holds.
pub proof fn lemma_closed_is_quiet<Fd>(c: ConnectionView<Fd>, event: Event<Fd>)
    requires
        consistent(c),
        !c.live(),
    ensures
        ({
            let (after, action) = c.step(event);
            &&& !after.live()
            &&& !(action is Receive)
            &&& !(action is Send)
            &&& after.to_server == c.to_server
            &&& after.to_child == c.to_child
            &&& after.in_flight is None
        }),
{
    lemma_step_accounted(c, event, Side::Server);
}

/// On a closed connection no run of events receives or delivers anything.
pub proof fn lemma_closed_moves_nothing<Fd>(
    c: ConnectionView<Fd>,
    events: Seq<Event<Fd>>,
    toward: Side,
)
    requires
        consistent(c),
        !c.live(),
    ensures
        received(c, events, toward) == Seq::<Item<Fd>>::empty(),
        delivered(c, events, toward) == Seq::<Item<Fd>>::empty(),
        !run(c, events).live(),
    decreases events.len(),
{
    if events.len() > 0 {
        lemma_step_accounted(c, events[0], toward);
        lemma_closed_moves_nothing(c.step(events[0]).0, events.skip(1), toward);
    }
}

/// Order is kept. Over any run of events that leaves the connection live,
/// what the endpoint accepted, followed by what is still pending for it, is
/// what was pending at the start followed by what came in: the same items in
/// the same order, whole, through every would-block and every partial send.
#[verifier::rlimit(40)]
pub proof fn lemma_order_kept<Fd>(c: ConnectionView<Fd>, events: Seq<Event<Fd>>, toward: Side)
    requires
        consistent(c),
        run(c, events).live(),
    ensures
        delivered(c, events, toward) + pending(run(c, events), toward) == pending(c, toward)
            + received(c, events, toward),
    decreases events.len(),
{
    let none = Seq::<Item<Fd>>::empty();
    if events.len() == 0 {
        assert(none + pending(c, toward) =~= pending(c, toward) + none);
    } else {
        let first = events[0];
        let next = c.step(first).0;
        let later = events.skip(1);
        lemma_step_accounted(c, first, toward);
        lemma_run_consistent(next, later);
        lemma_order_kept(next, later, toward);
        assert(delivered(c, events, toward) + pending(run(c, events), toward) =~= given(
            c,
            first,
            toward,
        ) + (delivered(next, later, toward) + pending(run(next, later), toward)));
        assert(given(c, first, toward) + (pending(next, toward) + received(next, later, toward))
            =~= (given(c, first, toward) + pending(next, toward)) + received(
            next,
            later,
            toward,
        ));
        assert(pending(c, toward) + received(c, events, toward) =~= (pending(c, toward) + taken(
            c,
            first,
            toward,
        )) + received(next, later, toward));
    }
}

/// Nothing is lost and nothing is made up. Over any run of events that
/// leaves the connection live, the items that the endpoint accepted and
/// those still pending for it are, one for one, the items that were pending
/// at the start and those that came in.
pub proof fn lemma_items_conserved<Fd>(
    c: ConnectionView<Fd>,
    events: Seq<Event<Fd>>,
    toward: Side,
)
    requires
        consistent(c),
        run(c, events).live(),
    ensures
        delivered(c, events, toward).to_multiset().add(
            pending(run(c, events), toward).to_multiset(),
        ) == pending(c, toward).to_multiset().add(received(c, events, toward).to_multiset()),
{
    lemma_order_kept(c, events, toward);
    lemma_multiset_commutative(delivered(c, events, toward), pending(run(c, events), toward));
    lemma_multiset_commutative(pending(c, toward), received(c, events, toward));
}

/// Nothing is delivered twice. Over any run of events, also one that closes
/// the connection, the endpoint accepted no more of any item than was
/// pending at the start or came in.
#[verifier::rlimit(40)]
pub proof fn lemma_never_duplicated<Fd>(
    c: ConnectionView<Fd>,
    events: Seq<Event<Fd>>,
    toward: Side,
)
    requires
        consistent(c),
    ensures
        delivered(c, events, toward).to_multiset().subset_of(
            pending(c, toward).to_multiset().add(received(c, events, toward).to_multiset()),
        ),
    decreases events.len(),
{
    broadcast use vstd::multiset::group_multiset_axioms;

    if events.len() == 0 {
        lemma_nothing_in_nothing::<Item<Fd>>();
    } else {
        let first = events[0];
        let next = c.step(first).0;
        let later = events.skip(1);
        lemma_step_accounted(c, first, toward);
        lemma_never_duplicated(next, later, toward);
        let g = given(c, first, toward);
        let t = taken(c, first, toward);
        lemma_multiset_commutative(g, delivered(next, later, toward));
        lemma_multiset_commutative(t, received(next, later, toward));
        if next.live() {
            lemma_multiset_commutative(g, pending(next, toward));
            lemma_multiset_commutative(pending(c, toward), t);
            let d = delivered(next, later, toward).to_multiset();
            let r = received(next, later, toward).to_multiset();
            let p = pending(next, toward).to_multiset();
            assert(g.to_multiset().add(p).add(r) =~= pending(c, toward).to_multiset().add(
                t.to_multiset().add(r),
            ));
            assert(g.to_multiset().add(d).subset_of(g.to_multiset().add(p.add(r))));
            assert(g.to_multiset().add(p.add(r)) =~= g.to_multiset().add(p).add(r));
        } else {
            lemma_closed_moves_nothing(next, later, toward);
            lemma_nothing_in_nothing::<Item<Fd>>();
            assert(g =~= Seq::empty());
            assert(g + delivered(next, later, toward) =~= Seq::empty());
        }
    }
}

/// A connection as it is accepted has nothing pending, so over any run of
/// events that leaves it live, what an endpoint accepted and what is still
/// pending for it is exactly what came in for it.
pub proof fn lemma_fresh_order_kept<Fd>(
    child_side: Fd,
    server_side: Fd,
    server_connected: bool,
    events: Seq<Event<Fd>>,
    toward: Side,
)
    requires
        run(ConnectionView::fresh(child_side, server_side, server_connected), events).live(),
    ensures
        ({
            let c = ConnectionView::fresh(child_side, server_side, server_connected);
            delivered(c, events, toward) + pending(run(c, events), toward) == received(
                c,
                events,
                toward,
            )
        }),
{
    let c = ConnectionView::fresh(child_side, server_side, server_connected);
    lemma_order_kept(c, events, toward);
    assert(pending(c, toward) =~= Seq::empty());
    assert(pending(c, toward) + received(c, events, toward) =~= received(c, events, toward));
}

/// Each descriptor is forwarded once. On a connection that was accepted and
/// is still live, every descriptor that came in for an endpoint has either
/// been accepted by it or is still pending for it, as many times as it came
/// in and no more.
pub proof fn lemma_each_handle_once<Fd>(
    child_side: Fd,
    server_side: Fd,
    server_connected: bool,
    events: Seq<Event<Fd>>,
    toward: Side,
    fd: Fd,
)
    requires
        run(ConnectionView::fresh(child_side, server_side, server_connected), events).live(),
    ensures
        ({
            let c = ConnectionView::fresh(child_side, server_side, server_connected);
            received(c, events, toward).to_multiset().count(Item::Handle(fd)) == delivered(
                c,
                events,
                toward,
            ).to_multiset().count(Item::Handle(fd)) + pending(
                run(c, events),
                toward,
            ).to_multiset().count(Item::Handle(fd))
        }),
{
    broadcast use vstd::multiset::group_multiset_axioms;

    let c = ConnectionView::fresh(child_side, server_side, server_connected);
    lemma_fresh_order_kept(child_side, server_side, server_connected, events, toward);
    lemma_multiset_commutative(delivered(c, events, toward), pending(run(c, events), toward));
}

} // verus!
