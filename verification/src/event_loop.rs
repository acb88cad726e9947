//! The event loop: the table of connections, accepting, serving, pruning and
//! the end of the process.

use crate::connection::{Action, ConnectionView, Event, ProxiedConnection};
use crate::io::{Fault, Interest, IoError, Operation, Readiness, Side};
use crate::message::BufferedMessage;
use crate::rounds::{lemma_step_orderly, orderly, well_asked};
use vstd::prelude::*;

verus! {

/// How long one readiness wait may last, in milliseconds. When it runs out
/// the loop goes on as after any other wait.
pub const WAIT_TIMEOUT_MILLIS: i32 = 30000;

/// The largest number of bytes that one receive asks for.
pub const RECEIVE_CAPACITY: usize = 1024;

/// The largest number of descriptors that one send can carry.
pub const MAX_HANDLES_PER_SEND: usize = 253;

/// What the loop is waiting to be told.
#[derive(Clone, Copy, PartialEq, Eq, Debug)]
pub enum Phase {
    /// How a readiness wait ended.
    Waiting,
    /// How an accept on the listening socket ended.
    Accepting,
    /// How a receive or a send on a connection ended.
    Serving,
    /// Whether the supervised child has exited.
    Checking,
    /// Nothing: the loop has ended.
    Finished,
}

/// What a readiness wait reported: for the listening socket, and for the
/// server side and the child side of each connection, in the order of the
/// table.
#[derive(Debug)]
pub struct Reports {
    pub listener: Readiness,
    pub connections: Vec<(Readiness, Readiness)>,
}

/// A client that was accepted, the socket that was opened for it toward the
/// real socket, and how the connect of that socket went.
#[derive(Debug)]
pub struct Accepted<Fd> {
    pub child_side: Fd,
    pub server_side: Fd,
    pub connect: Result<(), IoError>,
}

/// What happened since the loop last said what to do.
#[derive(Debug)]
pub enum LoopEvent<Fd> {
    /// The outcome of the readiness wait that was asked for.
    Waited(Result<Reports, IoError>),
    /// The outcome of the accept that was asked for.
    Accepted(Result<Accepted<Fd>, IoError>),
    /// The outcome of the receive that was asked for.
    Received(Result<BufferedMessage<Fd>, IoError>),
    /// The outcome of the send that was asked for: the number of bytes that
    /// the endpoint accepted, or the error.
    Sent(Result<usize, IoError>),
    /// Whether the supervised child has exited.
    ChildChecked { exited: bool },
}

/// What the loop asks for next.
#[derive(Clone, Copy, PartialEq, Eq, Debug)]
pub enum LoopAction {
    /// Wait for readiness of the listening socket and of every connection,
    /// as their interests say, for this many milliseconds at most, and
    /// report.
    Wait { timeout_millis: i32 },
    /// Accept once on the listening socket; for a client, open a socket and
    /// connect it to the real socket; report.
    Accept,
    /// Receive once from this endpoint of this connection and report.
    Receive { connection: usize, side: Side },
    /// Send the message in flight of this connection once to this endpoint
    /// and report.
    Send { connection: usize, side: Side },
    /// Look, without waiting, whether the supervised child has exited, and
    /// report.
    CheckChild,
    /// Close the listening socket, remove its path and end the process with
    /// success.
    Exit,
    /// Stop the process.
    Fatal(Fault),
}

/// The wait that every iteration of the loop begins with.
pub open spec fn wait() -> LoopAction {
    LoopAction::Wait { timeout_millis: WAIT_TIMEOUT_MILLIS }
}

/// The test that keeps a connection in the table.
pub open spec fn is_live<Fd>() -> spec_fn(ConnectionView<Fd>) -> bool {
    |c: ConnectionView<Fd>| c.live()
}

/// The views of the connections of a table, in its order.
pub open spec fn connections_of<Fd>(table: Seq<ProxiedConnection<Fd>>) -> Seq<ConnectionView<Fd>> {
    table.map_values(|c: ProxiedConnection<Fd>| c@)
}

/// The loop as a mathematical value.
pub struct LoopView<Fd> {
    pub connections: Seq<ConnectionView<Fd>>,
    pub phase: Phase,
    /// What the last wait reported for the connections it watched.
    pub ready: Seq<(Readiness, Readiness)>,
    /// The connection that is being served.
    pub cursor: nat,
}

impl<Fd> LoopView<Fd> {
    /// The loop as it starts: no connection, and a wait to come.
    pub open spec fn initial() -> Self {
        LoopView {
            connections: Seq::empty(),
            phase: Phase::Waiting,
            ready: Seq::empty(),
            cursor: 0,
        }
    }

    /// The loop goes on from what a connection asked for: a system call on
    /// that connection, or, when its turn is over, the next connection.
    pub open spec fn settle(self, action: Action) -> (Self, LoopAction)
        decreases self.ready.len() - self.cursor, 0nat,
    {
        match action {
            Action::Receive(side) => (
                self,
                LoopAction::Receive { connection: self.cursor as usize, side },
            ),
            Action::Send(side) => (
                self,
                LoopAction::Send { connection: self.cursor as usize, side },
            ),
            Action::Fatal(fault) => (self, LoopAction::Fatal(fault)),
            Action::Done => {
                if self.cursor < self.ready.len() {
                    self.serve(self.cursor + 1)
                } else {
                    (self, LoopAction::Fatal(Fault::OutOfTurn))
                }
            },
        }
    }

    /// The connections that the last wait watched are served in the order of
    /// the table, from the one at `from` on. When none is left, the
    /// connections that are no longer live leave the table, and the loop asks
    /// about the child.
    pub open spec fn serve(self, from: nat) -> (Self, LoopAction)
        decreases self.ready.len() - from, 1nat,
    {
        if from >= self.ready.len() || from >= self.connections.len() {
            (
                LoopView {
                    connections: self.connections.filter(is_live()),
                    phase: Phase::Checking,
                    cursor: 0,
                    ..self
                },
                LoopAction::CheckChild,
            )
        } else {
            let (conn, action) = self.connections[from as int].step(
                Event::Polled {
                    server: self.ready[from as int].0,
                    child: self.ready[from as int].1,
                },
            );
            (LoopView {
                connections: self.connections.update(from as int, conn),
                phase: Phase::Serving,
                cursor: from,
                ..self
            }).settle(action)
        }
    }

    /// The loop passes an event on to the connection that is being served.
    pub open spec fn served(self, event: Event<Fd>) -> (Self, LoopAction) {
        if self.cursor < self.connections.len() && self.cursor < self.ready.len() {
            let (conn, action) = self.connections[self.cursor as int].step(event);
            (LoopView { connections: self.connections.update(self.cursor as int, conn), ..self })
                .settle(action)
        } else {
            (self, LoopAction::Fatal(Fault::OutOfTurn))
        }
    }

    /// The loop after a readiness wait. An interrupted wait is made again.
    /// After a wait that succeeded, pending clients are accepted first, if
    /// the listening socket is readable, and then the connections are served.
    pub open spec fn waited(self, outcome: Result<Reports, IoError>) -> (Self, LoopAction) {
        match outcome {
            Ok(reports) => {
                if reports.connections@.len() != self.connections.len() {
                    (self, LoopAction::Fatal(Fault::OutOfTurn))
                } else {
                    let noted = LoopView { ready: reports.connections@, ..self };
                    if reports.listener.readable {
                        (LoopView { phase: Phase::Accepting, ..noted }, LoopAction::Accept)
                    } else {
                        noted.serve(0)
                    }
                }
            },
            Err(IoError::Interrupted) => (self, wait()),
            Err(error) => (self, LoopAction::Fatal(Fault::Io { during: Operation::Wait, error })),
        }
    }

    /// The loop after an accept. A client joins the table with empty queues,
    /// connected or still connecting, and another accept follows. When no
    /// client is pending the connections are served.
    pub open spec fn accepted(self, outcome: Result<Accepted<Fd>, IoError>) -> (Self, LoopAction) {
        match outcome {
            Ok(client) => match client.connect {
                Ok(_) => (
                    LoopView {
                        connections: self.connections.push(
                            ConnectionView::fresh(client.child_side, client.server_side, true),
                        ),
                        ..self
                    },
                    LoopAction::Accept,
                ),
                Err(IoError::WouldBlock) => (
                    LoopView {
                        connections: self.connections.push(
                            ConnectionView::fresh(client.child_side, client.server_side, false),
                        ),
                        ..self
                    },
                    LoopAction::Accept,
                ),
                Err(error) => (
                    self,
                    LoopAction::Fatal(Fault::Io { during: Operation::Connect, error }),
                ),
            },
            Err(IoError::WouldBlock) => self.serve(0),
            Err(error) => (self, LoopAction::Fatal(Fault::Io { during: Operation::Accept, error })),
        }
    }

    /// The loop after a look at the child: it ends when the child has exited
    /// and no connection is left, and waits again otherwise.
    pub open spec fn checked(self, exited: bool) -> (Self, LoopAction) {
        if exited && self.connections.len() == 0 {
            (LoopView { phase: Phase::Finished, ..self }, LoopAction::Exit)
        } else {
            (LoopView { phase: Phase::Waiting, ..self }, wait())
        }
    }

    /// The loop and the action that follow from a loop and an event.
    pub open spec fn step(self, event: LoopEvent<Fd>) -> (Self, LoopAction) {
        match (self.phase, event) {
            (Phase::Waiting, LoopEvent::Waited(outcome)) => self.waited(outcome),
            (Phase::Accepting, LoopEvent::Accepted(outcome)) => self.accepted(outcome),
            (Phase::Serving, LoopEvent::Received(outcome)) => self.served(Event::Received(outcome)),
            (Phase::Serving, LoopEvent::Sent(outcome)) => self.served(Event::Sent(outcome)),
            (Phase::Checking, LoopEvent::ChildChecked { exited }) => self.checked(exited),
            _ => (self, LoopAction::Fatal(Fault::OutOfTurn)),
        }
    }
}

/// The relay's event loop without its system calls: the table of
/// connections, and how far the current iteration has come.
#[derive(Debug)]
pub struct EventLoop<Fd> {
    connections: Vec<ProxiedConnection<Fd>>,
    phase: Phase,
    ready: Vec<(Readiness, Readiness)>,
    cursor: usize,
}

impl<Fd> View for EventLoop<Fd> {
    type V = LoopView<Fd>;

    closed spec fn view(&self) -> LoopView<Fd> {
        LoopView {
            connections: connections_of(self.connections@),
            phase: self.phase,
            ready: self.ready@,
            cursor: self.cursor as nat,
        }
    }
}

impl<Fd> EventLoop<Fd> {
    /// What a loop asks for before anything has happened, and at the start
    /// of every iteration: a wait of thirty seconds at most.
    pub fn first_action() -> (action: LoopAction)
        ensures
            action == wait(),
    {
        LoopAction::Wait { timeout_millis: WAIT_TIMEOUT_MILLIS }
    }

    /// What a readiness wait watches the listening socket for: clients to
    /// accept, always.
    pub fn listener_interest() -> (interest: Interest)
        ensures
            interest == (Interest { read: true, write: false }),
    {
        Interest { read: true, write: false }
    }

    /// A loop with an empty table. The first thing to do is to wait.
    pub fn new() -> (event_loop: Self)
        ensures
            event_loop@ == LoopView::<Fd>::initial(),
            orderly(event_loop@),
    {
        let event_loop = EventLoop {
            connections: Vec::new(),
            phase: Phase::Waiting,
            ready: Vec::new(),
            cursor: 0,
        };
        assert(connections_of(event_loop.connections@) =~= Seq::empty());
        event_loop
    }

    /// The number of connections in the table.
    pub fn len(&self) -> (n: usize)
        ensures
            n == self@.connections.len(),
    {
        self.connections.len()
    }

    /// Whether the table is empty.
    pub fn is_empty(&self) -> (empty: bool)
        ensures
            empty == (self@.connections.len() == 0),
    {
        self.connections.len() == 0
    }

    /// What the loop is waiting to be told.
    pub fn phase(&self) -> (phase: Phase)
        ensures
            phase == self@.phase,
    {
        self.phase
    }

    /// A connection of the table.
    pub fn connection(&self, index: usize) -> (conn: Option<&ProxiedConnection<Fd>>)
        ensures
            conn is Some <==> index < self@.connections.len(),
            conn matches Some(c) ==> c@ == self@.connections[index as int],
    {
        if index < self.connections.len() {
            Some(&self.connections[index])
        } else {
            None
        }
    }

    /// An endpoint of a connection of the table, while it is open.
    pub fn socket(&self, connection: usize, side: Side) -> (socket: Option<&Fd>)
        ensures
            socket is Some <==> connection < self@.connections.len()
                && self@.connections[connection as int].socket(side) is Some,
            socket matches Some(fd) ==> self@.connections[connection as int].socket(side) == Some(
                *fd,
            ),
    {
        if connection < self.connections.len() {
            self.connections[connection].socket(side)
        } else {
            None
        }
    }

    /// The message that a send on a connection of the table has to carry.
    pub fn in_flight(&self, connection: usize) -> (msg: Option<&BufferedMessage<Fd>>)
        ensures
            msg is Some <==> connection < self@.connections.len()
                && self@.connections[connection as int].in_flight is Some,
            msg matches Some(m) ==> self@.connections[connection as int].in_flight == Some(m@),
    {
        if connection < self.connections.len() {
            self.connections[connection].in_flight()
        } else {
            None
        }
    }

    /// What the next readiness wait watches the server side and the child
    /// side of each connection for, in the order of the table. The listening
    /// socket is always watched for clients to accept.
    pub fn interests(&self) -> (interests: Vec<(Interest, Interest)>)
        ensures
            interests@.len() == self@.connections.len(),
            forall|i: int|
                0 <= i < interests@.len() ==> interests@[i]
                    == #[trigger] self@.connections[i].interest(),
    {
        let mut interests: Vec<(Interest, Interest)> = Vec::new();
        let mut i: usize = 0;
        while i < self.connections.len()
            invariant
                i <= self.connections@.len(),
                interests@.len() == i,
                forall|j: int|
                    0 <= j < i ==> interests@[j] == #[trigger] connections_of(
                        self.connections@,
                    )[j].interest(),
            decreases self.connections@.len() - i,
        {
            interests.push(self.connections[i].interest());
            i += 1;
        }
        interests
    }

    fn prune(&mut self)
        ensures
            final(self)@ == (LoopView {
                connections: old(self)@.connections.filter(is_live()),
                ..old(self)@
            }),
    {
        let ghost all = connections_of(self.connections@);
        let mut i: usize = 0;
        let ghost mut seen: int = 0;
        proof {
            reveal(Seq::filter);
        }
        while i < self.connections.len()
            invariant
                self.phase == old(self).phase,
                self.ready == old(self).ready,
                self.cursor == old(self).cursor,
                all == connections_of(old(self).connections@),
                i <= self.connections@.len(),
                0 <= seen <= all.len(),
                self.connections@.len() - i == all.len() - seen,
                connections_of(self.connections@).take(i as int) == all.take(seen).filter(
                    is_live(),
                ),
                connections_of(self.connections@).skip(i as int) == all.skip(seen),
            decreases self.connections@.len() - i,
        {
            let live = self.connections[i].is_live();
            proof {
                reveal(Seq::filter);
                assert(all[seen] == all.skip(seen)[0]);
                assert(all.take(seen + 1).drop_last() =~= all.take(seen));
                assert(all.skip(seen + 1) =~= all.skip(seen).skip(1));
            }
            if live {
                i += 1;
            } else {
                self.connections.remove(i);
            }
            proof {
                seen = seen + 1;
            }
        }
        proof {
            assert(all.take(all.len() as int) =~= all);
            assert(connections_of(self.connections@).take(i as int) =~= connections_of(
                self.connections@,
            ));
        }
    }

    fn settle(&mut self, action: Action) -> (next: LoopAction)
        ensures
            (final(self)@, next) == old(self)@.settle(action),
    {
        match action {
            Action::Receive(side) => LoopAction::Receive { connection: self.cursor, side },
            Action::Send(side) => LoopAction::Send { connection: self.cursor, side },
            Action::Fatal(fault) => LoopAction::Fatal(fault),
            Action::Done => {
                if self.cursor < self.ready.len() {
                    self.serve(self.cursor + 1)
                } else {
                    LoopAction::Fatal(Fault::OutOfTurn)
                }
            },
        }
    }

    fn serve(&mut self, from: usize) -> (next: LoopAction)
        ensures
            (final(self)@, next) == old(self)@.serve(from as nat),
    {
        let mut i: usize = from;
        loop
            invariant
                self@.serve(i as nat) == old(self)@.serve(from as nat),
            decreases self.ready@.len() - i,
        {
            if i >= self.ready.len() || i >= self.connections.len() {
                self.prune();
                self.phase = Phase::Checking;
                self.cursor = 0;
                return LoopAction::CheckChild;
            }
            let ghost before = self@;
            let (server, child) = self.ready[i];
            let action = self.connections[i].step(Event::Polled { server, child });
            self.phase = Phase::Serving;
            self.cursor = i;
            proof {
                assert(self@.connections =~= before.connections.update(
                    i as int,
                    self.connections@[i as int]@,
                ));
            }
            match action {
                Action::Receive(side) => {
                    return LoopAction::Receive { connection: i, side };
                },
                Action::Send(side) => {
                    return LoopAction::Send { connection: i, side };
                },
                Action::Fatal(fault) => {
                    return LoopAction::Fatal(fault);
                },
                Action::Done => {
                    i += 1;
                },
            }
        }
    }

    fn served(&mut self, event: Event<Fd>) -> (next: LoopAction)
        ensures
            (final(self)@, next) == old(self)@.served(event),
    {
        if self.cursor < self.connections.len() && self.cursor < self.ready.len() {
            let ghost before = self@;
            let action = self.connections[self.cursor].step(event);
            proof {
                assert(self@.connections =~= before.connections.update(
                    self.cursor as int,
                    self.connections@[self.cursor as int]@,
                ));
            }
            self.settle(action)
        } else {
            LoopAction::Fatal(Fault::OutOfTurn)
        }
    }

    fn join(&mut self, child_side: Fd, server_side: Fd, server_connected: bool)
        ensures
            final(self)@ == (LoopView {
                connections: old(self)@.connections.push(
                    ConnectionView::fresh(child_side, server_side, server_connected),
                ),
                ..old(self)@
            }),
    {
        let conn = ProxiedConnection::new(child_side, server_side, server_connected);
        proof {
            assert(connections_of(self.connections@.push(conn)) =~= connections_of(
                self.connections@,
            ).push(conn@));
        }
        self.connections.push(conn);
    }

    /// Takes the loop from one system call to the next: given what happened,
    /// it updates the table and says what to do now. An orderly loop stays
    /// orderly and asks well, unless it asks the process to stop.
    pub fn step(&mut self, event: LoopEvent<Fd>) -> (next: LoopAction)
        ensures
            (final(self)@, next) == old(self)@.step(event),
            orderly(old(self)@) ==> next is Fatal || (orderly(final(self)@) && well_asked(
                final(self)@,
                next,
            )),
    {
        proof {
            if orderly(self@) {
                lemma_step_orderly(self@, event);
            }
        }
        self.advance(event)
    }

    fn advance(&mut self, event: LoopEvent<Fd>) -> (next: LoopAction)
        ensures
            (final(self)@, next) == old(self)@.step(event),
    {
        match (self.phase, event) {
            (Phase::Waiting, LoopEvent::Waited(outcome)) => match outcome {
                Ok(reports) => {
                    if reports.connections.len() != self.connections.len() {
                        LoopAction::Fatal(Fault::OutOfTurn)
                    } else {
                        let readable = reports.listener.readable;
                        self.ready = reports.connections;
                        if readable {
                            self.phase = Phase::Accepting;
                            LoopAction::Accept
                        } else {
                            self.serve(0)
                        }
                    }
                },
                Err(IoError::Interrupted) => Self::first_action(),
                Err(error) => LoopAction::Fatal(Fault::Io { during: Operation::Wait, error }),
            },
            (Phase::Accepting, LoopEvent::Accepted(outcome)) => match outcome {
                Ok(client) => match client.connect {
                    Ok(_) => {
                        self.join(client.child_side, client.server_side, true);
                        LoopAction::Accept
                    },
                    Err(IoError::WouldBlock) => {
                        self.join(client.child_side, client.server_side, false);
                        LoopAction::Accept
                    },
                    Err(error) => LoopAction::Fatal(
                        Fault::Io { during: Operation::Connect, error },
                    ),
                },
                Err(IoError::WouldBlock) => self.serve(0),
                Err(error) => LoopAction::Fatal(Fault::Io { during: Operation::Accept, error }),
            },
            (Phase::Serving, LoopEvent::Received(outcome)) => self.served(Event::Received(outcome)),
            (Phase::Serving, LoopEvent::Sent(outcome)) => self.served(Event::Sent(outcome)),
            (Phase::Checking, LoopEvent::ChildChecked { exited }) => {
                if exited && self.connections.len() == 0 {
                    self.phase = Phase::Finished;
                    LoopAction::Exit
                } else {
                    self.phase = Phase::Waiting;
                    Self::first_action()
                }
            },
            _ => LoopAction::Fatal(Fault::OutOfTurn),
        }
    }
}

} // verus!
