//! A proxied connection and the turn that it takes in every iteration of the
//! event loop.

use crate::drain::{drain, drain_queue, DrainEvent};
use crate::io::{Fault, Interest, IoError, Readiness, Side};
use crate::lane::{view_of, Lane, Step};
use crate::message::{views_of, BufferedMessage, MessageView};
use crate::relay::{relay, transfer_or_queue, RelayEvent};
use crate::stream::{consistent, lemma_step_consistent};
use std::collections::VecDeque;
use vstd::prelude::*;

verus! {

/// Where a connection stands within the work of one turn. A turn serves the
/// four stages in the order in which they are listed, then the connection is
/// idle until the next readiness wait.
#[derive(Clone, Copy, PartialEq, Eq, Debug)]
pub enum Stage {
    /// No turn is under way.
    Idle,
    /// Data is moved from the server side toward the child side.
    RelayFromServer,
    /// Data is moved from the child side toward the server side.
    RelayFromChild,
    /// What is queued toward the server side is delivered.
    DrainToServer,
    /// What is queued toward the child side is delivered.
    DrainToChild,
}

impl Stage {
    /// The stage that follows this one.
    pub open spec fn next(self) -> Stage {
        match self {
            Stage::RelayFromServer => Stage::RelayFromChild,
            Stage::RelayFromChild => Stage::DrainToServer,
            Stage::DrainToServer => Stage::DrainToChild,
            Stage::DrainToChild => Stage::Idle,
            Stage::Idle => Stage::Idle,
        }
    }

    /// The number of stages of the turn that are not yet finished.
    pub open spec fn remaining(self) -> nat {
        match self {
            Stage::RelayFromServer => 4,
            Stage::RelayFromChild => 3,
            Stage::DrainToServer => 2,
            Stage::DrainToChild => 1,
            Stage::Idle => 0,
        }
    }

    /// Whether the stage reads from an endpoint.
    pub open spec fn relays(self) -> bool {
        self is RelayFromServer || self is RelayFromChild
    }

    /// Whether the stage delivers a queue.
    pub open spec fn drains(self) -> bool {
        self is DrainToServer || self is DrainToChild
    }

    /// The endpoint that the data of this stage goes to.
    pub open spec fn toward(self) -> Side {
        match self {
            Stage::RelayFromChild | Stage::DrainToServer => Side::Server,
            _ => Side::Child,
        }
    }

    fn following(self) -> (stage: Stage)
        ensures
            stage == self.next(),
    {
        match self {
            Stage::RelayFromServer => Stage::RelayFromChild,
            Stage::RelayFromChild => Stage::DrainToServer,
            Stage::DrainToServer => Stage::DrainToChild,
            Stage::DrainToChild => Stage::Idle,
            Stage::Idle => Stage::Idle,
        }
    }

    fn sink(self) -> (side: Side)
        ensures
            side == self.toward(),
    {
        match self {
            Stage::RelayFromChild | Stage::DrainToServer => Side::Server,
            _ => Side::Child,
        }
    }
}

/// What happened since a connection last said what to do.
#[derive(Debug)]
pub enum Event<Fd> {
    /// A readiness wait ended with these reports for the two endpoints.
    Polled { server: Readiness, child: Readiness },
    /// The outcome of the receive that was asked for.
    Received(Result<BufferedMessage<Fd>, IoError>),
    /// The outcome of the send that was asked for.
    Sent(Result<usize, IoError>),
}

/// The system call that a connection asks for next.
#[derive(Clone, Copy, PartialEq, Eq, Debug)]
pub enum Action {
    /// Receive once from this endpoint and report the outcome.
    Receive(Side),
    /// Send the message in flight once to this endpoint and report the
    /// outcome.
    Send(Side),
    /// The turn is over.
    Done,
    /// Stop the process.
    Fatal(Fault),
}

/// The three states that a connection passes through, in this order.
#[derive(Clone, Copy, PartialEq, Eq, Debug)]
pub enum ConnectionState {
    /// Both endpoints are open and the connect to the real socket has not
    /// completed.
    Connecting,
    /// Both endpoints are open and connected.
    Active,
    /// An endpoint is closed: the connection waits to be removed.
    Closing,
}

/// A connection as a mathematical value.
pub struct ConnectionView<Fd> {
    pub child_side: Option<Fd>,
    pub server_side: Option<Fd>,
    pub server_connected: bool,
    pub to_server: Seq<MessageView<Fd>>,
    pub to_child: Seq<MessageView<Fd>>,
    pub in_flight: Option<MessageView<Fd>>,
    pub stage: Stage,
    pub server_ready: Readiness,
    pub child_ready: Readiness,
}

impl<Fd> ConnectionView<Fd> {
    /// A connection as it is accepted: both endpoints open, nothing queued,
    /// no turn under way.
    pub open spec fn fresh(child_side: Fd, server_side: Fd, server_connected: bool) -> Self {
        ConnectionView {
            child_side: Some(child_side),
            server_side: Some(server_side),
            server_connected,
            to_server: Seq::empty(),
            to_child: Seq::empty(),
            in_flight: None,
            stage: Stage::Idle,
            server_ready: Readiness {
                readable: false,
                writable: false,
                hangup: false,
                error: false,
            },
            child_ready: Readiness {
                readable: false,
                writable: false,
                hangup: false,
                error: false,
            },
        }
    }

    /// A connection is live while both of its endpoints are open.
    pub open spec fn live(self) -> bool {
        self.child_side is Some && self.server_side is Some
    }

    /// The connection with both endpoints closed.
    pub open spec fn closed(self) -> Self {
        ConnectionView { child_side: None, server_side: None, ..self }
    }

    /// The state of the connection.
    pub open spec fn state(self) -> ConnectionState {
        if !self.live() {
            ConnectionState::Closing
        } else if self.server_connected {
            ConnectionState::Active
        } else {
            ConnectionState::Connecting
        }
    }

    /// What the next readiness wait watches the server side and the child
    /// side for: always for data to read; for room to write on the server
    /// side while the connect is not complete or something is queued toward
    /// it, on the child side while something is queued toward it.
    pub open spec fn interest(self) -> (Interest, Interest) {
        (
            Interest { read: true, write: !self.server_connected || self.to_server.len() > 0 },
            Interest { read: true, write: self.to_child.len() > 0 },
        )
    }

    /// The messages that wait for an endpoint.
    pub open spec fn queued(self, toward: Side) -> Seq<MessageView<Fd>> {
        match toward {
            Side::Server => self.to_server,
            Side::Child => self.to_child,
        }
    }

    /// An endpoint of the connection.
    pub open spec fn socket(self, side: Side) -> Option<Fd> {
        match side {
            Side::Server => self.server_side,
            Side::Child => self.child_side,
        }
    }

    /// What an endpoint reported at the last readiness wait.
    pub open spec fn ready(self, side: Side) -> Readiness {
        match side {
            Side::Server => self.server_ready,
            Side::Child => self.child_ready,
        }
    }

    /// The direction that a stage works on.
    pub open spec fn lane(self, stage: Stage) -> Lane<Fd> {
        match stage.toward() {
            Side::Server => Lane {
                from: self.child_side,
                to: self.server_side,
                queued: self.to_server,
                in_flight: self.in_flight,
            },
            Side::Child => Lane {
                from: self.server_side,
                to: self.child_side,
                queued: self.to_child,
                in_flight: self.in_flight,
            },
        }
    }

    /// The connection after a stage has worked on its direction.
    pub open spec fn with_lane(self, stage: Stage, lane: Lane<Fd>) -> Self {
        match stage.toward() {
            Side::Server => ConnectionView {
                child_side: lane.from,
                server_side: lane.to,
                to_server: lane.queued,
                in_flight: lane.in_flight,
                ..self
            },
            Side::Child => ConnectionView {
                server_side: lane.from,
                child_side: lane.to,
                to_child: lane.queued,
                in_flight: lane.in_flight,
                ..self
            },
        }
    }

    /// What taking up a stage does to its direction: a relay begins if the
    /// source reported data to read, a drain if the sink reported room to
    /// write.
    pub open spec fn open_stage(self, stage: Stage) -> (Lane<Fd>, Step) {
        if stage.relays() {
            relay(
                self.lane(stage),
                RelayEvent::Begin { readable: self.ready(stage.toward().peer()).readable },
            )
        } else {
            drain(
                self.lane(stage),
                DrainEvent::Begin { writable: self.ready(stage.toward()).writable },
            )
        }
    }

    /// What follows from the step that the current stage arrived at: a system
    /// call on one endpoint, or, when the stage is done, the next stage.
    pub open spec fn proceed(self, step: Step) -> (Self, Action)
        decreases self.stage.remaining(), 0nat,
    {
        match step {
            Step::Receive => (self, Action::Receive(self.stage.toward().peer())),
            Step::Send => (self, Action::Send(self.stage.toward())),
            Step::Fatal(fault) => (self, Action::Fatal(fault)),
            Step::Done => {
                if self.stage is Idle {
                    (self, Action::Done)
                } else {
                    self.begin(self.stage.next())
                }
            },
        }
    }

    /// The connection takes up a stage of its turn.
    pub open spec fn begin(self, stage: Stage) -> (Self, Action)
        decreases stage.remaining(), 1nat,
    {
        if stage is Idle {
            (ConnectionView { stage: Stage::Idle, ..self }, Action::Done)
        } else {
            let (lane, step) = self.open_stage(stage);
            (ConnectionView { stage, ..self.with_lane(stage, lane) }).proceed(step)
        }
    }

    /// The connection after a readiness wait. An error or a hangup on either
    /// endpoint closes both. Room to write on the server side completes a
    /// pending connect. A connected connection then starts its turn; one that
    /// is still connecting does nothing.
    pub open spec fn polled(self, server: Readiness, child: Readiness) -> (Self, Action) {
        if !(self.stage is Idle) {
            (self, Action::Fatal(Fault::OutOfTurn))
        } else if server.failed() || child.failed() {
            (self.closed(), Action::Done)
        } else {
            let noted = ConnectionView {
                server_connected: self.server_connected || server.writable,
                server_ready: server,
                child_ready: child,
                ..self
            };
            if noted.server_connected {
                noted.begin(Stage::RelayFromServer)
            } else {
                (noted, Action::Done)
            }
        }
    }

    /// The connection and the action that follow from a connection and an
    /// event.
    pub open spec fn step(self, event: Event<Fd>) -> (Self, Action) {
        match event {
            Event::Polled { server, child } => self.polled(server, child),
            Event::Received(outcome) => {
                if self.stage.relays() {
                    let (lane, step) = relay(self.lane(self.stage), RelayEvent::Received(outcome));
                    self.with_lane(self.stage, lane).proceed(step)
                } else {
                    (self, Action::Fatal(Fault::OutOfTurn))
                }
            },
            Event::Sent(outcome) => {
                if self.stage.relays() {
                    let (lane, step) = relay(self.lane(self.stage), RelayEvent::Sent(outcome));
                    self.with_lane(self.stage, lane).proceed(step)
                } else if self.stage.drains() {
                    let (lane, step) = drain(self.lane(self.stage), DrainEvent::Sent(outcome));
                    self.with_lane(self.stage, lane).proceed(step)
                } else {
                    (self, Action::Fatal(Fault::OutOfTurn))
                }
            },
        }
    }
}

/// One accepted client connection and its counterpart to the real socket:
/// the two endpoints, whether the counterpart is connected, one queue for
/// each direction, and how far the current turn has come.
#[derive(Debug)]
pub struct ProxiedConnection<Fd> {
    child_side: Option<Fd>,
    server_side: Option<Fd>,
    server_connected: bool,
    to_server: VecDeque<BufferedMessage<Fd>>,
    to_child: VecDeque<BufferedMessage<Fd>>,
    in_flight: Option<BufferedMessage<Fd>>,
    stage: Stage,
    server_ready: Readiness,
    child_ready: Readiness,
}

impl<Fd> View for ProxiedConnection<Fd> {
    type V = ConnectionView<Fd>;

    closed spec fn view(&self) -> ConnectionView<Fd> {
        ConnectionView {
            child_side: self.child_side,
            server_side: self.server_side,
            server_connected: self.server_connected,
            to_server: views_of(self.to_server@),
            to_child: views_of(self.to_child@),
            in_flight: view_of(self.in_flight),
            stage: self.stage,
            server_ready: self.server_ready,
            child_ready: self.child_ready,
        }
    }
}

impl<Fd> ProxiedConnection<Fd> {
    /// The connection for a client that was just accepted on `child_side`,
    /// with `server_side` as its counterpart; `server_connected` says whether
    /// the connect to the real socket has completed.
    pub fn new(child_side: Fd, server_side: Fd, server_connected: bool) -> (conn: Self)
        ensures
            conn@ == ConnectionView::fresh(child_side, server_side, server_connected),
            consistent(conn@),
    {
        let conn = ProxiedConnection {
            child_side: Some(child_side),
            server_side: Some(server_side),
            server_connected,
            to_server: VecDeque::new(),
            to_child: VecDeque::new(),
            in_flight: None,
            stage: Stage::Idle,
            server_ready: Readiness::quiet(),
            child_ready: Readiness::quiet(),
        };
        assert(views_of(conn.to_child@) =~= Seq::empty());
        conn
    }

    /// Whether both endpoints are open.
    pub fn is_live(&self) -> (live: bool)
        ensures
            live == self@.live(),
    {
        self.child_side.is_some() && self.server_side.is_some()
    }

    /// The state of the connection.
    pub fn state(&self) -> (state: ConnectionState)
        ensures
            state == self@.state(),
    {
        if !self.is_live() {
            ConnectionState::Closing
        } else if self.server_connected {
            ConnectionState::Active
        } else {
            ConnectionState::Connecting
        }
    }

    /// Whether the connect to the real socket has completed.
    pub fn is_server_connected(&self) -> (connected: bool)
        ensures
            connected == self@.server_connected,
    {
        self.server_connected
    }

    /// The stage of the turn that the connection is in.
    pub fn stage(&self) -> (stage: Stage)
        ensures
            stage == self@.stage,
    {
        self.stage
    }

    /// What the next readiness wait watches the server side and the child
    /// side for.
    pub fn interest(&self) -> (interest: (Interest, Interest))
        ensures
            interest == self@.interest(),
    {
        (
            Interest { read: true, write: !self.server_connected || self.to_server.len() > 0 },
            Interest { read: true, write: self.to_child.len() > 0 },
        )
    }

    /// An endpoint of the connection, while it is open.
    pub fn socket(&self, side: Side) -> (socket: Option<&Fd>)
        ensures
            socket matches Some(fd) ==> self@.socket(side) == Some(*fd),
            socket is None ==> self@.socket(side) is None,
    {
        match side {
            Side::Server => self.server_side.as_ref(),
            Side::Child => self.child_side.as_ref(),
        }
    }

    /// The message that the send asked for has to carry.
    pub fn in_flight(&self) -> (msg: Option<&BufferedMessage<Fd>>)
        ensures
            msg matches Some(m) ==> self@.in_flight == Some(m@),
            msg is None ==> self@.in_flight is None,
    {
        self.in_flight.as_ref()
    }

    /// The messages that wait for an endpoint, front first.
    pub fn queued(&self, toward: Side) -> (queue: &VecDeque<BufferedMessage<Fd>>)
        ensures
            views_of(queue@) == self@.queued(toward),
    {
        match toward {
            Side::Server => &self.to_server,
            Side::Child => &self.to_child,
        }
    }

    fn close(&mut self)
        ensures
            final(self)@ == old(self)@.closed(),
    {
        self.child_side = None;
        self.server_side = None;
    }

    fn open_stage(&mut self, stage: Stage) -> (step: Step)
        requires
            !(stage is Idle),
        ensures
            final(self)@.stage == old(self)@.stage,
            (final(self)@.lane(stage), step) == old(self)@.open_stage(stage),
            final(self)@ == old(self)@.with_lane(stage, final(self)@.lane(stage)),
    {
        match stage {
            Stage::RelayFromServer => transfer_or_queue(
                &mut self.server_side,
                &mut self.child_side,
                &mut self.to_child,
                &mut self.in_flight,
                RelayEvent::Begin { readable: self.server_ready.readable },
            ),
            Stage::RelayFromChild => transfer_or_queue(
                &mut self.child_side,
                &mut self.server_side,
                &mut self.to_server,
                &mut self.in_flight,
                RelayEvent::Begin { readable: self.child_ready.readable },
            ),
            Stage::DrainToServer => drain_queue(
                &mut self.child_side,
                &mut self.server_side,
                &mut self.to_server,
                &mut self.in_flight,
                DrainEvent::Begin { writable: self.server_ready.writable },
            ),
            _ => drain_queue(
                &mut self.server_side,
                &mut self.child_side,
                &mut self.to_child,
                &mut self.in_flight,
                DrainEvent::Begin { writable: self.child_ready.writable },
            ),
        }
    }

    fn proceed(&mut self, step: Step) -> (action: Action)
        ensures
            (final(self)@, action) == old(self)@.proceed(step),
        decreases old(self)@.stage.remaining(), 0nat,
    {
        match step {
            Step::Receive => match self.stage.sink() {
                Side::Server => Action::Receive(Side::Child),
                Side::Child => Action::Receive(Side::Server),
            },
            Step::Send => Action::Send(self.stage.sink()),
            Step::Fatal(fault) => Action::Fatal(fault),
            Step::Done => match self.stage {
                Stage::Idle => Action::Done,
                stage => self.begin(stage.following()),
            },
        }
    }

    fn begin(&mut self, stage: Stage) -> (action: Action)
        ensures
            (final(self)@, action) == old(self)@.begin(stage),
        decreases stage.remaining(), 1nat,
    {
        match stage {
            Stage::Idle => {
                self.stage = Stage::Idle;
                Action::Done
            },
            stage => {
                let step = self.open_stage(stage);
                self.stage = stage;
                self.proceed(step)
            },
        }
    }

    /// Takes the connection from one system call to the next: given what
    /// happened, it updates the connection and says what to do now. A
    /// connection that is consistent stays so.
    pub fn step(&mut self, event: Event<Fd>) -> (action: Action)
        ensures
            (final(self)@, action) == old(self)@.step(event),
            consistent(old(self)@) ==> consistent(final(self)@),
    {
        proof {
            if consistent(self@) {
                lemma_step_consistent(self@, event);
            }
        }
        self.advance(event)
    }

    fn advance(&mut self, event: Event<Fd>) -> (action: Action)
        ensures
            (final(self)@, action) == old(self)@.step(event),
    {
        match event {
            Event::Polled { server, child } => {
                match self.stage {
                    Stage::Idle => {},
                    _ => {
                        return Action::Fatal(Fault::OutOfTurn);
                    },
                }
                if server.has_failed() || child.has_failed() {
                    self.close();
                    return Action::Done;
                }
                if server.writable {
                    self.server_connected = true;
                }
                self.server_ready = server;
                self.child_ready = child;
                if self.server_connected {
                    self.begin(Stage::RelayFromServer)
                } else {
                    Action::Done
                }
            },
            Event::Received(outcome) => {
                let step = match self.stage {
                    Stage::RelayFromServer => transfer_or_queue(
                        &mut self.server_side,
                        &mut self.child_side,
                        &mut self.to_child,
                        &mut self.in_flight,
                        RelayEvent::Received(outcome),
                    ),
                    Stage::RelayFromChild => transfer_or_queue(
                        &mut self.child_side,
                        &mut self.server_side,
                        &mut self.to_server,
                        &mut self.in_flight,
                        RelayEvent::Received(outcome),
                    ),
                    _ => {
                        return Action::Fatal(Fault::OutOfTurn);
                    },
                };
                self.proceed(step)
            },
            Event::Sent(outcome) => {
                let step = match self.stage {
                    Stage::RelayFromServer => transfer_or_queue(
                        &mut self.server_side,
                        &mut self.child_side,
                        &mut self.to_child,
                        &mut self.in_flight,
                        RelayEvent::Sent(outcome),
                    ),
                    Stage::RelayFromChild => transfer_or_queue(
                        &mut self.child_side,
                        &mut self.server_side,
                        &mut self.to_server,
                        &mut self.in_flight,
                        RelayEvent::Sent(outcome),
                    ),
                    Stage::DrainToServer => drain_queue(
                        &mut self.child_side,
                        &mut self.server_side,
                        &mut self.to_server,
                        &mut self.in_flight,
                        DrainEvent::Sent(outcome),
                    ),
                    Stage::DrainToChild => drain_queue(
                        &mut self.server_side,
                        &mut self.child_side,
                        &mut self.to_child,
                        &mut self.in_flight,
                        DrainEvent::Sent(outcome),
                    ),
                    Stage::Idle => {
                        return Action::Fatal(Fault::OutOfTurn);
                    },
                };
                self.proceed(step)
            },
        }
    }
}

} // verus!
