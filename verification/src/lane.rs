//! One direction of a connection, as the relay and the drain see it.

use crate::io::Fault;
use crate::message::{views_of, BufferedMessage, MessageView};
use vstd::prelude::*;

verus! {

/// What the caller has to do next for the direction that is being served.
#[derive(Clone, Copy, PartialEq, Eq, Debug)]
pub enum Step {
    /// Receive once from the source endpoint and report the outcome.
    Receive,
    /// Send the message in flight once to the sink endpoint and report the
    /// outcome.
    Send,
    /// Nothing more for now.
    Done,
    /// Stop the process.
    Fatal(Fault),
}

/// One direction of a connection: the endpoint that data comes from, the one
/// that it goes to, the messages that wait for the sink, and the message that
/// has been handed to a send whose outcome is not yet known.
pub struct Lane<Fd> {
    pub from: Option<Fd>,
    pub to: Option<Fd>,
    pub queued: Seq<MessageView<Fd>>,
    pub in_flight: Option<MessageView<Fd>>,
}

impl<Fd> Lane<Fd> {
    /// The lane with both endpoints closed.
    pub open spec fn closed(self) -> Lane<Fd> {
        Lane { from: None, to: None, ..self }
    }

    /// The lane with nothing in flight.
    pub open spec fn settled(self) -> Lane<Fd> {
        Lane { in_flight: None, ..self }
    }

    /// Whether both endpoints are open.
    pub open spec fn live(self) -> bool {
        self.from is Some && self.to is Some
    }
}

/// The view of a message that may be absent.
pub open spec fn view_of<Fd>(m: Option<BufferedMessage<Fd>>) -> Option<MessageView<Fd>> {
    match m {
        Some(m) => Some(m@),
        None => None,
    }
}

/// The lane that four pieces of a connection make up.
pub open spec fn lane_of<Fd>(
    from: Option<Fd>,
    to: Option<Fd>,
    queued: Seq<BufferedMessage<Fd>>,
    in_flight: Option<BufferedMessage<Fd>>,
) -> Lane<Fd> {
    Lane { from, to, queued: views_of(queued), in_flight: view_of(in_flight) }
}

} // verus!
