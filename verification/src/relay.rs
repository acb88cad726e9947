//! Forward or queue: what is read from one endpoint is sent to the other at
//! once, and queued only if the other does not take it. Nothing is read
//! while something is queued.

use crate::io::{Fault, IoError, Operation};
use crate::lane::{lane_of, Lane, Step};
use crate::message::{views_of, BufferedMessage};
use std::collections::VecDeque;
use vstd::prelude::*;

verus! {

/// What happened since the relay of one direction last said what to do.
#[derive(Debug)]
pub enum RelayEvent<Fd> {
    /// The direction is taken up; `readable` says whether the source endpoint
    /// reported data to read.
    Begin { readable: bool },
    /// The outcome of the receive that was asked for: the bytes and
    /// descriptors of one read, or the error.
    Received(Result<BufferedMessage<Fd>, IoError>),
    /// The outcome of the send that was asked for: the number of bytes that
    /// the sink accepted, or the error.
    Sent(Result<usize, IoError>),
}

/// Reading goes on as long as both endpoints are open.
pub open spec fn relay_resume<Fd>(lane: Lane<Fd>) -> (Lane<Fd>, Step) {
    if lane.live() {
        (lane, Step::Receive)
    } else {
        (lane, Step::Done)
    }
}

/// The relay of one direction: the lane and the step that follow from a lane
/// and an event.
///
/// Nothing is received or sent on a lane with a closed endpoint, and nothing
/// is read while something is queued toward the sink: what was read earlier
/// reaches the sink first. A read of no bytes and a reset end the
/// connection. A read that would block ends the relay for now. What was read
/// is sent at once; only what the sink does not take is queued, and then
/// nothing more is read until the drain has delivered it. The descriptors of
/// a message go with its first bytes, so what is left of a message after a
/// partial send carries none. A send that reports at least as many bytes as
/// it was offered took the whole message.
pub open spec fn relay<Fd>(lane: Lane<Fd>, event: RelayEvent<Fd>) -> (Lane<Fd>, Step) {
    match event {
        RelayEvent::Begin { readable } => {
            if lane.in_flight is Some {
                (lane, Step::Fatal(Fault::OutOfTurn))
            } else if readable && lane.queued.len() == 0 {
                relay_resume(lane)
            } else {
                (lane, Step::Done)
            }
        },
        RelayEvent::Received(outcome) => {
            if lane.in_flight is Some || !lane.live() || lane.queued.len() > 0 {
                (lane, Step::Fatal(Fault::OutOfTurn))
            } else {
                match outcome {
                    Ok(chunk) => {
                        if chunk@.bytes.len() == 0 {
                            (lane.closed(), Step::Done)
                        } else {
                            (Lane { in_flight: Some(chunk@), ..lane }, Step::Send)
                        }
                    },
                    Err(IoError::ConnectionReset) => (lane.closed(), Step::Done),
                    Err(IoError::WouldBlock) => (lane, Step::Done),
                    Err(error) => (
                        lane,
                        Step::Fatal(Fault::Io { during: Operation::Receive, error }),
                    ),
                }
            }
        },
        RelayEvent::Sent(outcome) => {
            match lane.in_flight {
                None => (lane, Step::Fatal(Fault::OutOfTurn)),
                Some(msg) => if !lane.live() || lane.queued.len() > 0 {
                    (lane, Step::Fatal(Fault::OutOfTurn))
                } else {
                    match outcome {
                        Ok(sent) => {
                            if sent == 0 {
                                (lane.settled().closed(), Step::Done)
                            } else if sent >= msg.bytes.len() {
                                relay_resume(lane.settled())
                            } else {
                                (
                                    Lane {
                                        queued: lane.queued.push(msg.remainder(sent as int)),
                                        ..lane.settled()
                                    },
                                    Step::Done,
                                )
                            }
                        },
                        Err(IoError::ConnectionReset) => (lane.settled().closed(), Step::Done),
                        Err(IoError::WouldBlock) => (
                            Lane { queued: lane.queued.push(msg), ..lane.settled() },
                            Step::Done,
                        ),
                        Err(error) => (
                            lane,
                            Step::Fatal(Fault::Io { during: Operation::Send, error }),
                        ),
                    }
                },
            }
        },
    }
}

fn resume<Fd>(from: &Option<Fd>, to: &Option<Fd>) -> (step: Step)
    ensures
        step == (if from is Some && to is Some {
            Step::Receive
        } else {
            Step::Done
        }),
{
    if from.is_some() && to.is_some() {
        Step::Receive
    } else {
        Step::Done
    }
}

/// Moves data from the endpoint `from` toward the endpoint `to`, one system
/// call at a time: given what the last call did, it updates the two
/// endpoints, the queue toward `to` and the message in flight, and says which
/// call to make next.
pub fn transfer_or_queue<Fd>(
    from: &mut Option<Fd>,
    to: &mut Option<Fd>,
    queued: &mut VecDeque<BufferedMessage<Fd>>,
    in_flight: &mut Option<BufferedMessage<Fd>>,
    event: RelayEvent<Fd>,
) -> (step: Step)
    ensures
        (lane_of(*final(from), *final(to), final(queued)@, *final(in_flight)), step) == relay(
            lane_of(*old(from), *old(to), old(queued)@, *old(in_flight)),
            event,
        ),
{
    match event {
        RelayEvent::Begin { readable } => {
            if in_flight.is_some() {
                Step::Fatal(Fault::OutOfTurn)
            } else if readable && queued.len() == 0 {
                resume(from, to)
            } else {
                Step::Done
            }
        },
        RelayEvent::Received(outcome) => {
            if in_flight.is_some() || from.is_none() || to.is_none() || queued.len() > 0 {
                return Step::Fatal(Fault::OutOfTurn);
            }
            match outcome {
                Ok(chunk) => {
                    if chunk.is_empty() {
                        *from = None;
                        *to = None;
                        Step::Done
                    } else {
                        *in_flight = Some(chunk);
                        Step::Send
                    }
                },
                Err(IoError::ConnectionReset) => {
                    *from = None;
                    *to = None;
                    Step::Done
                },
                Err(IoError::WouldBlock) => Step::Done,
                Err(error) => Step::Fatal(Fault::Io { during: Operation::Receive, error }),
            }
        },
        RelayEvent::Sent(outcome) => {
            if from.is_none() || to.is_none() || queued.len() > 0 {
                return Step::Fatal(Fault::OutOfTurn);
            }
            match in_flight.take() {
                None => Step::Fatal(Fault::OutOfTurn),
                Some(msg) => {
                    match outcome {
                        Ok(sent) => {
                            let offered: usize = msg.len();
                            if sent == 0 {
                                *from = None;
                                *to = None;
                                Step::Done
                            } else if sent >= offered {
                                resume(from, to)
                            } else {
                                let rest = msg.into_remainder(sent);
                                proof {
                                    assert(views_of(old(queued)@.push(rest)) =~= views_of(
                                        old(queued)@,
                                    ).push(rest@));
                                }
                                queued.push_back(rest);
                                Step::Done
                            }
                        },
                        Err(IoError::ConnectionReset) => {
                            *from = None;
                            *to = None;
                            Step::Done
                        },
                        Err(IoError::WouldBlock) => {
                            proof {
                                assert(views_of(old(queued)@.push(msg)) =~= views_of(
                                    old(queued)@,
                                ).push(msg@));
                            }
                            queued.push_back(msg);
                            Step::Done
                        },
                        Err(error) => {
                            *in_flight = Some(msg);
                            Step::Fatal(Fault::Io { during: Operation::Send, error })
                        },
                    }
                },
            }
        },
    }
}

} // verus!
