//! Flush: what is queued for an endpoint is delivered, front first, when the
//! endpoint has room.

use crate::io::{Fault, IoError, Operation};
use crate::lane::{lane_of, Lane, Step};
use crate::message::{views_of, BufferedMessage};
use std::collections::VecDeque;
use vstd::prelude::*;

verus! {

/// What happened since the drain of one queue last said what to do.
#[derive(Clone, Copy, PartialEq, Eq, Debug)]
pub enum DrainEvent {
    /// The queue is taken up; `writable` says whether the sink endpoint
    /// reported room to write.
    Begin { writable: bool },
    /// The outcome of the send that was asked for: the number of bytes that
    /// the sink accepted, or the error.
    Sent(Result<usize, IoError>),
}

/// The front of the queue goes in flight, as long as both endpoints are open
/// and something is queued.
pub open spec fn drain_next<Fd>(lane: Lane<Fd>) -> (Lane<Fd>, Step) {
    if !lane.live() || lane.queued.len() == 0 {
        (lane, Step::Done)
    } else {
        (
            Lane { in_flight: Some(lane.queued[0]), queued: lane.queued.skip(1), ..lane },
            Step::Send,
        )
    }
}

/// The drain of one queue: the lane and the step that follow from a lane and
/// an event.
///
/// Nothing is sent on a lane with a closed endpoint. Messages leave the queue
/// at the front, one send each. A message that the
/// sink took whole is gone and the next one follows. What the sink did not
/// take goes back to the front, without the descriptors if some bytes were
/// taken, and the drain ends for now. A send that took nothing and a reset end
/// the connection. A send that reports at least as many bytes as it was
/// offered took the whole message.
pub open spec fn drain<Fd>(lane: Lane<Fd>, event: DrainEvent) -> (Lane<Fd>, Step) {
    match event {
        DrainEvent::Begin { writable } => {
            if lane.in_flight is Some {
                (lane, Step::Fatal(Fault::OutOfTurn))
            } else if writable {
                drain_next(lane)
            } else {
                (lane, Step::Done)
            }
        },
        DrainEvent::Sent(outcome) => {
            match lane.in_flight {
                None => (lane, Step::Fatal(Fault::OutOfTurn)),
                Some(msg) => if !lane.live() {
                    (lane, Step::Fatal(Fault::OutOfTurn))
                } else {
                    match outcome {
                        Ok(sent) => {
                            if sent == 0 {
                                (lane.settled().closed(), Step::Done)
                            } else if sent >= msg.bytes.len() {
                                drain_next(lane.settled())
                            } else {
                                (
                                    Lane {
                                        queued: seq![msg.remainder(sent as int)] + lane.queued,
                                        ..lane.settled()
                                    },
                                    Step::Done,
                                )
                            }
                        },
                        Err(IoError::ConnectionReset) => (lane.settled().closed(), Step::Done),
                        Err(IoError::WouldBlock) => (
                            Lane { queued: seq![msg] + lane.queued, ..lane.settled() },
                            Step::Done,
                        ),
                        Err(error) => (
                            lane,
                            Step::Fatal(Fault::Io { during: Operation::Send, error }),
                        ),
                    }
                },
            }
        },
    }
}

fn next_queued<Fd>(
    from: &Option<Fd>,
    to: &Option<Fd>,
    queued: &mut VecDeque<BufferedMessage<Fd>>,
    in_flight: &mut Option<BufferedMessage<Fd>>,
) -> (step: Step)
    requires
        *old(in_flight) is None,
    ensures
        from is None || to is None || old(queued)@.len() == 0 ==> {
            &&& step == Step::Done
            &&& final(queued)@ == old(queued)@
            &&& *final(in_flight) is None
        },
        from is Some && to is Some && old(queued)@.len() > 0 ==> {
            &&& step == Step::Send
            &&& final(queued)@ == old(queued)@.skip(1)
            &&& *final(in_flight) == Some(old(queued)@[0])
        },
{
    if from.is_none() || to.is_none() {
        return Step::Done;
    }
    match queued.pop_front() {
        None => Step::Done,
        Some(msg) => {
            *in_flight = Some(msg);
            Step::Send
        },
    }
}

/// Delivers what is queued toward the endpoint `to`, one system call at a
/// time: given what the last call did, it updates the two endpoints, the
/// queue and the message in flight, and says which call to make next. `from`
/// is the other endpoint of the connection, which closes with `to`.
pub fn drain_queue<Fd>(
    from: &mut Option<Fd>,
    to: &mut Option<Fd>,
    queued: &mut VecDeque<BufferedMessage<Fd>>,
    in_flight: &mut Option<BufferedMessage<Fd>>,
    event: DrainEvent,
) -> (step: Step)
    ensures
        (lane_of(*final(from), *final(to), final(queued)@, *final(in_flight)), step) == drain(
            lane_of(*old(from), *old(to), old(queued)@, *old(in_flight)),
            event,
        ),
{
    match event {
        DrainEvent::Begin { writable } => {
            if in_flight.is_some() {
                Step::Fatal(Fault::OutOfTurn)
            } else if writable {
                proof {
                    if old(queued)@.len() > 0 {
                        assert(views_of(old(queued)@.skip(1)) =~= views_of(old(queued)@).skip(1));
                    }
                }
                next_queued(from, to, queued, in_flight)
            } else {
                Step::Done
            }
        },
        DrainEvent::Sent(outcome) => {
            if from.is_none() || to.is_none() {
                return Step::Fatal(Fault::OutOfTurn);
            }
            match in_flight.take() {
                None => Step::Fatal(Fault::OutOfTurn),
                Some(msg) => {
                    match outcome {
                        Ok(sent) => {
                            let offered: usize = msg.len();
                            if sent == 0 {
                                *from = None;
                                *to = None;
                                Step::Done
                            } else if sent >= offered {
                                proof {
                                    if old(queued)@.len() > 0 {
                                        assert(views_of(old(queued)@.skip(1)) =~= views_of(
                                            old(queued)@,
                                        ).skip(1));
                                    }
                                }
                                next_queued(from, to, queued, in_flight)
                            } else {
                                let rest = msg.into_remainder(sent);
                                proof {
                                    assert(views_of(seq![rest] + old(queued)@) =~= seq![rest@]
                                        + views_of(old(queued)@));
                                }
                                queued.push_front(rest);
                                Step::Done
                            }
                        },
                        Err(IoError::ConnectionReset) => {
                            *from = None;
                            *to = None;
                            Step::Done
                        },
                        Err(IoError::WouldBlock) => {
                            proof {
                                assert(views_of(seq![msg] + old(queued)@) =~= seq![msg@]
                                    + views_of(old(queued)@));
                            }
                            queued.push_front(msg);
                            Step::Done
                        },
                        Err(error) => {
                            *in_flight = Some(msg);
                            Step::Fatal(Fault::Io { during: Operation::Send, error })
                        },
                    }
                },
            }
        },
    }
}

} // verus!
