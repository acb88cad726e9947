use socket_relay::drain::{drain_queue, DrainEvent};
use socket_relay::io::{Fault, IoError, Operation};
use socket_relay::lane::Step;
use socket_relay::message::BufferedMessage;
use std::collections::VecDeque;

struct DrainLane {
    from: Option<u32>,
    to: Option<u32>,
    queued: VecDeque<BufferedMessage<u32>>,
    in_flight: Option<BufferedMessage<u32>>,
}

fn drain_lane_with(messages: Vec<BufferedMessage<u32>>) -> DrainLane {
    DrainLane {
        from: Some(3),
        to: Some(4),
        queued: messages.into_iter().collect(),
        in_flight: None,
    }
}

fn drain_on(lane: &mut DrainLane, event: DrainEvent) -> Step {
    drain_queue(&mut lane.from, &mut lane.to, &mut lane.queued, &mut lane.in_flight, event)
}

fn two_queued_messages() -> Vec<BufferedMessage<u32>> {
    vec![
        BufferedMessage::new(vec![21, 22], vec![1, 2, 3, 4]),
        BufferedMessage::new(Vec::new(), vec![5, 6]),
    ]
}

#[test]
fn drain_does_nothing_when_the_sink_is_not_writable() {
    let mut lane = drain_lane_with(two_queued_messages());
    assert_eq!(drain_on(&mut lane, DrainEvent::Begin { writable: false }), Step::Done);
    assert_eq!(lane.queued.len(), 2);
    assert!(lane.in_flight.is_none());
}

#[test]
fn drain_does_nothing_when_the_queue_is_empty() {
    let mut lane = drain_lane_with(Vec::new());
    assert_eq!(drain_on(&mut lane, DrainEvent::Begin { writable: true }), Step::Done);
    assert!(lane.in_flight.is_none());
}

#[test]
fn drain_does_nothing_when_an_endpoint_is_closed() {
    let mut lane = drain_lane_with(two_queued_messages());
    lane.to = None;
    assert_eq!(drain_on(&mut lane, DrainEvent::Begin { writable: true }), Step::Done);
    assert_eq!(lane.queued.len(), 2);
    let mut lane = drain_lane_with(two_queued_messages());
    lane.from = None;
    assert_eq!(drain_on(&mut lane, DrainEvent::Begin { writable: true }), Step::Done);
    assert_eq!(lane.queued.len(), 2);
    assert!(lane.in_flight.is_none());
}

#[test]
fn drain_refuses_outcomes_on_a_lane_with_a_closed_endpoint() {
    let mut lane = drain_lane_with(two_queued_messages());
    drain_on(&mut lane, DrainEvent::Begin { writable: true });
    lane.to = None;
    assert_eq!(drain_on(&mut lane, DrainEvent::Sent(Ok(4))), Step::Fatal(Fault::OutOfTurn));
    assert_eq!(lane.queued.len(), 1);
}

#[test]
fn drain_sends_the_front_message_first() {
    let mut lane = drain_lane_with(two_queued_messages());
    assert_eq!(drain_on(&mut lane, DrainEvent::Begin { writable: true }), Step::Send);
    let in_flight = lane.in_flight.as_ref().unwrap();
    assert_eq!(in_flight.bytes, vec![1u8, 2, 3, 4]);
    assert_eq!(in_flight.fds, vec![21u32, 22]);
    assert_eq!(lane.queued.len(), 1);
    assert_eq!(lane.queued[0].bytes, vec![5u8, 6]);
}

#[test]
fn drain_goes_on_with_the_next_message_after_a_full_send() {
    let mut lane = drain_lane_with(two_queued_messages());
    drain_on(&mut lane, DrainEvent::Begin { writable: true });
    assert_eq!(drain_on(&mut lane, DrainEvent::Sent(Ok(4))), Step::Send);
    assert_eq!(lane.in_flight.as_ref().unwrap().bytes, vec![5u8, 6]);
    assert!(lane.queued.is_empty());
    assert_eq!(drain_on(&mut lane, DrainEvent::Sent(Ok(2))), Step::Done);
    assert!(lane.in_flight.is_none());
    assert!(lane.queued.is_empty());
    assert_eq!(lane.to, Some(4));
}

#[test]
fn drain_puts_the_unsent_tail_back_in_front_without_descriptors() {
    let mut lane = drain_lane_with(two_queued_messages());
    drain_on(&mut lane, DrainEvent::Begin { writable: true });
    assert_eq!(drain_on(&mut lane, DrainEvent::Sent(Ok(1))), Step::Done);
    assert!(lane.in_flight.is_none());
    assert_eq!(lane.queued.len(), 2);
    assert_eq!(lane.queued[0].bytes, vec![2u8, 3, 4]);
    assert!(lane.queued[0].fds.is_empty());
    assert_eq!(lane.queued[1].bytes, vec![5u8, 6]);
}

#[test]
fn drain_puts_the_message_back_in_front_unchanged_when_the_send_would_block() {
    let mut lane = drain_lane_with(two_queued_messages());
    drain_on(&mut lane, DrainEvent::Begin { writable: true });
    assert_eq!(drain_on(&mut lane, DrainEvent::Sent(Err(IoError::WouldBlock))), Step::Done);
    assert!(lane.in_flight.is_none());
    assert_eq!(lane.queued.len(), 2);
    assert_eq!(lane.queued[0].bytes, vec![1u8, 2, 3, 4]);
    assert_eq!(lane.queued[0].fds, vec![21u32, 22]);
    assert_eq!(lane.queued[1].bytes, vec![5u8, 6]);
}

#[test]
fn drain_closes_both_endpoints_when_the_send_takes_nothing() {
    let mut lane = drain_lane_with(two_queued_messages());
    drain_on(&mut lane, DrainEvent::Begin { writable: true });
    assert_eq!(drain_on(&mut lane, DrainEvent::Sent(Ok(0))), Step::Done);
    assert_eq!(lane.from, None);
    assert_eq!(lane.to, None);
    assert!(lane.in_flight.is_none());
}

#[test]
fn drain_closes_both_endpoints_when_the_sink_was_reset() {
    let mut lane = drain_lane_with(two_queued_messages());
    drain_on(&mut lane, DrainEvent::Begin { writable: true });
    let step = drain_on(&mut lane, DrainEvent::Sent(Err(IoError::ConnectionReset)));
    assert_eq!(step, Step::Done);
    assert_eq!(lane.from, None);
    assert_eq!(lane.to, None);
}

#[test]
fn drain_treats_any_other_send_error_as_fatal() {
    let mut lane = drain_lane_with(two_queued_messages());
    drain_on(&mut lane, DrainEvent::Begin { writable: true });
    let step = drain_on(&mut lane, DrainEvent::Sent(Err(IoError::Other(32))));
    assert_eq!(step, Step::Fatal(Fault::Io { during: Operation::Send, error: IoError::Other(32) }));
    assert_eq!(lane.to, Some(4));
}

#[test]
fn drain_takes_a_send_that_reports_more_than_was_offered_as_a_full_send() {
    let mut lane = drain_lane_with(two_queued_messages());
    drain_on(&mut lane, DrainEvent::Begin { writable: true });
    assert_eq!(drain_on(&mut lane, DrainEvent::Sent(Ok(5))), Step::Send);
    assert_eq!(lane.in_flight.as_ref().unwrap().bytes, vec![5u8, 6]);
    assert!(lane.queued.is_empty());
    assert_eq!(lane.to, Some(4));
}

#[test]
fn drain_refuses_outcomes_it_did_not_ask_for() {
    let mut lane = drain_lane_with(two_queued_messages());
    assert_eq!(drain_on(&mut lane, DrainEvent::Sent(Ok(1))), Step::Fatal(Fault::OutOfTurn));
    drain_on(&mut lane, DrainEvent::Begin { writable: true });
    assert_eq!(
        drain_on(&mut lane, DrainEvent::Begin { writable: true }),
        Step::Fatal(Fault::OutOfTurn)
    );
}
