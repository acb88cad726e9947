use socket_relay::io::{Fault, IoError, Operation};
use socket_relay::lane::Step;
use socket_relay::message::BufferedMessage;
use socket_relay::relay::{transfer_or_queue, RelayEvent};
use std::collections::VecDeque;

struct RelayLane {
    from: Option<u32>,
    to: Option<u32>,
    queued: VecDeque<BufferedMessage<u32>>,
    in_flight: Option<BufferedMessage<u32>>,
}

fn open_relay_lane() -> RelayLane {
    RelayLane { from: Some(3), to: Some(4), queued: VecDeque::new(), in_flight: None }
}

fn relay_on(lane: &mut RelayLane, event: RelayEvent<u32>) -> Step {
    transfer_or_queue(&mut lane.from, &mut lane.to, &mut lane.queued, &mut lane.in_flight, event)
}

fn relay_lane_with_in_flight(fds: Vec<u32>, bytes: Vec<u8>) -> RelayLane {
    let mut lane = open_relay_lane();
    let step = relay_on(&mut lane, RelayEvent::Received(Ok(BufferedMessage::new(fds, bytes))));
    assert_eq!(step, Step::Send);
    lane
}

#[test]
fn relay_does_nothing_when_the_source_is_not_readable() {
    let mut lane = open_relay_lane();
    assert_eq!(relay_on(&mut lane, RelayEvent::Begin { readable: false }), Step::Done);
    assert_eq!(lane.from, Some(3));
    assert_eq!(lane.to, Some(4));
    assert!(lane.queued.is_empty());
    assert!(lane.in_flight.is_none());
}

#[test]
fn relay_receives_when_the_source_is_readable() {
    let mut lane = open_relay_lane();
    assert_eq!(relay_on(&mut lane, RelayEvent::Begin { readable: true }), Step::Receive);
}

#[test]
fn relay_does_not_receive_when_an_endpoint_is_closed() {
    let mut lane = open_relay_lane();
    lane.to = None;
    assert_eq!(relay_on(&mut lane, RelayEvent::Begin { readable: true }), Step::Done);
    let mut lane = open_relay_lane();
    lane.from = None;
    assert_eq!(relay_on(&mut lane, RelayEvent::Begin { readable: true }), Step::Done);
}

#[test]
fn relay_sends_what_it_received_at_once() {
    let mut lane = open_relay_lane();
    let chunk = BufferedMessage::new(vec![11u32, 12], vec![1u8, 2, 3]);
    assert_eq!(relay_on(&mut lane, RelayEvent::Received(Ok(chunk))), Step::Send);
    let in_flight = lane.in_flight.as_ref().unwrap();
    assert_eq!(in_flight.bytes, vec![1u8, 2, 3]);
    assert_eq!(in_flight.fds, vec![11u32, 12]);
    assert!(lane.queued.is_empty());
}

#[test]
fn relay_closes_both_endpoints_at_end_of_stream() {
    let mut lane = open_relay_lane();
    let chunk = BufferedMessage::new(Vec::new(), Vec::new());
    assert_eq!(relay_on(&mut lane, RelayEvent::Received(Ok(chunk))), Step::Done);
    assert_eq!(lane.from, None);
    assert_eq!(lane.to, None);
    assert!(lane.in_flight.is_none());
}

#[test]
fn relay_closes_both_endpoints_when_the_source_was_reset() {
    let mut lane = open_relay_lane();
    let step = relay_on(&mut lane, RelayEvent::Received(Err(IoError::ConnectionReset)));
    assert_eq!(step, Step::Done);
    assert_eq!(lane.from, None);
    assert_eq!(lane.to, None);
}

#[test]
fn relay_pauses_when_the_receive_would_block() {
    let mut lane = open_relay_lane();
    let step = relay_on(&mut lane, RelayEvent::Received(Err(IoError::WouldBlock)));
    assert_eq!(step, Step::Done);
    assert_eq!(lane.from, Some(3));
    assert_eq!(lane.to, Some(4));
    assert!(lane.queued.is_empty());
}

#[test]
fn relay_treats_any_other_receive_error_as_fatal() {
    let mut lane = open_relay_lane();
    let step = relay_on(&mut lane, RelayEvent::Received(Err(IoError::Other(5))));
    assert_eq!(
        step,
        Step::Fatal(Fault::Io { during: Operation::Receive, error: IoError::Other(5) })
    );
    let step = relay_on(&mut lane, RelayEvent::Received(Err(IoError::Interrupted)));
    assert_eq!(
        step,
        Step::Fatal(Fault::Io { during: Operation::Receive, error: IoError::Interrupted })
    );
    assert_eq!(lane.from, Some(3));
    assert_eq!(lane.to, Some(4));
}

#[test]
fn relay_reads_on_after_a_full_send() {
    let mut lane = relay_lane_with_in_flight(vec![11], vec![1, 2, 3]);
    assert_eq!(relay_on(&mut lane, RelayEvent::Sent(Ok(3))), Step::Receive);
    assert!(lane.in_flight.is_none());
    assert!(lane.queued.is_empty());
}

#[test]
fn relay_queues_the_tail_without_descriptors_after_a_partial_send() {
    let mut lane = relay_lane_with_in_flight(vec![11, 12], vec![1, 2, 3, 4, 5]);
    assert_eq!(relay_on(&mut lane, RelayEvent::Sent(Ok(2))), Step::Done);
    assert!(lane.in_flight.is_none());
    assert_eq!(lane.queued.len(), 1);
    assert_eq!(lane.queued[0].bytes, vec![3u8, 4, 5]);
    assert!(lane.queued[0].fds.is_empty());
    assert_eq!(lane.from, Some(3));
    assert_eq!(lane.to, Some(4));
}

#[test]
fn relay_queues_the_whole_chunk_when_the_send_would_block() {
    let mut lane = relay_lane_with_in_flight(vec![11, 12], vec![1, 2, 3]);
    assert_eq!(relay_on(&mut lane, RelayEvent::Sent(Err(IoError::WouldBlock))), Step::Done);
    assert!(lane.in_flight.is_none());
    assert_eq!(lane.queued.len(), 1);
    assert_eq!(lane.queued[0].bytes, vec![1u8, 2, 3]);
    assert_eq!(lane.queued[0].fds, vec![11u32, 12]);
}

#[test]
fn relay_does_not_read_while_something_is_queued_toward_the_sink() {
    let mut lane = open_relay_lane();
    lane.queued.push_back(BufferedMessage::new(Vec::new(), vec![9]));
    assert_eq!(relay_on(&mut lane, RelayEvent::Begin { readable: true }), Step::Done);
    assert_eq!(lane.queued.len(), 1);
    assert_eq!(lane.queued[0].bytes, vec![9u8]);
    assert!(lane.in_flight.is_none());
    assert_eq!(lane.from, Some(3));
    assert_eq!(lane.to, Some(4));
}

#[test]
fn relay_refuses_to_let_anything_go_ahead_of_what_is_queued() {
    let mut lane = open_relay_lane();
    lane.queued.push_back(BufferedMessage::new(Vec::new(), vec![9]));
    let newer = BufferedMessage::new(vec![1], vec![7, 8]);
    assert_eq!(
        relay_on(&mut lane, RelayEvent::Received(Ok(newer))),
        Step::Fatal(Fault::OutOfTurn)
    );
    assert!(lane.in_flight.is_none());
    assert_eq!(lane.queued.len(), 1);

    let mut lane = relay_lane_with_in_flight(Vec::new(), vec![1]);
    lane.queued.push_back(BufferedMessage::new(Vec::new(), vec![9]));
    assert_eq!(relay_on(&mut lane, RelayEvent::Sent(Ok(1))), Step::Fatal(Fault::OutOfTurn));
    assert_eq!(lane.in_flight.as_ref().unwrap().bytes, vec![1u8]);
    assert_eq!(lane.queued.len(), 1);
    assert_eq!(lane.queued[0].bytes, vec![9u8]);
}

#[test]
fn relay_queues_at_most_one_message() {
    let mut lane = relay_lane_with_in_flight(vec![1], vec![7, 8]);
    assert_eq!(relay_on(&mut lane, RelayEvent::Sent(Err(IoError::WouldBlock))), Step::Done);
    assert_eq!(lane.queued.len(), 1);
    assert_eq!(relay_on(&mut lane, RelayEvent::Begin { readable: true }), Step::Done);
    assert_eq!(lane.queued.len(), 1);
    assert_eq!(lane.queued[0].bytes, vec![7u8, 8]);
    assert_eq!(lane.queued[0].fds, vec![1u32]);
}

#[test]
fn relay_closes_both_endpoints_when_the_send_takes_nothing() {
    let mut lane = relay_lane_with_in_flight(vec![11], vec![1, 2, 3]);
    assert_eq!(relay_on(&mut lane, RelayEvent::Sent(Ok(0))), Step::Done);
    assert_eq!(lane.from, None);
    assert_eq!(lane.to, None);
    assert!(lane.in_flight.is_none());
    assert!(lane.queued.is_empty());
}

#[test]
fn relay_closes_both_endpoints_when_the_sink_was_reset() {
    let mut lane = relay_lane_with_in_flight(vec![11], vec![1, 2, 3]);
    let step = relay_on(&mut lane, RelayEvent::Sent(Err(IoError::ConnectionReset)));
    assert_eq!(step, Step::Done);
    assert_eq!(lane.from, None);
    assert_eq!(lane.to, None);
}

#[test]
fn relay_treats_any_other_send_error_as_fatal() {
    let mut lane = relay_lane_with_in_flight(vec![11], vec![1, 2, 3]);
    let step = relay_on(&mut lane, RelayEvent::Sent(Err(IoError::Other(32))));
    assert_eq!(step, Step::Fatal(Fault::Io { during: Operation::Send, error: IoError::Other(32) }));
    assert_eq!(lane.in_flight.as_ref().unwrap().fds, vec![11u32]);
}

#[test]
fn relay_takes_a_send_that_reports_more_than_was_offered_as_a_full_send() {
    let mut lane = relay_lane_with_in_flight(vec![11], vec![1, 2, 3]);
    assert_eq!(relay_on(&mut lane, RelayEvent::Sent(Ok(4))), Step::Receive);
    assert!(lane.in_flight.is_none());
    assert!(lane.queued.is_empty());
    assert_eq!(lane.from, Some(3));
    assert_eq!(lane.to, Some(4));
}

#[test]
fn relay_refuses_outcomes_it_did_not_ask_for() {
    let mut lane = open_relay_lane();
    assert_eq!(relay_on(&mut lane, RelayEvent::Sent(Ok(1))), Step::Fatal(Fault::OutOfTurn));
    let mut lane = relay_lane_with_in_flight(vec![11], vec![1, 2, 3]);
    let again = BufferedMessage::new(Vec::new(), vec![4]);
    assert_eq!(
        relay_on(&mut lane, RelayEvent::Received(Ok(again))),
        Step::Fatal(Fault::OutOfTurn)
    );
    assert_eq!(
        relay_on(&mut lane, RelayEvent::Begin { readable: true }),
        Step::Fatal(Fault::OutOfTurn)
    );
    assert_eq!(lane.in_flight.as_ref().unwrap().bytes, vec![1u8, 2, 3]);
}

#[test]
fn relay_refuses_outcomes_on_a_lane_with_a_closed_endpoint() {
    let mut lane = open_relay_lane();
    lane.to = None;
    let late = BufferedMessage::new(vec![11], vec![1, 2, 3]);
    assert_eq!(
        relay_on(&mut lane, RelayEvent::Received(Ok(late))),
        Step::Fatal(Fault::OutOfTurn)
    );
    assert!(lane.in_flight.is_none());
    let mut lane = relay_lane_with_in_flight(vec![11], vec![1, 2, 3]);
    lane.from = None;
    assert_eq!(relay_on(&mut lane, RelayEvent::Sent(Ok(3))), Step::Fatal(Fault::OutOfTurn));
    assert!(lane.queued.is_empty());
}
