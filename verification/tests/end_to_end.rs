use socket_relay::connection::{Action, Event, ProxiedConnection};
use socket_relay::io::{IoError, Readiness, Side};
use socket_relay::message::BufferedMessage;

/// A peer that takes what it is sent, up to a budget of bytes for each turn.
struct Peer {
    bytes: Vec<u8>,
    fds: Vec<u32>,
    sends: Vec<(usize, usize)>,
    room: usize,
}

fn take(peer: &mut Peer, msg: &BufferedMessage<u32>) -> Result<usize, IoError> {
    if peer.room == 0 {
        return Err(IoError::WouldBlock);
    }
    let sent = msg.bytes.len().min(peer.room);
    peer.room -= sent;
    peer.bytes.extend_from_slice(&msg.bytes[..sent]);
    peer.fds.extend_from_slice(&msg.fds);
    peer.sends.push((sent, msg.fds.len()));
    Ok(sent)
}

/// One turn of a connection whose child side offers `source` in reads of at
/// most 1024 bytes, and whose server side is `peer`.
fn turn(
    conn: &mut ProxiedConnection<u32>,
    source: &mut Vec<BufferedMessage<u32>>,
    peer: &mut Peer,
) {
    let server = Readiness {
        readable: false,
        writable: peer.room > 0,
        hangup: false,
        error: false,
    };
    let child = Readiness {
        readable: !source.is_empty(),
        writable: false,
        hangup: false,
        error: false,
    };
    let mut action = conn.step(Event::Polled { server, child });
    loop {
        action = match action {
            Action::Receive(side) => {
                assert_eq!(side, Side::Child);
                if source.is_empty() {
                    conn.step(Event::Received(Err(IoError::WouldBlock)))
                } else {
                    conn.step(Event::Received(Ok(source.remove(0))))
                }
            }
            Action::Send(side) => {
                assert_eq!(side, Side::Server);
                let outcome = take(peer, conn.in_flight().unwrap());
                conn.step(Event::Sent(outcome))
            }
            Action::Done => return,
            Action::Fatal(fault) => panic!("fatal: {:?}", fault),
        }
    }
}

fn payload(len: usize) -> Vec<u8> {
    (0..len).map(|i| (i % 251) as u8).collect()
}

fn reads_of(bytes: &[u8], fds: Vec<u32>) -> Vec<BufferedMessage<u32>> {
    let mut reads = Vec::new();
    let mut fds = Some(fds);
    for part in bytes.chunks(1024) {
        reads.push(BufferedMessage::new(fds.take().unwrap_or_default(), part.to_vec()));
    }
    reads
}

#[test]
fn two_thousand_bytes_are_queued_and_delivered_once_the_server_is_writable() {
    let sent = payload(2000);
    let mut source = reads_of(&sent, Vec::new());
    let mut peer = Peer { bytes: Vec::new(), fds: Vec::new(), sends: Vec::new(), room: 0 };
    let mut conn = ProxiedConnection::new(1u32, 2u32, true);

    // the server side has no room: the first read is queued whole
    turn(&mut conn, &mut source, &mut peer);
    assert!(peer.bytes.is_empty());
    assert_eq!(conn.queued(Side::Server).len(), 1);
    assert_eq!(conn.queued(Side::Server)[0].bytes.len(), 1024);
    assert!(conn.interest().0.write);

    // still no room: nothing more is read while the first read is queued
    turn(&mut conn, &mut source, &mut peer);
    assert_eq!(source.len(), 1);
    assert!(peer.bytes.is_empty());
    assert_eq!(conn.queued(Side::Server).len(), 1);

    // room for 700 bytes: a partial send, the tail goes back to the front
    peer.room = 700;
    turn(&mut conn, &mut source, &mut peer);
    assert_eq!(peer.bytes.len(), 700);
    assert_eq!(source.len(), 1);
    assert_eq!(conn.queued(Side::Server).len(), 1);
    assert_eq!(conn.queued(Side::Server)[0].bytes.len(), 324);

    // room for everything: the tail goes first, the second read after it
    peer.room = 4096;
    turn(&mut conn, &mut source, &mut peer);
    assert_eq!(peer.bytes.len(), 1024);
    assert!(conn.queued(Side::Server).is_empty());
    turn(&mut conn, &mut source, &mut peer);
    assert!(source.is_empty());
    assert!(conn.queued(Side::Server).is_empty());
    assert!(conn.in_flight().is_none());
    assert!(!conn.interest().0.write);
    assert_eq!(peer.bytes, sent);
    assert!(conn.is_live());
}

#[test]
fn room_that_returns_while_data_is_still_unread_does_not_change_the_order() {
    let sent = payload(2000);
    let mut source = reads_of(&sent, vec![41, 42]);
    let mut peer = Peer { bytes: Vec::new(), fds: Vec::new(), sends: Vec::new(), room: 0 };
    let mut conn = ProxiedConnection::new(1u32, 2u32, true);

    // the first 1024 bytes meet a peer without room and are queued
    turn(&mut conn, &mut source, &mut peer);
    assert_eq!(conn.queued(Side::Server).len(), 1);
    assert_eq!(source.len(), 1);

    // the peer has room again while 976 bytes are still unread: the child
    // side is readable and the server side writable in the same turn
    peer.room = 1_000_000;
    let mut turns = 0;
    while !source.is_empty() || !conn.queued(Side::Server).is_empty() {
        turn(&mut conn, &mut source, &mut peer);
        turns += 1;
        assert!(turns < 10);
    }
    assert_eq!(peer.bytes, sent);
    assert_eq!(peer.fds, vec![41u32, 42]);
    assert_eq!(peer.sends, vec![(1024usize, 2usize), (976usize, 0usize)]);
    assert!(conn.is_live());
}

#[test]
fn room_that_comes_and_goes_never_changes_the_order() {
    let sent = payload(50_000);
    let rooms = [0usize, 1, 5000, 0, 3, 1023, 1024, 1025, 0, 0, 2048, 777, 100_000, 0, 10];
    // every offset into the pattern of rooms, so that room returns at every
    // point of the transfer
    for start in 0..rooms.len() {
        let mut source = reads_of(&sent, vec![7, 8, 9]);
        let mut peer = Peer { bytes: Vec::new(), fds: Vec::new(), sends: Vec::new(), room: 0 };
        let mut conn = ProxiedConnection::new(1u32, 2u32, true);
        let mut turns = 0;
        while !source.is_empty() || !conn.queued(Side::Server).is_empty() {
            peer.room = rooms[(start + turns) % rooms.len()];
            turn(&mut conn, &mut source, &mut peer);
            turns += 1;
            assert!(turns < 10_000);
            assert!(conn.queued(Side::Server).len() <= 1);
        }
        assert!(peer.bytes == sent);
        assert_eq!(peer.fds, vec![7u32, 8, 9]);
        assert!(conn.is_live());
    }
}

#[test]
fn three_handles_reach_the_peer_once_each() {
    let mut source = vec![BufferedMessage::new(vec![31u32, 32, 33], vec![1u8, 2, 3, 4])];
    let mut peer = Peer { bytes: Vec::new(), fds: Vec::new(), sends: Vec::new(), room: 4096 };
    let mut conn = ProxiedConnection::new(1u32, 2u32, true);
    turn(&mut conn, &mut source, &mut peer);
    assert_eq!(peer.fds, vec![31u32, 32, 33]);
    assert_eq!(peer.bytes, vec![1u8, 2, 3, 4]);
    assert_eq!(peer.sends, vec![(4usize, 3usize)]);
    // nothing of the message is left with the relay
    assert!(conn.in_flight().is_none());
    assert!(conn.queued(Side::Server).is_empty());
    assert!(conn.queued(Side::Child).is_empty());
}

#[test]
fn handles_go_with_the_first_bytes_of_a_partial_send_and_are_not_sent_again() {
    let mut source = vec![BufferedMessage::new(vec![31u32, 32, 33], vec![1u8, 2, 3, 4])];
    let mut peer = Peer { bytes: Vec::new(), fds: Vec::new(), sends: Vec::new(), room: 1 };
    let mut conn = ProxiedConnection::new(1u32, 2u32, true);
    turn(&mut conn, &mut source, &mut peer);
    assert_eq!(peer.fds, vec![31u32, 32, 33]);
    assert_eq!(peer.bytes, vec![1u8]);
    assert!(conn.queued(Side::Server)[0].fds.is_empty());
    peer.room = 4096;
    turn(&mut conn, &mut source, &mut peer);
    assert_eq!(peer.fds, vec![31u32, 32, 33]);
    assert_eq!(peer.bytes, vec![1u8, 2, 3, 4]);
    assert_eq!(peer.sends, vec![(1usize, 3usize), (3usize, 0usize)]);
}

#[test]
fn handles_wait_in_the_queue_with_their_bytes_when_the_send_would_block() {
    let mut source = vec![
        BufferedMessage::new(vec![31u32], vec![1u8, 2]),
        BufferedMessage::new(vec![32u32, 33], vec![3u8, 4]),
    ];
    let mut peer = Peer { bytes: Vec::new(), fds: Vec::new(), sends: Vec::new(), room: 0 };
    let mut conn = ProxiedConnection::new(1u32, 2u32, true);
    turn(&mut conn, &mut source, &mut peer);
    turn(&mut conn, &mut source, &mut peer);
    assert!(peer.fds.is_empty());
    assert_eq!(conn.queued(Side::Server).len(), 1);
    assert_eq!(conn.queued(Side::Server)[0].fds, vec![31u32]);
    assert_eq!(source.len(), 1);
    peer.room = 4096;
    turn(&mut conn, &mut source, &mut peer);
    assert_eq!(peer.fds, vec![31u32]);
    turn(&mut conn, &mut source, &mut peer);
    assert_eq!(peer.fds, vec![31u32, 32, 33]);
    assert_eq!(peer.bytes, vec![1u8, 2, 3, 4]);
    assert_eq!(peer.sends, vec![(2usize, 1usize), (2usize, 2usize)]);
}

#[test]
fn many_writes_arrive_in_the_order_in_which_they_were_made() {
    let sent = payload(10_000);
    let mut source = reads_of(&sent, vec![7, 8]);
    let mut peer = Peer { bytes: Vec::new(), fds: Vec::new(), sends: Vec::new(), room: 0 };
    let mut conn = ProxiedConnection::new(1u32, 2u32, true);
    let mut rooms = [1usize, 1500, 3, 1023, 1025, 0, 2048, 777].iter().cycle();
    let mut turns = 0;
    while !source.is_empty() || !conn.queued(Side::Server).is_empty() {
        peer.room = *rooms.next().unwrap();
        turn(&mut conn, &mut source, &mut peer);
        turns += 1;
        assert!(turns < 1000);
    }
    assert_eq!(peer.bytes, sent);
    assert_eq!(peer.fds, vec![7u32, 8]);
    assert!(conn.is_live());
}
