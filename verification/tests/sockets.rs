use std::io::{IoSlice, IoSliceMut};

use rustix::event::{poll, PollFd, PollFlags};
use rustix::fd::{AsFd, BorrowedFd, OwnedFd};
use rustix::io::Errno;
use rustix::net::{
    recvmsg, sendmsg, socketpair, AddressFamily, RecvAncillaryBuffer, RecvAncillaryMessage,
    RecvFlags, SendAncillaryBuffer, SendAncillaryMessage, SendFlags, SocketFlags, SocketType,
};

use socket_relay::connection::{Action, Event, ProxiedConnection};
use socket_relay::io::{Interest, IoError, Readiness, Side};
use socket_relay::message::BufferedMessage;

/// Room for the control data of the largest number of descriptors that one
/// message can carry.
const SPACE: usize = 2048;

fn pair() -> (OwnedFd, OwnedFd) {
    socketpair(
        AddressFamily::UNIX,
        SocketType::STREAM,
        SocketFlags::CLOEXEC | SocketFlags::NONBLOCK,
        None,
    )
    .unwrap()
}

fn error_of(errno: Errno) -> IoError {
    if errno == Errno::CONNRESET {
        IoError::ConnectionReset
    } else if errno == Errno::WOULDBLOCK || errno == Errno::AGAIN {
        IoError::WouldBlock
    } else if errno == Errno::INTR {
        IoError::Interrupted
    } else {
        IoError::Other(errno.raw_os_error())
    }
}

fn receive_from(socket: &OwnedFd) -> Result<BufferedMessage<OwnedFd>, IoError> {
    let mut bytes = [0u8; 1024];
    let mut space = [0u8; SPACE];
    let mut control = RecvAncillaryBuffer::new(&mut space);
    let got = recvmsg(
        socket,
        &mut [IoSliceMut::new(&mut bytes)],
        &mut control,
        RecvFlags::CMSG_CLOEXEC,
    )
    .map_err(error_of)?;
    let mut fds: Vec<OwnedFd> = Vec::new();
    for msg in control.drain() {
        if let RecvAncillaryMessage::ScmRights(rights) = msg {
            fds.extend(rights);
        }
    }
    Ok(BufferedMessage::new(fds, bytes[..got.bytes].to_vec()))
}

fn send_to(socket: &OwnedFd, msg: &BufferedMessage<OwnedFd>) -> Result<usize, IoError> {
    let mut space = [0u8; SPACE];
    let mut control = SendAncillaryBuffer::new(&mut space);
    let fds: Vec<BorrowedFd<'_>> = msg.fds.iter().map(|fd| fd.as_fd()).collect();
    control.push(SendAncillaryMessage::ScmRights(fds.as_slice()));
    sendmsg(socket, &[IoSlice::new(&msg.bytes)], &mut control, SendFlags::empty())
        .map_err(error_of)
}

fn flags_of(interest: Interest) -> PollFlags {
    let mut flags = PollFlags::empty();
    if interest.read {
        flags |= PollFlags::IN;
    }
    if interest.write {
        flags |= PollFlags::OUT;
    }
    flags
}

fn report_of(flags: PollFlags) -> Readiness {
    Readiness {
        readable: flags.contains(PollFlags::IN),
        writable: flags.contains(PollFlags::OUT),
        hangup: flags.contains(PollFlags::HUP),
        error: flags.contains(PollFlags::ERR),
    }
}

/// One turn of a connection over real sockets, after a wait that does not
/// block.
fn serve_once(conn: &mut ProxiedConnection<OwnedFd>) {
    let (server, child) = {
        let (server_interest, child_interest) = conn.interest();
        let mut fds = [
            PollFd::new(conn.socket(Side::Server).unwrap(), flags_of(server_interest)),
            PollFd::new(conn.socket(Side::Child).unwrap(), flags_of(child_interest)),
        ];
        poll(&mut fds, 0).unwrap();
        (report_of(fds[0].revents()), report_of(fds[1].revents()))
    };
    let mut action = conn.step(Event::Polled { server, child });
    loop {
        action = match action {
            Action::Receive(side) => {
                let outcome = receive_from(conn.socket(side).unwrap());
                conn.step(Event::Received(outcome))
            }
            Action::Send(side) => {
                let outcome = send_to(conn.socket(side).unwrap(), conn.in_flight().unwrap());
                conn.step(Event::Sent(outcome))
            }
            Action::Done => return,
            Action::Fatal(fault) => panic!("fatal: {:?}", fault),
        }
    }
}

#[test]
fn bytes_pass_through_real_sockets_in_both_directions() {
    let (client, child_side) = pair();
    let (server_side, compositor) = pair();
    let mut conn = ProxiedConnection::new(child_side, server_side, true);

    assert_eq!(rustix::io::write(&client, b"hello compositor").unwrap(), 16);
    assert_eq!(rustix::io::write(&compositor, b"hello client").unwrap(), 12);
    serve_once(&mut conn);

    let mut buf = [0u8; 64];
    let n = rustix::io::read(&compositor, &mut buf).unwrap();
    assert_eq!(&buf[..n], b"hello compositor");
    let n = rustix::io::read(&client, &mut buf).unwrap();
    assert_eq!(&buf[..n], b"hello client");
    assert!(conn.is_live());
    assert!(conn.queued(Side::Server).is_empty());
    assert!(conn.queued(Side::Child).is_empty());
}

#[test]
fn three_descriptors_pass_through_real_sockets_and_name_the_same_resources() {
    let (client, child_side) = pair();
    let (server_side, compositor) = pair();
    let mut conn = ProxiedConnection::new(child_side, server_side, true);

    let mut kept = Vec::new();
    let mut passed = Vec::new();
    for _ in 0..3 {
        let (ours, theirs) = pair();
        kept.push(ours);
        passed.push(theirs);
    }
    {
        let mut space = [0u8; SPACE];
        let mut control = SendAncillaryBuffer::new(&mut space);
        let fds: Vec<BorrowedFd<'_>> = passed.iter().map(|fd| fd.as_fd()).collect();
        control.push(SendAncillaryMessage::ScmRights(fds.as_slice()));
        let sent =
            sendmsg(&client, &[IoSlice::new(b"take these")], &mut control, SendFlags::empty())
                .unwrap();
        assert_eq!(sent, 10);
    }
    drop(passed);

    serve_once(&mut conn);
    // the relay keeps no copy
    assert!(conn.in_flight().is_none());
    assert!(conn.queued(Side::Server).is_empty());

    let arrived = receive_from(&compositor).unwrap();
    assert_eq!(arrived.bytes, b"take these".to_vec());
    assert_eq!(arrived.fds.len(), 3);
    for (index, fd) in arrived.fds.iter().enumerate() {
        let token = [b'a' + index as u8];
        assert_eq!(rustix::io::write(fd, &token).unwrap(), 1);
        let mut buf = [0u8; 4];
        let n = rustix::io::read(&kept[index], &mut buf).unwrap();
        assert_eq!(&buf[..n], &token);
    }
    // with the compositor's copies gone the resources are gone: nobody else holds them
    drop(arrived);
    let mut buf = [0u8; 4];
    for ours in kept.iter() {
        assert_eq!(rustix::io::read(ours, &mut buf).unwrap(), 0);
    }
}

#[test]
fn a_client_that_goes_away_ends_the_connection() {
    let (client, child_side) = pair();
    let (server_side, compositor) = pair();
    let mut conn = ProxiedConnection::new(child_side, server_side, true);
    drop(client);
    serve_once(&mut conn);
    assert!(!conn.is_live());
    assert!(conn.socket(Side::Server).is_none());
    // the compositor sees the end of the stream
    let mut buf = [0u8; 4];
    assert_eq!(rustix::io::read(&compositor, &mut buf).unwrap(), 0);
}

fn read_some(socket: &OwnedFd, arrived: &mut Vec<u8>) {
    let mut buf = [0u8; 4096];
    match rustix::io::read(socket, &mut buf) {
        Ok(n) => arrived.extend_from_slice(&buf[..n]),
        Err(e) => assert_eq!(e, Errno::AGAIN),
    }
}

#[test]
fn what_a_full_socket_did_not_take_is_queued_and_delivered_when_it_has_room() {
    let (client, child_side) = pair();
    let (server_side, compositor) = pair();
    let mut conn = ProxiedConnection::new(child_side, server_side, true);

    // the compositor is behind: its socket takes nothing more
    let filler = [0xffu8; 4096];
    let mut filled = 0;
    loop {
        match rustix::io::write(conn.socket(Side::Server).unwrap(), &filler) {
            Ok(n) => filled += n,
            Err(e) => {
                assert_eq!(e, Errno::AGAIN);
                break;
            }
        }
    }

    let data: Vec<u8> = (0..2000usize).map(|i| (i % 251) as u8).collect();
    assert_eq!(rustix::io::write(&client, &data).unwrap(), 2000);
    serve_once(&mut conn);
    assert_eq!(conn.queued(Side::Server).len(), 1);
    assert_eq!(conn.queued(Side::Server)[0].bytes, data[..1024].to_vec());
    // the rest stays in the client's socket until the queue is flushed
    serve_once(&mut conn);
    assert_eq!(conn.queued(Side::Server).len(), 1);
    assert!(conn.interest().0.write);
    assert!(conn.is_live());

    // the compositor catches up while the rest is still unread
    let mut arrived: Vec<u8> = Vec::new();
    let mut rounds = 0;
    while arrived.len() < filled + 2000 {
        read_some(&compositor, &mut arrived);
        serve_once(&mut conn);
        rounds += 1;
        assert!(rounds < 100_000);
    }
    assert!(conn.queued(Side::Server).is_empty());
    assert!(!conn.interest().0.write);
    assert!(arrived[..filled].iter().all(|b| *b == 0xff));
    assert!(arrived[filled..] == data[..]);
    assert!(conn.is_live());
}

#[test]
fn a_megabyte_arrives_in_order_through_a_socket_that_fills_and_empties() {
    let (client, child_side) = pair();
    let (server_side, compositor) = pair();
    let mut conn = ProxiedConnection::new(child_side, server_side, true);

    let total: usize = 1 << 20;
    let data: Vec<u8> = (0..total).map(|i| (i % 251) as u8).collect();
    let mut written = 0;
    let mut arrived: Vec<u8> = Vec::new();
    let mut saw_backlog = false;
    let mut rounds = 0;
    while arrived.len() < total {
        rounds += 1;
        assert!(rounds < 1_000_000);
        if written < total {
            match rustix::io::write(&client, &data[written..]) {
                Ok(n) => written += n,
                Err(e) => assert_eq!(e, Errno::AGAIN),
            }
        }
        serve_once(&mut conn);
        assert!(conn.is_live());
        assert!(conn.queued(Side::Server).len() <= 1);
        if !conn.queued(Side::Server).is_empty() {
            saw_backlog = true;
        }
        // the compositor reads only now and then, so that its socket fills
        // up and room returns while the client still has data unread
        if saw_backlog || rounds % 64 == 0 {
            read_some(&compositor, &mut arrived);
        }
    }
    assert!(saw_backlog);
    assert_eq!(arrived.len(), total);
    assert!(arrived == data);
}
