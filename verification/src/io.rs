//! The plain values that system calls are reported in: errors, readiness,
//! interest, and the faults that end the process.

use vstd::prelude::*;

verus! {

/// Why a system call on a socket did not succeed, as far as the relay tells
/// the causes apart.
#[derive(Clone, Copy, PartialEq, Eq, Debug)]
pub enum IoError {
    /// The peer reset the connection.
    ConnectionReset,
    /// The call would have had to wait.
    WouldBlock,
    /// A signal arrived before the call did anything.
    Interrupted,
    /// Any other error, with its number.
    Other(i32),
}

/// The system calls whose failure the relay has to judge.
#[derive(Clone, Copy, PartialEq, Eq, Debug)]
pub enum Operation {
    Wait,
    Accept,
    Connect,
    Receive,
    Send,
}

/// A condition that the relay does not try to recover from: the process is
/// expected to stop with a diagnostic.
#[derive(Clone, Copy, PartialEq, Eq, Debug)]
pub enum Fault {
    /// A system call failed in a way that is neither transient nor the end of
    /// one connection.
    Io { during: Operation, error: IoError },
    /// An outcome was reported that the relay had not asked for.
    OutOfTurn,
}

/// What one endpoint reported at the end of a readiness wait.
#[derive(Clone, Copy, PartialEq, Eq, Debug)]
pub struct Readiness {
    pub readable: bool,
    pub writable: bool,
    pub hangup: bool,
    pub error: bool,
}

impl Readiness {
    /// Whether the endpoint reported an error or a hangup.
    pub open spec fn failed(self) -> bool {
        self.hangup || self.error
    }

    /// Whether the endpoint reported an error or a hangup.
    pub fn has_failed(&self) -> (failed: bool)
        ensures
            failed == self.failed(),
    {
        self.hangup || self.error
    }

    /// An endpoint that reported nothing.
    pub fn quiet() -> (r: Readiness)
        ensures
            r == (Readiness { readable: false, writable: false, hangup: false, error: false }),
    {
        Readiness { readable: false, writable: false, hangup: false, error: false }
    }
}

/// What a readiness wait is asked to watch one endpoint for.
#[derive(Clone, Copy, PartialEq, Eq, Debug)]
pub struct Interest {
    pub read: bool,
    pub write: bool,
}

/// The two endpoints of a proxied connection: the one that the supervised
/// child connected to, and the one connected to the real socket.
#[derive(Clone, Copy, PartialEq, Eq, Debug)]
pub enum Side {
    Child,
    Server,
}

impl Side {
    /// The other endpoint of the same connection.
    pub open spec fn peer(self) -> Side {
        match self {
            Side::Child => Side::Server,
            Side::Server => Side::Child,
        }
    }
}

} // verus!
