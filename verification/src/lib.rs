//! A transparent relay for one Unix stream socket that carries bytes and
//! passed descriptors, such as the socket between a Wayland client and its
//! compositor.
//!
//! The relay is written without its system calls. [`event_loop::EventLoop`]
//! owns the table of connections and is a state machine: it is told what the
//! last system call did and says which one to make next. Whoever drives it
//! makes the calls. Each connection is such a machine too
//! ([`connection::ProxiedConnection`]), built on the two that move data in
//! one direction: [`relay::transfer_or_queue`], which reads and forwards or
//! queues, and [`drain::drain_queue`], which delivers what was queued.
//!
//! The library is generic in the type of a descriptor. It never copies one:
//! a descriptor is in the message that was received, in a queue, or in the
//! message in flight, and is dropped once the peer has accepted the message
//! or the connection is removed.
//!
//! What the machines do is stated as functions on their views
//! ([`connection::ConnectionView::step`], [`event_loop::LoopView::step`]).
//! [`stream`], [`calls`], [`history`], [`backlog`], [`endings`] and
//! [`rounds`] prove what follows for every run of events: that order is
//! kept, that a backlog is delivered whole, that nothing is lost or
//! duplicated, that a connection closes exactly when its end is reported and
//! never takes the process with it, and that a closed connection is left
//! alone and leaves the table.

pub mod backlog;
pub mod calls;
pub mod connection;
pub mod drain;
pub mod endings;
pub mod event_loop;
pub mod history;
pub mod io;
pub mod lane;
pub mod message;
pub mod relay;
pub mod rounds;
pub mod stream;
