//! Decoding and bookkeeping for a Linux fanotify monitor.
//!
//! A monitor opens a notification session, sets marks that say which kinds of
//! activity it wants to hear of on which files and directories, and then reads
//! the session's descriptor for ever: each read fills a buffer with records, and
//! each record becomes an event.
//!
//! This crate holds every decision of such a monitor and makes no system call
//! itself. The caller makes the calls and hands in what they returned:
//!
//! 1. [`session::SessionConfig::init_call`] gives the arguments of the call that
//!    creates the session, and [`session::open_session`] turns what the call
//!    returned into a [`session::Session`] or a classified failure.
//! 2. [`registry::mark_call`] gives the arguments of a mark call, and
//!    [`registry::WatchRegistry`] takes in what the call returned: it keeps the
//!    marks that were set and classifies the failures, among them the rejection
//!    of a kind that the kernel does not know, after which a caller may try again
//!    with fewer kinds.
//! 3. [`read::read_events`] takes in what one read returned and says what the
//!    loop does next: read again, leave, or deal with what [`decode`] framed out
//!    of the bytes.
//! 4. For each record the caller resolves the descriptor that came with it
//!    through the link that [`event::descriptor_link`] names, [`read::dispatch`]
//!    builds the events, and the caller releases the descriptors that
//!    [`decode::descriptors`] lists.
//!
//! The numbers that the platform gives to errors are read from `libc` into an
//! [`errno::ErrnoCodes`] table; no classification assumes their values.

pub mod decode;
pub mod errno;
pub mod event;
pub mod mask;
pub mod read;
pub mod registry;
pub mod session;
pub mod wire;
