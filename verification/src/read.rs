//! One turn of the read loop: from what a read returned to what the loop does next.

use vstd::prelude::*;
use vstd::slice::slice_subrange;
use crate::decode::{frame_records, frames, DecodeFault, Decoded};
use crate::errno::ErrnoCodes;
use crate::event::{event_of, outcome_view, path_view, Event, EventView};
use crate::mask::EventMask;
use crate::session::Session;

verus! {

/// The smallest buffer to read events into: room for any single record.
pub const READ_BUFFER_LEN: usize = 4096;

/// Why a read gave no bytes.
#[derive(Clone, Copy, Debug, PartialEq, Eq, Structural, Hash)]
pub enum ReadError {
    /// A signal interrupted the read. The read is made again at once.
    Interrupted,
    /// No event is waiting on a session that does not block. The read is made
    /// again, at once or after a wait.
    WouldBlock,
    /// The session was closed. Monitoring has ended as intended. The
    /// descriptor of the session is closed already: the session is ended without
    /// closing it again.
    SessionClosed,
    /// Any other failure, with its error number. Monitoring has ended.
    Fatal(i32),
}

impl ReadError {
    /// Whether the failure passes by itself, so that the loop goes on.
    pub open spec fn spec_is_transient(self) -> bool {
        self == ReadError::Interrupted || self == ReadError::WouldBlock
    }

    /// Whether the failure passes by itself, so that the loop goes on.
    pub fn is_transient(&self) -> (b: bool)
        ensures
            b == self.spec_is_transient(),
    {
        match self {
            ReadError::Interrupted | ReadError::WouldBlock => true,
            ReadError::SessionClosed | ReadError::Fatal(_) => false,
        }
    }

    /// Classifies the error number of a failed read.
    pub fn from_errno(errno: i32, codes: &ErrnoCodes) -> (error: ReadError)
        ensures
            error == read_error_of(errno, *codes),
    {
        if errno == codes.eintr {
            ReadError::Interrupted
        } else if errno == codes.eagain {
            ReadError::WouldBlock
        } else if errno == codes.ebadf {
            ReadError::SessionClosed
        } else {
            ReadError::Fatal(errno)
        }
    }
}

/// What the error number of a failed read means.
pub open spec fn read_error_of(errno: i32, codes: ErrnoCodes) -> ReadError {
    if errno == codes.eintr {
        ReadError::Interrupted
    } else if errno == codes.eagain {
        ReadError::WouldBlock
    } else if errno == codes.ebadf {
        ReadError::SessionClosed
    } else {
        ReadError::Fatal(errno)
    }
}

/// What the read loop does after one read.
#[derive(Clone, Debug, PartialEq, Eq)]
pub enum ReadStep {
    /// Nothing was read for a reason that passes: read again.
    Again(ReadError),
    /// What the bytes read hold, in their order; possibly nothing. Read again
    /// when these are dealt with.
    Frames(Vec<Decoded>),
    /// Monitoring has ended: leave the loop.
    Stop(ReadError),
}

/// The mathematical value of a [`ReadStep`].
pub enum ReadStepView {
    Again(ReadError),
    Frames(Seq<Decoded>),
    Stop(ReadError),
}

impl View for ReadStep {
    type V = ReadStepView;

    open spec fn view(&self) -> ReadStepView {
        match self {
            ReadStep::Again(error) => ReadStepView::Again(*error),
            ReadStep::Frames(items) => ReadStepView::Frames(items@),
            ReadStep::Stop(error) => ReadStepView::Stop(*error),
        }
    }
}

/// How many bytes of the buffer a read that returned `result` has filled: as
/// many as it says, and never more than the buffer holds.
pub open spec fn filled(result: isize, capacity: nat) -> int
    recommends
        result >= 0,
{
    if result <= capacity {
        result as int
    } else {
        capacity as int
    }
}

/// The step that follows a read on a session. A session that was closed ends
/// the loop whatever the read returned. A failed read is tried again where the
/// failure passes and ends the loop where it does not. A read that succeeded
/// gives what its bytes hold.
pub open spec fn read_step_of(
    usable: bool,
    result: isize,
    errno: i32,
    buffer: Seq<u8>,
    codes: ErrnoCodes,
) -> ReadStepView {
    if !usable {
        ReadStepView::Stop(ReadError::SessionClosed)
    } else if result < 0 {
        let error = read_error_of(errno, codes);
        if error.spec_is_transient() {
            ReadStepView::Again(error)
        } else {
            ReadStepView::Stop(error)
        }
    } else {
        ReadStepView::Frames(frames(buffer.take(filled(result, buffer.len()))))
    }
}

/// Takes in the outcome of one read on the session: `result` is what the read
/// returned, `errno` the error number that stood after it, and `buffer` the
/// buffer that was read into.
pub fn read_events(
    session: &Session,
    result: isize,
    errno: i32,
    buffer: &[u8],
    codes: &ErrnoCodes,
) -> (step: ReadStep)
    ensures
        step@ == read_step_of(session.spec_is_usable(), result, errno, buffer@, *codes),
{
    if !session.is_usable() {
        return ReadStep::Stop(ReadError::SessionClosed);
    }
    if result < 0 {
        let error = ReadError::from_errno(errno, codes);
        if error.is_transient() {
            return ReadStep::Again(error);
        }
        return ReadStep::Stop(error);
    }
    let count: usize = if result as usize <= buffer.len() {
        result as usize
    } else {
        buffer.len()
    };
    let read = slice_subrange(buffer, 0, count);
    assert(read@ =~= buffer@.take(count as int));
    ReadStep::Frames(frame_records(read))
}

/// The path that the `k`-th descriptor was resolved to, where `resolved` lists
/// what resolving came to, one entry for each thing framed. A missing entry
/// stands for a resolution that failed.
pub open spec fn resolved_at(resolved: Seq<Option<String>>, k: int) -> Option<Seq<char>> {
    if 0 <= k < resolved.len() {
        path_view(resolved[k])
    } else {
        None
    }
}

/// What the caller receives for one thing framed: the event of a record, or
/// the fault, be it one of framing or that the record reports nothing asked for.
pub open spec fn delivery_of(item: Decoded, interest: u64, resolved: Option<Seq<char>>) -> Result<
    EventView,
    DecodeFault,
> {
    match item {
        Decoded::Record(record) => event_of(record, interest, resolved),
        Decoded::Fault(fault) => Err(fault),
    }
}

fn copy_path(path: &Option<String>) -> (copy: Option<String>)
    ensures
        path_view(copy) == path_view(*path),
{
    match path {
        Some(path) => Some(path.clone()),
        None => None,
    }
}

/// Turns what was framed into what the caller receives: one outcome for each
/// thing framed, in the same order. `interest` is what the caller asked for;
/// `resolved[k]` is the path that the descriptor of `items[k]` was resolved to,
/// or `None` where that failed or there was nothing to resolve.
pub fn dispatch(items: &Vec<Decoded>, interest: EventMask, resolved: &Vec<Option<String>>) -> (out:
    Vec<Result<Event, DecodeFault>>)
    ensures
        out@.len() == items@.len(),
        forall|k: int|
            0 <= k < items@.len() ==> outcome_view(#[trigger] out@[k]) == delivery_of(
                items@[k],
                interest.bits,
                resolved_at(resolved@, k),
            ),
{
    let mut out: Vec<Result<Event, DecodeFault>> = Vec::new();
    let mut k: usize = 0;
    while k < items.len()
        invariant
            k <= items@.len(),
            out@.len() == k,
            forall|j: int|
                0 <= j < k ==> outcome_view(#[trigger] out@[j]) == delivery_of(
                    items@[j],
                    interest.bits,
                    resolved_at(resolved@, j),
                ),
        decreases items@.len() - k,
    {
        let path = if k < resolved.len() {
            copy_path(&resolved[k])
        } else {
            None
        };
        let outcome = match &items[k] {
            Decoded::Record(record) => (*record).into_event(interest, path),
            Decoded::Fault(fault) => Err(*fault),
        };
        out.push(outcome);
        k = k + 1;
    }
    out
}

/// Only a failed read can end the loop. On a usable session a read that
/// succeeded always gives frames, whatever its bytes hold: a malformed record is
/// reported among them and the next read is made. A read that failed gives no
/// frames; it is made again exactly where the failure passes, and ends the loop
/// with that failure otherwise.
pub proof fn lemma_only_failed_reads_stop(
    result: isize,
    errno: i32,
    buffer: Seq<u8>,
    codes: ErrnoCodes,
)
    ensures
        result >= 0 ==> read_step_of(true, result, errno, buffer, codes) is Frames,
        result < 0 ==> match read_step_of(true, result, errno, buffer, codes) {
            ReadStepView::Again(error) => error == read_error_of(errno, codes)
                && error.spec_is_transient(),
            ReadStepView::Stop(error) => error == read_error_of(errno, codes)
                && !error.spec_is_transient(),
            ReadStepView::Frames(_) => false,
        },
{
}

/// A read on a descriptor that was closed ends the loop as a shutdown, never as
/// a fatal failure; and so does any read once the session itself was ended.
pub proof fn lemma_closed_session_is_a_shutdown(
    usable: bool,
    result: isize,
    errno: i32,
    buffer: Seq<u8>,
    codes: ErrnoCodes,
)
    requires
        !usable || (result < 0 && errno == codes.ebadf && errno != codes.eintr && errno
            != codes.eagain),
    ensures
        read_step_of(usable, result, errno, buffer, codes) == ReadStepView::Stop(
            ReadError::SessionClosed,
        ),
{
}

} // verus!
