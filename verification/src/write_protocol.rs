//! The asynchronous buffer-write protocol.
//!
//! A write of typed elements into a GPU buffer goes through a fixed
//! sequence: request a write-mapping of the target byte range, have the
//! driver's callback cast the mapped bytes to elements, apply the write,
//! unmap, signal completion through a single-use channel, and poll the
//! device so the callback actually runs. The driver, the channel and the
//! polling live outside; the functions here make every decision along that
//! sequence, so each error case is exact and the zero-length shortcut is
//! guaranteed never to touch the mapping API.

use vstd::arithmetic::div_mod::lemma_mod_multiples_basic;
use vstd::prelude::*;

verus! {

/// The distinct failures of one buffer write, each reported with context.
#[derive(Debug, Clone, Copy, PartialEq, Eq, Structural)]
pub enum WriteErrorKind {
    /// The driver reported that the mapping failed.
    MapFailed,
    /// The mapped byte range does not divide evenly into the element type.
    CastMismatch,
    /// The completion signal could not be sent: the receiver was dropped.
    SendFailed,
    /// The channel closed without a value: the operation was cancelled.
    Cancelled,
}

/// The first step of a write of elements `start..end`.
pub enum WriteBegin {
    /// The range is empty: succeed at once, without mapping anything.
    NothingToDo,
    /// Request a write-mapping of this byte range, then poll the device.
    MapRange { byte_start: u64, byte_end: u64 },
}

/// Decides how a write of the element range `start..end` begins.
///
/// An empty range is a documented no-op that succeeds without invoking the
/// underlying map operation. A non-empty range maps exactly the bytes the
/// elements occupy.
pub fn begin_write(elem_size: u64, start: u64, end: u64, buffer_len: u64) -> (r: WriteBegin)
    requires
        elem_size > 0,
        start <= end,
        end <= buffer_len,
        buffer_len * elem_size <= u64::MAX,
    ensures
        start == end <==> r is NothingToDo,
        r matches WriteBegin::MapRange { byte_start, byte_end } ==> byte_start == start * elem_size
            && byte_end == end * elem_size && byte_start < byte_end,
{
    proof {
        assert(start * elem_size <= end * elem_size && end * elem_size <= buffer_len * elem_size)
            by (nonlinear_arith)
            requires
                elem_size > 0,
                start <= end,
                end <= buffer_len,
        ;
        if start < end {
            assert(start * elem_size < end * elem_size) by (nonlinear_arith)
                requires
                    elem_size > 0,
                    start < end,
            ;
        }
    }
    if start == end {
        WriteBegin::NothingToDo
    } else {
        WriteBegin::MapRange { byte_start: start * elem_size, byte_end: end * elem_size }
    }
}

/// Decides what follows the driver's map callback.
///
/// A failed mapping aborts the write. A successful one casts the mapped
/// bytes to elements, which fails exactly when the byte length does not
/// divide evenly into the element size; otherwise the caller writes the
/// returned number of elements, unmaps, and signals completion.
pub fn on_map_ready(ok: bool, byte_len: u64, elem_size: u64) -> (r: Result<u64, WriteErrorKind>)
    requires
        elem_size > 0,
    ensures
        !ok ==> (r matches Err(e) && e == WriteErrorKind::MapFailed),
        ok ==> (r is Ok <==> byte_len % elem_size == 0),
        r matches Ok(count) ==> count == byte_len / elem_size,
        ok && byte_len % elem_size != 0 ==> (r matches Err(e) && e
            == WriteErrorKind::CastMismatch),
{
    if !ok {
        Err(WriteErrorKind::MapFailed)
    } else if byte_len % elem_size == 0 {
        Ok(byte_len / elem_size)
    } else {
        Err(WriteErrorKind::CastMismatch)
    }
}

/// The byte range `begin_write` maps always casts cleanly back to exactly
/// the requested elements: the cast-mismatch failure cannot arise from a
/// range this protocol requested.
pub proof fn lemma_mapped_range_casts(elem_size: u64, start: u64, end: u64)
    requires
        elem_size > 0,
        start <= end,
        end * elem_size <= u64::MAX,
    ensures
        (end * elem_size - start * elem_size) % (elem_size as int) == 0,
        (end * elem_size - start * elem_size) / (elem_size as int) == end - start,
{
    assert(end * elem_size - start * elem_size == (end - start) * elem_size) by (nonlinear_arith);
    lemma_mod_multiples_basic(end - start, elem_size as int);
    assert((end - start) * elem_size / (elem_size as int) == end - start) by (nonlinear_arith)
        requires
            elem_size > 0,
    ;
}

/// How a write session opens.
pub enum SessionStart {
    /// The element range was empty: the write already succeeded, and no
    /// mapping was requested.
    Immediate,
    /// A mapping of this byte range was requested; the session tracks
    /// what the caller owes the protocol before the result can exist.
    Mapping { session: WriteSession, byte_start: u64, byte_end: u64 },
}

/// The caller's side of one in-flight write.
///
/// The mapping callback only runs while the device is driven, so after
/// requesting the mapping the caller owes a blocking poll before waiting
/// on the completion channel — skipping it would wait forever. The
/// session makes that debt explicit: `complete` is only available once
/// `poll_done` has recorded the poll.
pub struct WriteSession {
    polled: bool,
}

impl WriteSession {
    /// Whether the device has been driven since the mapping was requested.
    pub closed spec fn spec_polled(self) -> bool {
        self.polled
    }

    /// Records that the device was polled to completion, running any
    /// pending map callbacks.
    pub fn poll_done(&mut self)
        requires
            !old(self).spec_polled(),
        ensures
            final(self).spec_polled(),
    {
        self.polled = true;
    }

    /// Concludes the session from what the completion channel yielded;
    /// only once the device has been driven, or nothing would ever
    /// arrive.
    pub fn complete(self, received: bool) -> (r: Result<(), WriteErrorKind>)
        requires
            self.spec_polled(),
        ensures
            r is Ok <==> received,
            r matches Err(e) ==> e == WriteErrorKind::Cancelled,
    {
        on_completion(received)
    }
}

/// Opens a write session for the element range `start..end`: an empty
/// range succeeds immediately, without mapping; otherwise the caller
/// requests a mapping of exactly the returned byte range and owes a poll.
pub fn begin_session(elem_size: u64, start: u64, end: u64, buffer_len: u64) -> (r: SessionStart)
    requires
        elem_size > 0,
        start <= end,
        end <= buffer_len,
        buffer_len * elem_size <= u64::MAX,
    ensures
        start == end <==> r is Immediate,
        r matches SessionStart::Mapping { session, byte_start, byte_end } ==> byte_start == start
            * elem_size && byte_end == end * elem_size && byte_start < byte_end
            && !session.spec_polled(),
{
    match begin_write(elem_size, start, end, buffer_len) {
        WriteBegin::NothingToDo => SessionStart::Immediate,
        WriteBegin::MapRange { byte_start, byte_end } => SessionStart::Mapping {
            session: WriteSession { polled: false },
            byte_start,
            byte_end,
        },
    }
}

/// Decides how a completion signal that could not be sent is reported:
/// the receiving side was dropped.
pub fn on_signal_sent(sent: bool) -> (r: Result<(), WriteErrorKind>)
    ensures
        r is Ok <==> sent,
        r matches Err(e) ==> e == WriteErrorKind::SendFailed,
{
    if sent {
        Ok(())
    } else {
        Err(WriteErrorKind::SendFailed)
    }
}

/// Decides how the waiting side concludes: a closed channel without a
/// value means the operation was cancelled.
pub fn on_completion(received: bool) -> (r: Result<(), WriteErrorKind>)
    ensures
        r is Ok <==> received,
        r matches Err(e) ==> e == WriteErrorKind::Cancelled,
{
    if received {
        Ok(())
    } else {
        Err(WriteErrorKind::Cancelled)
    }
}

} // verus!
