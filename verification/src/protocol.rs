//! The exact result of the retry and poll disciplines, for any schedule
//! of readiness events.
//!
//! A pending operation suspends while it waits for readiness and performs
//! exactly one non-blocking attempt per wakeup.  What the environment does
//! at each wakeup is a value of [`IoEvent`]; a whole operation is then a
//! fold over a sequence of events.  The specification functions here give
//! that fold's result — the byte count or error of a retried operation,
//! the resolution of a poll entry point, the outcome and byte accounting
//! of a `write_all` loop — and the proof functions state the laws the
//! executable operations in [`crate::channel`] are held to.

use vstd::prelude::*;

use vstd::math::min;

use crate::adapter::{Adapter, Polled};
use crate::error::IoError;

verus! {

/// What the environment reports at one wakeup of a pending operation.
#[derive(Clone, Copy, Debug, PartialEq, Eq, Structural)]
pub enum IoEvent {
    /// The reactor has no readiness to report yet: the task stays
    /// suspended (or, at a poll entry point, the caller sees pending).
    NotReady,
    /// Readiness was signalled, but the attempt itself would still
    /// block: the benign race of edge-triggered delivery.  The attempt
    /// is silently re-waited, never surfaced.
    Spurious,
    /// The attempt proceeds and the handle can transfer up to this many
    /// bytes right now.
    Ready(usize),
    /// The attempt fails with this error.
    Fault(IoError),
}

/// The result of a retried operation over `events`, when `avail` bytes
/// could at most be transferred: `None` while the operation is still
/// suspended when the schedule ends, otherwise the byte count of the
/// single successful attempt or the first surfaced error.
pub open spec fn retry_outcome(a: Adapter, avail: int, events: Seq<IoEvent>) -> Option<
    Result<int, IoError>,
>
    decreases events.len(),
{
    if events.len() == 0 {
        None
    } else {
        match events[0] {
            IoEvent::NotReady => retry_outcome(a, avail, events.skip(1)),
            IoEvent::Spurious => retry_outcome(a, avail, events.skip(1)),
            IoEvent::Ready(cap) => Some(Ok(min(cap as int, avail))),
            IoEvent::Fault(e) => if a.absorbs(e) {
                retry_outcome(a, avail, events.skip(1))
            } else {
                Some(Err(e))
            },
        }
    }
}

/// The resolution of one invocation of a poll entry point: pending as
/// soon as the reactor has nothing to report, otherwise exactly as the
/// retried operation — a spurious wakeup re-polls internally and is
/// never surfaced as a completed-but-empty operation.
pub open spec fn poll_outcome(a: Adapter, avail: int, events: Seq<IoEvent>) -> Polled<
    Result<int, IoError>,
>
    decreases events.len(),
{
    if events.len() == 0 {
        Polled::Pending
    } else {
        match events[0] {
            IoEvent::NotReady => Polled::Pending,
            IoEvent::Spurious => poll_outcome(a, avail, events.skip(1)),
            IoEvent::Ready(cap) => Polled::Ready(Ok(min(cap as int, avail))),
            IoEvent::Fault(e) => if a.absorbs(e) {
                poll_outcome(a, avail, events.skip(1))
            } else {
                Polled::Ready(Err(e))
            },
        }
    }
}

/// The result of a `write_all` loop with `remaining` bytes left to
/// offer: success exactly when the whole buffer is consumed, the first
/// error otherwise, and a distinct write-zero error when an attempt
/// accepts nothing while data remains — the loop must not spin forever.
pub open spec fn write_all_outcome(a: Adapter, remaining: int, events: Seq<IoEvent>) -> Option<
    Result<(), IoError>,
>
    decreases events.len(),
{
    if remaining <= 0 {
        Some(Ok(()))
    } else if events.len() == 0 {
        None
    } else {
        match events[0] {
            IoEvent::NotReady => write_all_outcome(a, remaining, events.skip(1)),
            IoEvent::Spurious => write_all_outcome(a, remaining, events.skip(1)),
            IoEvent::Ready(cap) => if cap == 0 {
                Some(Err(IoError::WriteZero))
            } else {
                write_all_outcome(a, remaining - min(cap as int, remaining), events.skip(1))
            },
            IoEvent::Fault(e) => if a.absorbs(e) {
                write_all_outcome(a, remaining, events.skip(1))
            } else {
                Some(Err(e))
            },
        }
    }
}

/// How many bytes the same `write_all` loop offers to the handle before
/// it returns or the schedule ends.
pub open spec fn write_all_written(a: Adapter, remaining: int, events: Seq<IoEvent>) -> int
    decreases events.len(),
{
    if remaining <= 0 {
        0
    } else if events.len() == 0 {
        0
    } else {
        match events[0] {
            IoEvent::NotReady => write_all_written(a, remaining, events.skip(1)),
            IoEvent::Spurious => write_all_written(a, remaining, events.skip(1)),
            IoEvent::Ready(cap) => if cap == 0 {
                0
            } else {
                min(cap as int, remaining) + write_all_written(
                    a,
                    remaining - min(cap as int, remaining),
                    events.skip(1),
                )
            },
            IoEvent::Fault(e) => if a.absorbs(e) {
                write_all_written(a, remaining, events.skip(1))
            } else {
                0
            },
        }
    }
}

/// All of `write_all` never claims more than it was given, claims the
/// whole buffer exactly when it reports success, and has offered only a
/// proper part of it whenever it is still suspended or reports an error:
/// there is no partial silent completion.
pub proof fn lemma_write_all_accounting(a: Adapter, remaining: int, events: Seq<IoEvent>)
    requires
        remaining >= 0,
    ensures
        0 <= write_all_written(a, remaining, events) <= remaining,
        write_all_outcome(a, remaining, events) == Some(Ok::<(), IoError>(())) ==> write_all_written(
            a,
            remaining,
            events,
        ) == remaining,
        write_all_outcome(a, remaining, events) is None ==> write_all_written(a, remaining, events)
            < remaining,
        write_all_outcome(a, remaining, events) matches Some(Err(_)) ==> write_all_written(
            a,
            remaining,
            events,
        ) < remaining,
    decreases events.len(),
{
    if remaining == 0 {
    } else if events.len() == 0 {
    } else {
        match events[0] {
            IoEvent::NotReady => lemma_write_all_accounting(a, remaining, events.skip(1)),
            IoEvent::Spurious => lemma_write_all_accounting(a, remaining, events.skip(1)),
            IoEvent::Ready(cap) => {
                if cap > 0 {
                    lemma_write_all_accounting(
                        a,
                        remaining - min(cap as int, remaining),
                        events.skip(1),
                    );
                }
            },
            IoEvent::Fault(e) => {
                if a.absorbs(e) {
                    lemma_write_all_accounting(a, remaining, events.skip(1));
                }
            },
        }
    }
}

/// Consuming the front event of a suffix steps to the next suffix.
pub proof fn lemma_skip_step(events: Seq<IoEvent>, i: int)
    requires
        0 <= i < events.len(),
    ensures
        events.skip(i)[0] == events[i],
        events.skip(i).skip(1) == events.skip(i + 1),
{
    assert(events.skip(i).skip(1) =~= events.skip(i + 1));
}

/// The bytes a retried read yields out of the stream `s` when a buffer
/// of `max` bytes is offered: the front of the stream, as far as the
/// completed attempt reached.  Empty while no attempt has completed.
pub open spec fn read_taken(s: Seq<u8>, max: int, a: Adapter, events: Seq<IoEvent>) -> Seq<u8> {
    match retry_outcome(a, min(max, s.len() as int), events) {
        Some(Ok(n)) => s.take(n),
        _ => Seq::empty(),
    }
}

/// The stream left behind by the same retried read: untouched unless an
/// attempt completed, in which case exactly the yielded bytes are gone.
pub open spec fn stream_after_read(s: Seq<u8>, max: int, a: Adapter, events: Seq<IoEvent>) -> Seq<
    u8,
> {
    match retry_outcome(a, min(max, s.len() as int), events) {
        Some(Ok(n)) => s.skip(n),
        _ => s,
    }
}

/// Cancelling a pending read before any attempt completed drops no
/// bytes: the stream is exactly as it was, and a fresh read then yields
/// the same bytes the cancelled one would have yielded had it never been
/// started.
pub proof fn lemma_cancelled_read_loses_no_bytes(
    a: Adapter,
    s: Seq<u8>,
    max: int,
    cancelled: Seq<IoEvent>,
    fresh: Seq<IoEvent>,
)
    requires
        retry_outcome(a, min(max, s.len() as int), cancelled) is None,
    ensures
        stream_after_read(s, max, a, cancelled) == s,
        read_taken(stream_after_read(s, max, a, cancelled), max, a, fresh) == read_taken(
            s,
            max,
            a,
            fresh,
        ),
{
}

/// The list of buffer segments a single vectored transfer submits to
/// the device, flattened in order.
pub open spec fn flat(bufs: Seq<Seq<u8>>) -> Seq<u8>
    decreases bufs.len(),
{
    if bufs.len() == 0 {
        Seq::empty()
    } else {
        bufs.first() + flat(bufs.drop_first())
    }
}

/// The byte views of a list of owned buffers.
pub open spec fn views(bufs: Seq<Vec<u8>>) -> Seq<Seq<u8>> {
    bufs.map_values(|b: Vec<u8>| b@)
}

/// What one vectored write offers the device: every segment, flattened,
/// with the segment count saturated at the platform maximum, on the
/// backend with vectored support; only the first segment on the backend
/// without it.
pub open spec fn submitted(a: Adapter, bufs: Seq<Seq<u8>>) -> Seq<u8> {
    if a.vectored() {
        flat(bufs.take(min(bufs.len() as int, i32::MAX as int)))
    } else if bufs.len() == 0 {
        Seq::empty()
    } else {
        bufs[0]
    }
}

/// Without vectored support, a vectored write consumes nothing beyond
/// the first buffer segment, whatever the rest of the list holds.
pub proof fn lemma_vectored_degrade(a: Adapter, bufs: Seq<Seq<u8>>)
    requires
        !a.vectored(),
    ensures
        bufs.len() == 0 ==> submitted(a, bufs) == Seq::<u8>::empty(),
        bufs.len() > 0 ==> submitted(a, bufs) == bufs[0],
{
}

/// Appending one segment to a list appends its bytes to the flattening.
pub proof fn lemma_flat_push(bufs: Seq<Seq<u8>>, b: Seq<u8>)
    ensures
        flat(bufs.push(b)) == flat(bufs) + b,
    decreases bufs.len(),
{
    if bufs.len() == 0 {
        assert(bufs.push(b).drop_first() =~= Seq::<Seq<u8>>::empty());
        assert(flat(Seq::<Seq<u8>>::empty()) == Seq::<u8>::empty());
        assert(flat(bufs.push(b)) == b + Seq::<u8>::empty());
        assert(flat(bufs) == Seq::<u8>::empty());
        assert(b + Seq::<u8>::empty() =~= Seq::<u8>::empty() + b);
    } else {
        assert(bufs.push(b).first() == bufs.first());
        assert(bufs.push(b).drop_first() =~= bufs.drop_first().push(b));
        lemma_flat_push(bufs.drop_first(), b);
        assert(flat(bufs.push(b)) == bufs.first() + (flat(bufs.drop_first()) + b));
        assert(bufs.first() + (flat(bufs.drop_first()) + b) =~= (bufs.first() + flat(
            bufs.drop_first(),
        )) + b);
        assert(flat(bufs) == bufs.first() + flat(bufs.drop_first()));
    }
}

/// The flattening of one more segment of a prefix.
pub proof fn lemma_flat_take_snoc(bufs: Seq<Seq<u8>>, i: int)
    requires
        0 <= i < bufs.len(),
    ensures
        flat(bufs.take(i + 1)) == flat(bufs.take(i)) + bufs[i],
{
    assert(bufs.take(i + 1) =~= bufs.take(i).push(bufs[i]));
    lemma_flat_push(bufs.take(i), bufs[i]);
}

/// How many buffer segments of a vectored read the device fills at all:
/// every segment, up to the platform maximum, with vectored support;
/// only the first without it.
pub open spec fn participating_count(a: Adapter, segments: int) -> int {
    if a.vectored() {
        min(segments, i32::MAX as int)
    } else {
        min(segments, 1)
    }
}

/// The total capacity of the first `i` requested segment sizes.
pub open spec fn size_sum(sizes: Seq<usize>, i: int) -> int
    decreases i,
{
    if i <= 0 {
        0
    } else {
        size_sum(sizes, i - 1) + sizes[i - 1]
    }
}

/// How many bytes a greedy in-order fill with `budget` bytes has placed
/// before segment `i`: each segment is filled to its size while budget
/// remains.
pub open spec fn taken_before(sizes: Seq<usize>, budget: int, i: int) -> int
    decreases i,
{
    if i <= 0 {
        0
    } else {
        let before = taken_before(sizes, budget, i - 1);
        before + min(sizes[i - 1] as int, budget - before)
    }
}

/// A greedy fill consumes exactly the smaller of its budget and the
/// capacity of the segments it may touch.
pub proof fn lemma_taken_before_total(sizes: Seq<usize>, budget: int, i: int)
    requires
        budget >= 0,
        0 <= i,
    ensures
        taken_before(sizes, budget, i) == min(budget, size_sum(sizes, i)),
    decreases i,
{
    if i > 0 {
        lemma_taken_before_total(sizes, budget, i - 1);
    }
}

/// Prefix capacities only grow.
pub proof fn lemma_size_sum_mono(sizes: Seq<usize>, i: int, j: int)
    requires
        0 <= i <= j,
    ensures
        size_sum(sizes, i) <= size_sum(sizes, j),
    decreases j - i,
{
    if i < j {
        lemma_size_sum_mono(sizes, i, j - 1);
    }
}

/// Clamping the budget of a greedy fill to the total it consumes anyway
/// moves no byte: the fill is determined by that total alone.
pub proof fn lemma_taken_before_clamp(sizes: Seq<usize>, budget: int, count: int, i: int, j: int)
    requires
        budget >= 0,
        0 <= j <= i,
        count == taken_before(sizes, budget, i),
    ensures
        taken_before(sizes, count, j) == taken_before(sizes, budget, j),
{
    lemma_taken_before_total(sizes, budget, i);
    lemma_taken_before_total(sizes, budget, j);
    lemma_size_sum_mono(sizes, 0, i);
    assert(count >= 0);
    lemma_taken_before_total(sizes, count, j);
    lemma_size_sum_mono(sizes, j, i);
}

} // verus!
