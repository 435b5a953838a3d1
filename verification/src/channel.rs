//! An executable model of one direction of a serial line, and the
//! verified read, write and poll operations over it.
//!
//! A [`Channel`] holds the bytes that the writing side has handed to the
//! device and the reading side has not yet received, oldest first.  The
//! operations follow the retry discipline of [`crate::adapter`] exactly:
//! each wakeup of the environment is one [`IoEvent`], and every
//! operation's contract equates its result and its effect on the stream
//! with the corresponding specification fold of [`crate::protocol`].

use vstd::prelude::*;

use vstd::math::min;

use crate::adapter::Adapter;
use crate::adapter::Outcome;
use crate::adapter::Polled;
use crate::adapter::Step;
use crate::adapter::saturate_vec_count;
use crate::error::IoError;
use crate::protocol::IoEvent;
use crate::protocol::flat;
use crate::protocol::lemma_flat_push;
use crate::protocol::lemma_flat_take_snoc;
use crate::protocol::lemma_skip_step;
use crate::protocol::lemma_taken_before_clamp;
use crate::protocol::lemma_taken_before_total;
use crate::protocol::participating_count;
use crate::protocol::poll_outcome;
use crate::protocol::read_taken;
use crate::protocol::retry_outcome;
use crate::protocol::size_sum;
use crate::protocol::stream_after_read;
use crate::protocol::submitted;
use crate::protocol::taken_before;
use crate::protocol::views;
use crate::protocol::write_all_outcome;
use crate::protocol::write_all_written;

verus! {

/// One direction of a serial line: the bytes in flight from the writer
/// to the reader, oldest first.
pub struct Channel {
    data: Vec<u8>,
}

impl View for Channel {
    type V = Seq<u8>;

    closed spec fn view(&self) -> Seq<u8> {
        self.data@
    }
}

impl Channel {
    /// A line with nothing in flight.
    pub fn new() -> (c: Channel)
        ensures
            c@ == Seq::<u8>::empty(),
    {
        Channel { data: Vec::new() }
    }

    /// How many bytes are in flight.
    pub fn len(&self) -> (n: usize)
        ensures
            n == self@.len(),
    {
        self.data.len()
    }

    /// One non-blocking write attempt: the device accepts up to `cap`
    /// bytes this instant, and exactly the bytes it reports accepted
    /// enter the stream — the count never overstates the transfer.
    pub fn try_write(&mut self, data: &Vec<u8>, offset: usize, cap: usize) -> (n: usize)
        requires
            offset <= data@.len(),
        ensures
            n as int == min(cap as int, data@.len() - offset),
            final(self)@ == old(self)@ + data@.subrange(offset as int, offset + n),
    {
        let remaining = data.len() - offset;
        let n = if cap <= remaining {
            cap
        } else {
            remaining
        };
        let mut i: usize = 0;
        while i < n
            invariant
                i <= n,
                offset + n <= data@.len(),
                data@.len() <= usize::MAX,
                self@ == old(self)@ + data@.subrange(offset as int, offset + i),
            decreases n - i,
        {
            self.data.push(data[offset + i]);
            proof {
                assert(data@.subrange(offset as int, offset + i + 1) =~= data@.subrange(
                    offset as int,
                    offset + i,
                ).push(data@[offset + i]));
                assert(self@ =~= old(self)@ + data@.subrange(offset as int, offset + i + 1));
            }
            i = i + 1;
        }
        n
    }

    /// One non-blocking read attempt into a buffer of `max` bytes: the
    /// device delivers up to `cap` bytes, and exactly the bytes handed
    /// out leave the front of the stream.  A zero-byte result is a valid
    /// outcome, not an end-of-stream: a serial line has none.
    pub fn try_read(&mut self, max: usize, cap: usize) -> (out: Vec<u8>)
        ensures
            out@.len() == min(cap as int, min(max as int, old(self)@.len() as int)),
            out@ == old(self)@.take(out@.len() as int),
            final(self)@ == old(self)@.skip(out@.len() as int),
    {
        let avail = self.data.len();
        let m = if max <= avail {
            max
        } else {
            avail
        };
        let n = if cap <= m {
            cap
        } else {
            m
        };
        let mut out: Vec<u8> = Vec::new();
        let mut i: usize = 0;
        while i < n
            invariant
                i <= n,
                n <= self@.len(),
                self@ == old(self)@,
                out@ == self@.take(i as int),
            decreases n - i,
        {
            out.push(self.data[i]);
            proof {
                assert(self@.take(i + 1) =~= self@.take(i as int).push(self@[i as int]));
            }
            i = i + 1;
        }
        let mut rest: Vec<u8> = Vec::new();
        let mut j: usize = n;
        while j < self.data.len()
            invariant
                n <= j <= self@.len(),
                self@ == old(self)@,
                rest@ == self@.subrange(n as int, j as int),
            decreases self@.len() - j,
        {
            rest.push(self.data[j]);
            proof {
                assert(self@.subrange(n as int, j + 1) =~= self@.subrange(n as int, j as int).push(
                    self@[j as int],
                ));
            }
            j = j + 1;
        }
        self.data = rest;
        proof {
            assert(self@ =~= old(self)@.skip(n as int));
            assert(out@ =~= old(self)@.take(n as int));
        }
        out
    }

    /// An asynchronous read: suspend until readiness, attempt once,
    /// absorb spurious wakeups, and hand out whatever the single
    /// successful attempt delivered.  `None` models the operation still
    /// suspended when the schedule ends — an abandoned read has then
    /// moved nothing, so cancellation drops no bytes.
    pub fn read(&mut self, a: &Adapter, max: usize, events: &Vec<IoEvent>) -> (r: Option<
        Result<Vec<u8>, IoError>,
    >)
        ensures
            final(self)@ == stream_after_read(old(self)@, max as int, *a, events@),
            ({
                let o = retry_outcome(*a, min(max as int, old(self)@.len() as int), events@);
                &&& (o is None ==> r is None)
                &&& (o matches Some(Err(e)) ==> r == Some(Err::<Vec<u8>, IoError>(e)))
                &&& (o matches Some(Ok(n)) ==> (r matches Some(Ok(out)) && out@ == read_taken(
                    old(self)@,
                    max as int,
                    *a,
                    events@,
                ) && out@.len() == n))
            }),
    {
        let ghost avail = min(max as int, old(self)@.len() as int);
        proof {
            assert(events@.skip(0) =~= events@);
        }
        let mut i: usize = 0;
        while i < events.len()
            invariant
                i <= events@.len(),
                self@ == old(self)@,
                avail == min(max as int, old(self)@.len() as int),
                retry_outcome(*a, avail, events@) == retry_outcome(
                    *a,
                    avail,
                    events@.skip(i as int),
                ),
            decreases events@.len() - i,
        {
            proof {
                lemma_skip_step(events@, i as int);
            }
            match events[i] {
                IoEvent::NotReady => {
                    i = i + 1;
                },
                IoEvent::Spurious => {
                    match a.next_step(Outcome::WouldBlock) {
                        Step::Retry => {
                            i = i + 1;
                        },
                        _ => {
                            unreached()
                        },
                    }
                },
                IoEvent::Ready(cap) => {
                    let out = self.try_read(max, cap);
                    proof {
                        assert(retry_outcome(*a, avail, events@.skip(i as int)) == Some(
                            Ok::<int, IoError>(min(cap as int, avail)),
                        ));
                    }
                    match a.next_step(Outcome::Transferred(out.len())) {
                        Step::Done(_) => {
                            return Some(Ok(out));
                        },
                        _ => {
                            unreached()
                        },
                    }
                },
                IoEvent::Fault(e) => {
                    match a.next_step(Outcome::Error(e)) {
                        Step::Fail(err) => {
                            return Some(Err(err));
                        },
                        _ => {
                            i = i + 1;
                        },
                    }
                },
            }
        }
        proof {
            assert(events@.skip(events@.len() as int) =~= Seq::<IoEvent>::empty());
        }
        None
    }

    /// An asynchronous write of `data[offset..]`: suspend until
    /// readiness, attempt once, absorb spurious wakeups.  A completed
    /// attempt's count is exactly the number of bytes that entered the
    /// stream; while the operation is still suspended, nothing has.
    pub fn write(&mut self, a: &Adapter, data: &Vec<u8>, offset: usize, events: &Vec<IoEvent>) -> (r:
        Option<Result<usize, IoError>>)
        requires
            offset <= data@.len(),
        ensures
            ({
                let o = retry_outcome(*a, data@.len() - offset, events@);
                &&& (o is None ==> r is None && final(self)@ == old(self)@)
                &&& (o matches Some(Err(e)) ==> r == Some(Err::<usize, IoError>(e))
                    && final(self)@ == old(self)@)
                &&& (o matches Some(Ok(n)) ==> r == Some(Ok::<usize, IoError>(n as usize))
                    && final(self)@ == old(self)@ + data@.subrange(offset as int, offset + n))
            }),
    {
        let ghost avail = data@.len() - offset;
        proof {
            assert(events@.skip(0) =~= events@);
        }
        let mut i: usize = 0;
        while i < events.len()
            invariant
                i <= events@.len(),
                offset <= data@.len(),
                self@ == old(self)@,
                avail == data@.len() - offset,
                retry_outcome(*a, avail, events@) == retry_outcome(
                    *a,
                    avail,
                    events@.skip(i as int),
                ),
            decreases events@.len() - i,
        {
            proof {
                lemma_skip_step(events@, i as int);
            }
            match events[i] {
                IoEvent::NotReady => {
                    i = i + 1;
                },
                IoEvent::Spurious => {
                    match a.next_step(Outcome::WouldBlock) {
                        Step::Retry => {
                            i = i + 1;
                        },
                        _ => {
                            unreached()
                        },
                    }
                },
                IoEvent::Ready(cap) => {
                    let n = self.try_write(data, offset, cap);
                    proof {
                        assert(retry_outcome(*a, avail, events@.skip(i as int)) == Some(
                            Ok::<int, IoError>(min(cap as int, avail)),
                        ));
                    }
                    match a.next_step(Outcome::Transferred(n)) {
                        Step::Done(_) => {
                            return Some(Ok(n));
                        },
                        _ => {
                            unreached()
                        },
                    }
                },
                IoEvent::Fault(e) => {
                    match a.next_step(Outcome::Error(e)) {
                        Step::Fail(err) => {
                            return Some(Err(err));
                        },
                        _ => {
                            i = i + 1;
                        },
                    }
                },
            }
        }
        proof {
            assert(events@.skip(events@.len() as int) =~= Seq::<IoEvent>::empty());
        }
        None
    }

    /// Write the whole of `data`, calling one write attempt per wakeup
    /// until everything is consumed or an error surfaces.  Success is
    /// reported only with the full buffer in the stream; an attempt that
    /// accepts zero bytes while data remains surfaces the distinct
    /// write-zero error instead of looping forever.
    pub fn write_all(&mut self, a: &Adapter, data: &Vec<u8>, events: &Vec<IoEvent>) -> (r: Option<
        Result<(), IoError>,
    >)
        ensures
            r == write_all_outcome(*a, data@.len() as int, events@),
            final(self)@ == old(self)@ + data@.take(
                write_all_written(*a, data@.len() as int, events@),
            ),
    {
        let ghost total = data@.len() as int;
        if data.len() == 0 {
            proof {
                assert(old(self)@ + data@.take(0) =~= old(self)@);
            }
            return Some(Ok(()));
        }
        proof {
            assert(events@.skip(0) =~= events@);
        }
        let mut written: usize = 0;
        let mut i: usize = 0;
        while i < events.len()
            invariant
                i <= events@.len(),
                written < data@.len(),
                data@.len() <= usize::MAX,
                total == data@.len() as int,
                self@ == old(self)@ + data@.take(written as int),
                write_all_outcome(*a, total, events@) == write_all_outcome(
                    *a,
                    total - written,
                    events@.skip(i as int),
                ),
                write_all_written(*a, total, events@) == written + write_all_written(
                    *a,
                    total - written,
                    events@.skip(i as int),
                ),
            decreases events@.len() - i,
        {
            proof {
                lemma_skip_step(events@, i as int);
            }
            match events[i] {
                IoEvent::NotReady => {
                    i = i + 1;
                },
                IoEvent::Spurious => {
                    match a.next_step(Outcome::WouldBlock) {
                        Step::Retry => {
                            i = i + 1;
                        },
                        _ => {
                            unreached()
                        },
                    }
                },
                IoEvent::Ready(cap) => {
                    let n = self.try_write(data, written, cap);
                    if n == 0 {
                        proof {
                            assert(write_all_outcome(*a, total - written, events@.skip(i as int))
                                == Some(Err::<(), IoError>(IoError::WriteZero)));
                            assert(write_all_written(*a, total - written, events@.skip(i as int))
                                == 0);
                            assert(data@.subrange(written as int, written as int) =~= Seq::<
                                u8,
                            >::empty());
                            assert((old(self)@ + data@.take(written as int)) + Seq::<u8>::empty()
                                =~= old(self)@ + data@.take(written as int));
                        }
                        return Some(Err(IoError::WriteZero));
                    }
                    let new_written = written + n;
                    proof {
                        assert(cap > 0);
                        assert(write_all_outcome(*a, total - written, events@.skip(i as int))
                            == write_all_outcome(
                            *a,
                            total - new_written,
                            events@.skip(i as int + 1),
                        ));
                        assert(write_all_written(*a, total - written, events@.skip(i as int)) == n
                            + write_all_written(*a, total - new_written, events@.skip(i as int + 1)));
                        assert(data@.take(written as int) + data@.subrange(
                            written as int,
                            written + n,
                        ) =~= data@.take(new_written as int));
                        assert((old(self)@ + data@.take(written as int)) + data@.subrange(
                            written as int,
                            written + n,
                        ) =~= old(self)@ + data@.take(new_written as int));
                    }
                    written = new_written;
                    if written == data.len() {
                        proof {
                            assert(write_all_outcome(*a, total - written, events@.skip(i as int + 1))
                                == Some(Ok::<(), IoError>(())));
                            assert(write_all_written(*a, total - written, events@.skip(i as int + 1))
                                == 0);
                            assert(data@.take(total) =~= data@);
                        }
                        return Some(Ok(()));
                    }
                    i = i + 1;
                },
                IoEvent::Fault(e) => {
                    match a.next_step(Outcome::Error(e)) {
                        Step::Fail(err) => {
                            return Some(Err(err));
                        },
                        _ => {
                            i = i + 1;
                        },
                    }
                },
            }
        }
        proof {
            assert(events@.skip(events@.len() as int) =~= Seq::<IoEvent>::empty());
        }
        None
    }

    /// The poll-style read entry point: poll the readiness registration,
    /// suspend the caller on pending, and on readiness attempt once.  A
    /// spurious wakeup re-polls internally — it is never surfaced as a
    /// completed-but-empty operation — and nothing leaves the stream
    /// while the result is pending.
    pub fn poll_read(&mut self, a: &Adapter, max: usize, events: &Vec<IoEvent>) -> (r: Polled<
        Result<Vec<u8>, IoError>,
    >)
        ensures
            ({
                let o = poll_outcome(*a, min(max as int, old(self)@.len() as int), events@);
                &&& (o is Pending ==> r is Pending && final(self)@ == old(self)@)
                &&& (o matches Polled::Ready(Err(e)) ==> r == Polled::Ready(
                    Err::<Vec<u8>, IoError>(e),
                ) && final(self)@ == old(self)@)
                &&& (o matches Polled::Ready(Ok(n)) ==> (r matches Polled::Ready(Ok(out))
                    && out@ == old(self)@.take(n) && final(self)@ == old(self)@.skip(n)))
            }),
    {
        let ghost avail = min(max as int, old(self)@.len() as int);
        proof {
            assert(events@.skip(0) =~= events@);
        }
        let mut i: usize = 0;
        while i < events.len()
            invariant
                i <= events@.len(),
                self@ == old(self)@,
                avail == min(max as int, old(self)@.len() as int),
                poll_outcome(*a, avail, events@) == poll_outcome(
                    *a,
                    avail,
                    events@.skip(i as int),
                ),
            decreases events@.len() - i,
        {
            proof {
                lemma_skip_step(events@, i as int);
            }
            match events[i] {
                IoEvent::NotReady => {
                    return Polled::Pending;
                },
                IoEvent::Spurious => {
                    match a.next_step(Outcome::WouldBlock) {
                        Step::Retry => {
                            i = i + 1;
                        },
                        _ => {
                            unreached()
                        },
                    }
                },
                IoEvent::Ready(cap) => {
                    let out = self.try_read(max, cap);
                    proof {
                        assert(poll_outcome(*a, avail, events@.skip(i as int)) == Polled::Ready(
                            Ok::<int, IoError>(min(cap as int, avail)),
                        ));
                    }
                    match a.next_step(Outcome::Transferred(out.len())) {
                        Step::Done(_) => {
                            return Polled::Ready(Ok(out));
                        },
                        _ => {
                            unreached()
                        },
                    }
                },
                IoEvent::Fault(e) => {
                    match a.next_step(Outcome::Error(e)) {
                        Step::Fail(err) => {
                            return Polled::Ready(Err(err));
                        },
                        _ => {
                            i = i + 1;
                        },
                    }
                },
            }
        }
        proof {
            assert(events@.skip(events@.len() as int) =~= Seq::<IoEvent>::empty());
        }
        Polled::Pending
    }

    /// The poll-style write entry point, with the same discipline as
    /// [`Channel::poll_read`]: pending surfaces no transfer, a spurious
    /// wakeup is re-polled internally, and a resolved write's count is
    /// exactly the number of bytes that entered the stream.
    pub fn poll_write(&mut self, a: &Adapter, data: &Vec<u8>, events: &Vec<IoEvent>) -> (r: Polled<
        Result<usize, IoError>,
    >)
        ensures
            ({
                let o = poll_outcome(*a, data@.len() as int, events@);
                &&& (o is Pending ==> r is Pending && final(self)@ == old(self)@)
                &&& (o matches Polled::Ready(Err(e)) ==> r == Polled::Ready(
                    Err::<usize, IoError>(e),
                ) && final(self)@ == old(self)@)
                &&& (o matches Polled::Ready(Ok(n)) ==> r == Polled::Ready(
                    Ok::<usize, IoError>(n as usize),
                ) && final(self)@ == old(self)@ + data@.take(n))
            }),
    {
        let ghost avail = data@.len() as int;
        proof {
            assert(events@.skip(0) =~= events@);
        }
        let mut i: usize = 0;
        while i < events.len()
            invariant
                i <= events@.len(),
                self@ == old(self)@,
                avail == data@.len() as int,
                poll_outcome(*a, avail, events@) == poll_outcome(
                    *a,
                    avail,
                    events@.skip(i as int),
                ),
            decreases events@.len() - i,
        {
            proof {
                lemma_skip_step(events@, i as int);
            }
            match events[i] {
                IoEvent::NotReady => {
                    return Polled::Pending;
                },
                IoEvent::Spurious => {
                    match a.next_step(Outcome::WouldBlock) {
                        Step::Retry => {
                            i = i + 1;
                        },
                        _ => {
                            unreached()
                        },
                    }
                },
                IoEvent::Ready(cap) => {
                    let n = self.try_write(data, 0, cap);
                    proof {
                        assert(poll_outcome(*a, avail, events@.skip(i as int)) == Polled::Ready(
                            Ok::<int, IoError>(min(cap as int, avail)),
                        ));
                        assert(data@.subrange(0, n as int) =~= data@.take(n as int));
                    }
                    match a.next_step(Outcome::Transferred(n)) {
                        Step::Done(_) => {
                            return Polled::Ready(Ok(n));
                        },
                        _ => {
                            unreached()
                        },
                    }
                },
                IoEvent::Fault(e) => {
                    match a.next_step(Outcome::Error(e)) {
                        Step::Fail(err) => {
                            return Polled::Ready(Err(err));
                        },
                        _ => {
                            i = i + 1;
                        },
                    }
                },
            }
        }
        proof {
            assert(events@.skip(events@.len() as int) =~= Seq::<IoEvent>::empty());
        }
        Polled::Pending
    }

    /// One non-blocking vectored write attempt: submit what the backend
    /// submits — every segment, flattened and capped at the platform's
    /// segment maximum, or only the first segment without vectored
    /// support — and accept up to `cap` bytes of it.
    fn try_write_vectored(&mut self, a: &Adapter, bufs: &Vec<Vec<u8>>, cap: usize) -> (n: usize)
        ensures
            n as int == min(cap as int, submitted(*a, views(bufs@)).len() as int),
            final(self)@ == old(self)@ + submitted(*a, views(bufs@)).take(n as int),
    {
        match a {
            Adapter::Overlapped => {
                if bufs.len() == 0 {
                    proof {
                        assert(submitted(*a, views(bufs@)) == Seq::<u8>::empty());
                        assert(old(self)@ + Seq::<u8>::empty().take(0) =~= old(self)@);
                        assert(self@ =~= old(self)@ + submitted(*a, views(bufs@)).take(0));
                    }
                    0
                } else {
                    let n = self.try_write(&bufs[0], 0, cap);
                    proof {
                        assert(views(bufs@)[0] == bufs@[0]@);
                        assert(submitted(*a, views(bufs@)) == bufs@[0]@);
                        assert(bufs@[0]@.subrange(0, n as int) =~= bufs@[0]@.take(n as int));
                    }
                    n
                }
            },
            Adapter::Readiness => {
                let count = saturate_vec_count(bufs.len());
                let k = count as usize;
                let ghost vs = views(bufs@);
                proof {
                    assert(vs.len() == bufs@.len());
                    assert(k as int == min(bufs@.len() as int, i32::MAX as int));
                    assert(vs.take(0) =~= Seq::<Seq<u8>>::empty());
                    assert(flat(vs.take(0)) == Seq::<u8>::empty());
                    assert(old(self)@ + flat(vs.take(0)).take(0) =~= old(self)@);
                }
                let mut n: usize = 0;
                let mut i: usize = 0;
                while i < k
                    invariant
                        i <= k,
                        k <= bufs@.len(),
                        k as int == min(bufs@.len() as int, i32::MAX as int),
                        vs == views(bufs@),
                        n <= cap,
                        n as int == min(cap as int, flat(vs.take(i as int)).len() as int),
                        self@ == old(self)@ + flat(vs.take(i as int)).take(n as int),
                    decreases k - i,
                {
                    let w = self.try_write(&bufs[i], 0, cap - n);
                    proof {
                        lemma_flat_take_snoc(vs, i as int);
                        assert(vs[i as int] == bufs@[i as int]@);
                        let fa = flat(vs.take(i as int));
                        let fb = vs[i as int];
                        assert(flat(vs.take(i as int + 1)) == fa + fb);
                        assert(bufs@[i as int]@.subrange(0, w as int) =~= fb.take(w as int));
                        if n < cap {
                            assert(n as int == fa.len());
                            assert(fa.take(n as int) =~= fa);
                            assert((fa + fb).take(fa.len() + w as int) =~= fa + fb.take(w as int));
                            assert((old(self)@ + fa) + fb.take(w as int) =~= old(self)@ + (fa
                                + fb.take(w as int)));
                        } else {
                            assert(w == 0);
                            assert(fb.take(0) =~= Seq::<u8>::empty());
                            assert((fa + fb).take(n as int) =~= fa.take(n as int));
                            assert((old(self)@ + fa.take(n as int)) + Seq::<u8>::empty() =~= old(
                                self,
                            )@ + (fa + fb).take(n as int));
                        }
                    }
                    n = n + w;
                    i = i + 1;
                }
                proof {
                    assert(vs.take(k as int) == vs.take(min(vs.len() as int, i32::MAX as int)));
                    assert(submitted(*a, vs) == flat(vs.take(k as int)));
                }
                n
            },
        }
    }

    /// An asynchronous vectored write: the retry discipline of
    /// [`Channel::write`], submitting the whole segment list in one
    /// attempt on the backend with vectored support and only the first
    /// segment on the backend without it.
    pub fn write_vectored(&mut self, a: &Adapter, bufs: &Vec<Vec<u8>>, events: &Vec<IoEvent>) -> (r:
        Option<Result<usize, IoError>>)
        ensures
            ({
                let sub = submitted(*a, views(bufs@));
                let o = retry_outcome(*a, sub.len() as int, events@);
                &&& (o is None ==> r is None && final(self)@ == old(self)@)
                &&& (o matches Some(Err(e)) ==> r == Some(Err::<usize, IoError>(e))
                    && final(self)@ == old(self)@)
                &&& (o matches Some(Ok(n)) ==> r == Some(Ok::<usize, IoError>(n as usize))
                    && final(self)@ == old(self)@ + sub.take(n))
            }),
    {
        let ghost avail = submitted(*a, views(bufs@)).len() as int;
        proof {
            assert(events@.skip(0) =~= events@);
        }
        let mut i: usize = 0;
        while i < events.len()
            invariant
                i <= events@.len(),
                self@ == old(self)@,
                avail == submitted(*a, views(bufs@)).len() as int,
                retry_outcome(*a, avail, events@) == retry_outcome(
                    *a,
                    avail,
                    events@.skip(i as int),
                ),
            decreases events@.len() - i,
        {
            proof {
                lemma_skip_step(events@, i as int);
            }
            match events[i] {
                IoEvent::NotReady => {
                    i = i + 1;
                },
                IoEvent::Spurious => {
                    match a.next_step(Outcome::WouldBlock) {
                        Step::Retry => {
                            i = i + 1;
                        },
                        _ => {
                            unreached()
                        },
                    }
                },
                IoEvent::Ready(cap) => {
                    let n = self.try_write_vectored(a, bufs, cap);
                    proof {
                        assert(retry_outcome(*a, avail, events@.skip(i as int)) == Some(
                            Ok::<int, IoError>(min(cap as int, avail)),
                        ));
                    }
                    match a.next_step(Outcome::Transferred(n)) {
                        Step::Done(_) => {
                            return Some(Ok(n));
                        },
                        _ => {
                            unreached()
                        },
                    }
                },
                IoEvent::Fault(e) => {
                    match a.next_step(Outcome::Error(e)) {
                        Step::Fail(err) => {
                            return Some(Err(err));
                        },
                        _ => {
                            i = i + 1;
                        },
                    }
                },
            }
        }
        proof {
            assert(events@.skip(events@.len() as int) =~= Seq::<IoEvent>::empty());
        }
        None
    }

    /// The poll-style vectored write entry point: the discipline of
    /// [`Channel::poll_write`] over the submitted segment list.
    pub fn poll_write_vectored(
        &mut self,
        a: &Adapter,
        bufs: &Vec<Vec<u8>>,
        events: &Vec<IoEvent>,
    ) -> (r: Polled<Result<usize, IoError>>)
        ensures
            ({
                let sub = submitted(*a, views(bufs@));
                let o = poll_outcome(*a, sub.len() as int, events@);
                &&& (o is Pending ==> r is Pending && final(self)@ == old(self)@)
                &&& (o matches Polled::Ready(Err(e)) ==> r == Polled::Ready(
                    Err::<usize, IoError>(e),
                ) && final(self)@ == old(self)@)
                &&& (o matches Polled::Ready(Ok(n)) ==> r == Polled::Ready(
                    Ok::<usize, IoError>(n as usize),
                ) && final(self)@ == old(self)@ + sub.take(n))
            }),
    {
        let ghost avail = submitted(*a, views(bufs@)).len() as int;
        proof {
            assert(events@.skip(0) =~= events@);
        }
        let mut i: usize = 0;
        while i < events.len()
            invariant
                i <= events@.len(),
                self@ == old(self)@,
                avail == submitted(*a, views(bufs@)).len() as int,
                poll_outcome(*a, avail, events@) == poll_outcome(
                    *a,
                    avail,
                    events@.skip(i as int),
                ),
            decreases events@.len() - i,
        {
            proof {
                lemma_skip_step(events@, i as int);
            }
            match events[i] {
                IoEvent::NotReady => {
                    return Polled::Pending;
                },
                IoEvent::Spurious => {
                    match a.next_step(Outcome::WouldBlock) {
                        Step::Retry => {
                            i = i + 1;
                        },
                        _ => {
                            unreached()
                        },
                    }
                },
                IoEvent::Ready(cap) => {
                    let n = self.try_write_vectored(a, bufs, cap);
                    proof {
                        assert(poll_outcome(*a, avail, events@.skip(i as int)) == Polled::Ready(
                            Ok::<int, IoError>(min(cap as int, avail)),
                        ));
                    }
                    match a.next_step(Outcome::Transferred(n)) {
                        Step::Done(_) => {
                            return Polled::Ready(Ok(n));
                        },
                        _ => {
                            unreached()
                        },
                    }
                },
                IoEvent::Fault(e) => {
                    match a.next_step(Outcome::Error(e)) {
                        Step::Fail(err) => {
                            return Polled::Ready(Err(err));
                        },
                        _ => {
                            i = i + 1;
                        },
                    }
                },
            }
        }
        proof {
            assert(events@.skip(events@.len() as int) =~= Seq::<IoEvent>::empty());
        }
        Polled::Pending
    }

    /// One non-blocking vectored read attempt into segments of the
    /// requested `sizes`: the device delivers up to `cap` bytes, and the
    /// participating segments are filled greedily in order — each to its
    /// requested size while bytes remain.  Without vectored support only
    /// the first segment participates; the rest stay empty.
    fn try_read_vectored(&mut self, a: &Adapter, sizes: &Vec<usize>, cap: usize) -> (res: (
        usize,
        Vec<Vec<u8>>,
    ))
        ensures
            ({
                let pc = participating_count(*a, sizes@.len() as int);
                let b = min(cap as int, old(self)@.len() as int);
                let segs = res.1;
                &&& res.0 as int == taken_before(sizes@, b, pc)
                &&& segs@.len() == sizes@.len()
                &&& final(self)@ == old(self)@.skip(res.0 as int)
                &&& flat(views(segs@)) == old(self)@.take(res.0 as int)
                &&& (forall|j: int|
                    0 <= j < pc ==> (#[trigger] segs@[j])@ == old(self)@.subrange(
                        taken_before(sizes@, b, j),
                        taken_before(sizes@, b, j + 1),
                    ))
                &&& (forall|j: int| pc <= j < segs@.len() ==> (#[trigger] segs@[j])@.len() == 0)
            }),
    {
        let pc: usize = match a {
            Adapter::Readiness => {
                let c = saturate_vec_count(sizes.len());
                c as usize
            },
            Adapter::Overlapped => {
                if sizes.len() == 0 {
                    0
                } else {
                    1
                }
            },
        };
        let ghost b = min(cap as int, old(self)@.len() as int);
        proof {
            assert(pc as int == participating_count(*a, sizes@.len() as int));
            assert(views(Seq::<Vec<u8>>::empty()) =~= Seq::<Seq<u8>>::empty());
            assert(flat(views(Seq::<Vec<u8>>::empty())) == Seq::<u8>::empty());
            assert(old(self)@.take(0) =~= Seq::<u8>::empty());
        }
        let mut segs: Vec<Vec<u8>> = Vec::new();
        let mut consumed: usize = 0;
        let mut i: usize = 0;
        while i < pc
            invariant
                i <= pc,
                pc <= sizes@.len(),
                pc as int == participating_count(*a, sizes@.len() as int),
                b == min(cap as int, old(self)@.len() as int),
                consumed as int == taken_before(sizes@, b, i as int),
                consumed <= cap,
                consumed <= old(self)@.len(),
                segs@.len() == i as int,
                self@ == old(self)@.skip(consumed as int),
                flat(views(segs@)) == old(self)@.take(consumed as int),
                forall|j: int|
                    0 <= j < i ==> (#[trigger] segs@[j])@ == old(self)@.subrange(
                        taken_before(sizes@, b, j),
                        taken_before(sizes@, b, j + 1),
                    ),
            decreases pc - i,
        {
            let seg = self.try_read(sizes[i], cap - consumed);
            let w = seg.len();
            let new_consumed = consumed + w;
            proof {
                assert(w as int == min(sizes@[i as int] as int, b - consumed));
                assert(new_consumed as int == taken_before(sizes@, b, i as int + 1));
                assert(seg@ =~= old(self)@.subrange(consumed as int, new_consumed as int));
                assert(views(segs@.push(seg)) =~= views(segs@).push(seg@));
                lemma_flat_push(views(segs@), seg@);
                assert(old(self)@.take(consumed as int) + old(self)@.subrange(
                    consumed as int,
                    new_consumed as int,
                ) =~= old(self)@.take(new_consumed as int));
                assert(old(self)@.skip(consumed as int).skip(w as int) =~= old(self)@.skip(
                    new_consumed as int,
                ));
            }
            segs.push(seg);
            consumed = new_consumed;
            i = i + 1;
        }
        let ghost total = consumed as int;
        while i < sizes.len()
            invariant
                pc <= i <= sizes@.len(),
                pc as int == participating_count(*a, sizes@.len() as int),
                b == min(cap as int, old(self)@.len() as int),
                total == taken_before(sizes@, b, pc as int),
                consumed as int == total,
                segs@.len() == i as int,
                self@ == old(self)@.skip(total),
                flat(views(segs@)) == old(self)@.take(total),
                forall|j: int|
                    0 <= j < pc ==> (#[trigger] segs@[j])@ == old(self)@.subrange(
                        taken_before(sizes@, b, j),
                        taken_before(sizes@, b, j + 1),
                    ),
                forall|j: int| pc <= j < i ==> (#[trigger] segs@[j])@.len() == 0,
            decreases sizes@.len() - i,
        {
            let empty_seg: Vec<u8> = Vec::new();
            proof {
                assert(views(segs@.push(empty_seg)) =~= views(segs@).push(empty_seg@));
                lemma_flat_push(views(segs@), empty_seg@);
                assert(old(self)@.take(total) + Seq::<u8>::empty() =~= old(self)@.take(total));
            }
            segs.push(empty_seg);
            i = i + 1;
        }
        (consumed, segs)
    }

    /// An asynchronous vectored read: the retry discipline of
    /// [`Channel::read`], filling the participating segments greedily in
    /// order.  Without vectored support, only the first segment is ever
    /// populated, whatever the rest of the list requests.
    pub fn read_vectored(&mut self, a: &Adapter, sizes: &Vec<usize>, events: &Vec<IoEvent>) -> (r:
        Option<Result<Vec<Vec<u8>>, IoError>>)
        ensures
            ({
                let pc = participating_count(*a, sizes@.len() as int);
                let capacity = size_sum(sizes@, pc);
                let o = retry_outcome(*a, min(capacity, old(self)@.len() as int), events@);
                &&& (o is None ==> r is None && final(self)@ == old(self)@)
                &&& (o matches Some(Err(e)) ==> r == Some(Err::<Vec<Vec<u8>>, IoError>(e))
                    && final(self)@ == old(self)@)
                &&& (o matches Some(Ok(n)) ==> (r matches Some(Ok(segs)) && segs@.len()
                    == sizes@.len() && final(self)@ == old(self)@.skip(n) && flat(views(segs@))
                    == old(self)@.take(n) && (forall|j: int|
                    0 <= j < pc ==> (#[trigger] segs@[j])@ == old(self)@.subrange(
                        taken_before(sizes@, n, j),
                        taken_before(sizes@, n, j + 1),
                    )) && (forall|j: int| pc <= j < segs@.len() ==> (#[trigger] segs@[j])@.len()
                    == 0)))
            }),
    {
        let ghost pc = participating_count(*a, sizes@.len() as int);
        let ghost capacity = size_sum(sizes@, pc);
        let ghost avail = min(capacity, old(self)@.len() as int);
        proof {
            assert(events@.skip(0) =~= events@);
        }
        let mut i: usize = 0;
        while i < events.len()
            invariant
                i <= events@.len(),
                self@ == old(self)@,
                pc == participating_count(*a, sizes@.len() as int),
                capacity == size_sum(sizes@, pc),
                avail == min(capacity, old(self)@.len() as int),
                retry_outcome(*a, avail, events@) == retry_outcome(
                    *a,
                    avail,
                    events@.skip(i as int),
                ),
            decreases events@.len() - i,
        {
            proof {
                lemma_skip_step(events@, i as int);
            }
            match events[i] {
                IoEvent::NotReady => {
                    i = i + 1;
                },
                IoEvent::Spurious => {
                    match a.next_step(Outcome::WouldBlock) {
                        Step::Retry => {
                            i = i + 1;
                        },
                        _ => {
                            unreached()
                        },
                    }
                },
                IoEvent::Ready(cap) => {
                    let res = self.try_read_vectored(a, sizes, cap);
                    proof {
                        let b = min(cap as int, old(self)@.len() as int);
                        lemma_taken_before_total(sizes@, b, pc);
                        assert(res.0 as int == min(cap as int, avail));
                        assert(retry_outcome(*a, avail, events@.skip(i as int)) == Some(
                            Ok::<int, IoError>(min(cap as int, avail)),
                        ));
                        assert forall|j: int| 0 <= j <= pc implies #[trigger] taken_before(
                            sizes@,
                            res.0 as int,
                            j,
                        ) == taken_before(sizes@, b, j) by {
                            lemma_taken_before_clamp(sizes@, b, res.0 as int, pc, j);
                        }
                    }
                    let count = res.0;
                    let segs = res.1;
                    match a.next_step(Outcome::Transferred(count)) {
                        Step::Done(_) => {
                            return Some(Ok(segs));
                        },
                        _ => {
                            unreached()
                        },
                    }
                },
                IoEvent::Fault(e) => {
                    match a.next_step(Outcome::Error(e)) {
                        Step::Fail(err) => {
                            return Some(Err(err));
                        },
                        _ => {
                            i = i + 1;
                        },
                    }
                },
            }
        }
        proof {
            assert(events@.skip(events@.len() as int) =~= Seq::<IoEvent>::empty());
        }
        None
    }
}

} // verus!