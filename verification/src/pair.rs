//! A loopback pair of connected endpoints.
//!
//! Two handles, `A` and `B`, each reading what the other writes.  The
//! read path and the write path of one handle live on different
//! directions of the line, and every contract here says so explicitly:
//! an operation on one direction leaves the other untouched.  That is
//! the independence that lets a pending read task and a pending write
//! task on the same handle make progress without ever waiting on each
//! other's readiness.

use vstd::prelude::*;

use vstd::math::min;

use crate::adapter::Adapter;
use crate::channel::Channel;
use crate::error::IoError;
use crate::protocol::IoEvent;
use crate::protocol::read_taken;
use crate::protocol::retry_outcome;
use crate::protocol::stream_after_read;
use crate::protocol::write_all_outcome;
use crate::protocol::write_all_written;

verus! {

/// A pair of connected serial handles, `A` and `B`.
pub struct Pair {
    /// The backend both handles run on.
    pub adapter: Adapter,
    /// Bytes in flight from `A` to `B`.
    pub a_to_b: Channel,
    /// Bytes in flight from `B` to `A`.
    pub b_to_a: Channel,
}

impl Pair {
    /// A connected pair with both directions silent.
    pub fn new(adapter: Adapter) -> (p: Pair)
        ensures
            p.adapter == adapter,
            p.a_to_b@ == Seq::<u8>::empty(),
            p.b_to_a@ == Seq::<u8>::empty(),
    {
        Pair { adapter, a_to_b: Channel::new(), b_to_a: Channel::new() }
    }

    /// `A` writes `data[offset..]`.  Only the `A`-to-`B` direction
    /// moves: a read pending on `A` waits on the other direction and is
    /// unaffected.
    pub fn write_a(&mut self, data: &Vec<u8>, offset: usize, events: &Vec<IoEvent>) -> (r: Option<
        Result<usize, IoError>,
    >)
        requires
            offset <= data@.len(),
        ensures
            final(self).adapter == old(self).adapter,
            final(self).b_to_a@ == old(self).b_to_a@,
            ({
                let o = retry_outcome(old(self).adapter, data@.len() - offset, events@);
                &&& (o is None ==> r is None && final(self).a_to_b@ == old(self).a_to_b@)
                &&& (o matches Some(Err(e)) ==> r == Some(Err::<usize, IoError>(e)) && final(self).a_to_b@ == old(self).a_to_b@)
                &&& (o matches Some(Ok(n)) ==> r == Some(Ok::<usize, IoError>(n as usize)) && final(self).a_to_b@ == old(self).a_to_b@ + data@.subrange(offset as int, offset + n))
            }),
    {
        let a = self.adapter;
        self.a_to_b.write(&a, data, offset, events)
    }

    /// `A` reads.  Only the `B`-to-`A` direction moves: a write pending
    /// on `A` waits on the other direction and is unaffected.
    pub fn read_a(&mut self, max: usize, events: &Vec<IoEvent>) -> (r: Option<
        Result<Vec<u8>, IoError>,
    >)
        ensures
            final(self).adapter == old(self).adapter,
            final(self).a_to_b@ == old(self).a_to_b@,
            final(self).b_to_a@ == stream_after_read(
                old(self).b_to_a@,
                max as int,
                old(self).adapter,
                events@,
            ),
            ({
                let o = retry_outcome(
                    old(self).adapter,
                    min(max as int, old(self).b_to_a@.len() as int),
                    events@,
                );
                &&& (o is None ==> r is None)
                &&& (o matches Some(Err(e)) ==> r == Some(Err::<Vec<u8>, IoError>(e)))
                &&& (o matches Some(Ok(n)) ==> (r matches Some(Ok(out)) && out@ == read_taken(
                    old(self).b_to_a@,
                    max as int,
                    old(self).adapter,
                    events@,
                ) && out@.len() == n))
            }),
    {
        let a = self.adapter;
        self.b_to_a.read(&a, max, events)
    }

    /// `B` writes `data[offset..]`; the mirror image of
    /// [`Pair::write_a`].
    pub fn write_b(&mut self, data: &Vec<u8>, offset: usize, events: &Vec<IoEvent>) -> (r: Option<
        Result<usize, IoError>,
    >)
        requires
            offset <= data@.len(),
        ensures
            final(self).adapter == old(self).adapter,
            final(self).a_to_b@ == old(self).a_to_b@,
            ({
                let o = retry_outcome(old(self).adapter, data@.len() - offset, events@);
                &&& (o is None ==> r is None && final(self).b_to_a@ == old(self).b_to_a@)
                &&& (o matches Some(Err(e)) ==> r == Some(Err::<usize, IoError>(e)) && final(self).b_to_a@ == old(self).b_to_a@)
                &&& (o matches Some(Ok(n)) ==> r == Some(Ok::<usize, IoError>(n as usize)) && final(self).b_to_a@ == old(self).b_to_a@ + data@.subrange(offset as int, offset + n))
            }),
    {
        let a = self.adapter;
        self.b_to_a.write(&a, data, offset, events)
    }

    /// `B` reads; the mirror image of [`Pair::read_a`].
    pub fn read_b(&mut self, max: usize, events: &Vec<IoEvent>) -> (r: Option<
        Result<Vec<u8>, IoError>,
    >)
        ensures
            final(self).adapter == old(self).adapter,
            final(self).b_to_a@ == old(self).b_to_a@,
            final(self).a_to_b@ == stream_after_read(
                old(self).a_to_b@,
                max as int,
                old(self).adapter,
                events@,
            ),
            ({
                let o = retry_outcome(
                    old(self).adapter,
                    min(max as int, old(self).a_to_b@.len() as int),
                    events@,
                );
                &&& (o is None ==> r is None)
                &&& (o matches Some(Err(e)) ==> r == Some(Err::<Vec<u8>, IoError>(e)))
                &&& (o matches Some(Ok(n)) ==> (r matches Some(Ok(out)) && out@ == read_taken(
                    old(self).a_to_b@,
                    max as int,
                    old(self).adapter,
                    events@,
                ) && out@.len() == n))
            }),
    {
        let a = self.adapter;
        self.a_to_b.read(&a, max, events)
    }

    /// `A` writes the whole of `data`, suspending between attempts; the
    /// `B`-to-`A` direction is untouched throughout.
    pub fn write_all_a(&mut self, data: &Vec<u8>, events: &Vec<IoEvent>) -> (r: Option<
        Result<(), IoError>,
    >)
        ensures
            final(self).adapter == old(self).adapter,
            final(self).b_to_a@ == old(self).b_to_a@,
            r == write_all_outcome(old(self).adapter, data@.len() as int, events@),
            final(self).a_to_b@ == old(self).a_to_b@ + data@.take(
                write_all_written(old(self).adapter, data@.len() as int, events@),
            ),
    {
        let a = self.adapter;
        self.a_to_b.write_all(&a, data, events)
    }

    /// `B` writes the whole of `data`; the mirror image of
    /// [`Pair::write_all_a`].
    pub fn write_all_b(&mut self, data: &Vec<u8>, events: &Vec<IoEvent>) -> (r: Option<
        Result<(), IoError>,
    >)
        ensures
            final(self).adapter == old(self).adapter,
            final(self).a_to_b@ == old(self).a_to_b@,
            r == write_all_outcome(old(self).adapter, data@.len() as int, events@),
            final(self).b_to_a@ == old(self).b_to_a@ + data@.take(
                write_all_written(old(self).adapter, data@.len() as int, events@),
            ),
    {
        let a = self.adapter;
        self.b_to_a.write_all(&a, data, events)
    }
}

} // verus!
