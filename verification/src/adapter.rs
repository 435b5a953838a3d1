//! The two platform backends and the classification of one transfer
//! attempt.
//!
//! Exactly one backend exists per build target, so the pair is modelled
//! as a sum type.  The readiness-driven backend multiplexes a raw file
//! descriptor through an edge-triggered reactor and supports vectored
//! transfers; the overlapped backend reinterprets the handle as an
//! asynchronous pipe-like object, which has no vectored form, so vectored
//! operations degrade to the first buffer segment.
//!
//! Every read or write follows one discipline: wait for readiness,
//! attempt exactly one non-blocking transfer, and let [`Adapter::next_step`]
//! decide whether the attempt completed, must be retried, or failed.

use vstd::prelude::*;

use crate::error::IoError;

verus! {

/// The platform backend driving a serial handle.
#[derive(Clone, Copy, Debug, PartialEq, Eq, Structural)]
pub enum Adapter {
    /// Edge-triggered readiness registration around a raw descriptor.
    Readiness,
    /// The handle reinterpreted as the host's overlapped pipe object.
    Overlapped,
}

/// What one non-blocking transfer attempt reported.
#[derive(Clone, Copy, Debug, PartialEq, Eq, Structural)]
pub enum Outcome {
    /// The attempt transferred this many bytes.  Zero is a valid count:
    /// a serial line has no end-of-stream, so zero is handed to the
    /// caller rather than interpreted.
    Transferred(usize),
    /// The handle was not actually ready: a benign race between the
    /// readiness notification and the kernel's own state.
    WouldBlock,
    /// The attempt failed with a surfaceable error.
    Error(IoError),
}

/// What the retry discipline does after one attempt.
#[derive(Clone, Copy, Debug, PartialEq, Eq, Structural)]
pub enum Step {
    /// The operation is complete with this byte count.
    Done(usize),
    /// Re-wait for readiness and attempt again; nothing is surfaced.
    Retry,
    /// Propagate this error to the caller immediately.
    Fail(IoError),
}

/// The result of one invocation of a poll-style entry point.
#[derive(Debug, PartialEq, Eq)]
pub enum Polled<T> {
    /// The caller's task suspends; it will be woken on readiness.
    Pending,
    /// The operation resolved.
    Ready(T),
}

impl Adapter {
    /// Whether this backend absorbs the error instead of surfacing it.
    ///
    /// The readiness-driven backend treats a stale timeout on the
    /// underlying blocking handle like a would-block outcome and keeps
    /// waiting.  The overlapped backend disables those timeouts before
    /// first use and surfaces one that fires anyway.
    pub open spec fn absorbs(self, e: IoError) -> bool {
        self is Readiness && e is TimedOut
    }

    /// The step the retry discipline takes after an attempt reports `o`.
    pub open spec fn step_of(self, o: Outcome) -> Step {
        match o {
            Outcome::Transferred(n) => Step::Done(n),
            Outcome::WouldBlock => Step::Retry,
            Outcome::Error(e) => if self.absorbs(e) {
                Step::Retry
            } else {
                Step::Fail(e)
            },
        }
    }

    /// Whether vectored transfers reach the device as such.
    pub open spec fn vectored(self) -> bool {
        self is Readiness
    }

    /// Classify one attempt: a byte count completes the operation (zero
    /// included), would-block and absorbed conditions are retried and
    /// never surfaced, every other error propagates unchanged.
    pub fn next_step(&self, o: Outcome) -> (s: Step)
        ensures
            s == self.step_of(o),
    {
        match o {
            Outcome::Transferred(n) => Step::Done(n),
            Outcome::WouldBlock => Step::Retry,
            Outcome::Error(e) => {
                match e {
                    IoError::TimedOut => {
                        match self {
                            Adapter::Readiness => Step::Retry,
                            Adapter::Overlapped => Step::Fail(e),
                        }
                    },
                    _ => Step::Fail(e),
                }
            },
        }
    }

    /// Whether a vectored read uses every buffer segment.  When this is
    /// false, a vectored read only ever populates the first segment.
    pub fn is_read_vectored(&self) -> (r: bool)
        ensures
            r == self.vectored(),
    {
        match self {
            Adapter::Readiness => true,
            Adapter::Overlapped => false,
        }
    }

    /// Whether a vectored write submits every buffer segment.  When this
    /// is false, a vectored write only ever consumes the first segment.
    pub fn is_write_vectored(&self) -> (r: bool)
        ensures
            r == self.vectored(),
    {
        match self {
            Adapter::Readiness => true,
            Adapter::Overlapped => false,
        }
    }

    /// Flush resolves immediately with success and never suspends: this
    /// layer cannot express an asynchronous drain of the output buffer,
    /// and the blocking library's discard calls are its synchronous
    /// analogue.
    pub fn poll_flush(&self) -> (r: Polled<Result<(), IoError>>)
        ensures
            r == Polled::Ready(Ok::<(), IoError>(())),
    {
        Polled::Ready(Ok(()))
    }

    /// Shutdown always resolves immediately with the fixed
    /// unsupported-operation error — never success, never a different
    /// error — because a serial device has no half-close.
    pub fn poll_shutdown(&self) -> (r: Polled<Result<(), IoError>>)
        ensures
            r == Polled::Ready(Err::<(), IoError>(IoError::Unsupported)),
    {
        Polled::Ready(Err(IoError::Unsupported))
    }
}

/// Interpret the return value of a counting system call: a negative
/// value reports the error code the environment supplied in `errno`,
/// anything else is the transferred byte count.
pub fn check_ret(value: isize, errno: i32) -> (r: Result<usize, IoError>)
    ensures
        value >= 0 ==> r == Ok::<usize, IoError>(value as usize),
        value < 0 ==> r == Err::<usize, IoError>(IoError::Os(errno)),
{
    if value < 0 {
        Err(IoError::Os(errno))
    } else {
        Ok(value as usize)
    }
}

/// Cap a buffer-segment count at the largest value a vectored system
/// call accepts.  A caller supplying more segments is not an error: the
/// count saturates and only the first `i32::MAX` segments participate.
pub fn saturate_vec_count(n: usize) -> (r: i32)
    ensures
        n <= i32::MAX ==> r == n as i32,
        n > i32::MAX ==> r == i32::MAX,
{
    if n <= i32::MAX as usize {
        n as i32
    } else {
        i32::MAX
    }
}

} // verus!
