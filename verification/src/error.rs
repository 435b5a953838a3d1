//! Errors that a caller of the asynchronous surface can observe.
//!
//! The transient retry conditions — would-block and, on the
//! readiness-driven backend, a stale timeout — are absorbed by the retry
//! loops and deliberately have no representation here where they are
//! absorbed; only what crosses the component boundary is listed.

use vstd::prelude::*;

verus! {

/// An error surfaced by a read, write or shutdown operation.
#[derive(Clone, Copy, Debug, PartialEq, Eq, Structural)]
pub enum IoError {
    /// An error reported by the operating system, by its raw code.
    /// It is propagated verbatim to the caller of the operation in
    /// progress.
    Os(i32),
    /// A stale timeout configured on the underlying blocking handle
    /// fired.  The readiness-driven backend absorbs this condition; the
    /// overlapped backend surfaces it.
    TimedOut,
    /// A write accepted zero bytes while data remained.  `write_all`
    /// surfaces this as a distinct error instead of looping forever.
    WriteZero,
    /// The operation is not supported on a serial handle.  Shutdown
    /// always fails with this error: a serial line has no orderly
    /// half-close.
    Unsupported,
}

} // verus!
