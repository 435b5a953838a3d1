//! Verified core of an asynchronous serial-port endpoint.
//!
//! A serial device hands the program a blocking OS handle.  Making that
//! handle usable from cooperatively scheduled tasks takes a small but
//! delicate protocol: wait until the reactor reports readiness, attempt
//! exactly one non-blocking transfer, absorb the would-block outcomes that
//! edge-triggered notification is allowed to produce, and surface every
//! genuine error unchanged.  This crate states that protocol precisely and
//! proves an implementation of it over an explicit model of the byte
//! stream:
//!
//! * [`error`] — the errors a caller can see; the transient would-block
//!   condition is absent from the type by construction, so it can never be
//!   surfaced.
//! * [`adapter`] — the two platform backends (readiness-driven and
//!   overlapped) as a sum type, the classification of a single attempt's
//!   outcome, and the fixed flush/shutdown behaviour.
//! * [`protocol`] — specification functions giving the exact result of a
//!   retry loop, a poll entry point and a `write_all` loop for any schedule
//!   of readiness events, with the laws proved about them.
//! * [`channel`] — an executable byte-stream endpoint whose read, write,
//!   vectored and poll operations are verified against [`protocol`].
//! * [`pair`] — a loopback pair of connected endpoints, whose contracts
//!   show that the read and write directions are independent.
//!
//! The unverifiable rim — opening a device, registering the raw handle
//! with a reactor, the non-blocking system calls themselves — stays
//! outside this crate and drives these state machines from plain values.

pub mod adapter;
pub mod channel;
pub mod error;
pub mod pair;
pub mod protocol;
