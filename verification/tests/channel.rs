use serial2_tokio::adapter::Adapter;
use serial2_tokio::adapter::Polled;
use serial2_tokio::channel::Channel;
use serial2_tokio::error::IoError;
use serial2_tokio::protocol::IoEvent;

#[test]
fn write_then_read_round_trip() {
    let a = Adapter::Readiness;
    let mut ch = Channel::new();
    let data = vec![10u8, 20, 30];
    let events = vec![IoEvent::Spurious, IoEvent::Ready(3)];
    assert_eq!(ch.write(&a, &data, 0, &events), Some(Ok(3)));
    assert_eq!(ch.len(), 3);
    let out = ch.read(&a, 2, &vec![IoEvent::Ready(16)]);
    assert_eq!(out, Some(Ok(vec![10u8, 20])));
    let rest = ch.read(&a, 16, &vec![IoEvent::Ready(16)]);
    assert_eq!(rest, Some(Ok(vec![30u8])));
    assert_eq!(ch.len(), 0);
}

#[test]
fn short_write_reports_only_what_was_transferred() {
    let a = Adapter::Readiness;
    let mut ch = Channel::new();
    let data = vec![1u8, 2, 3, 4, 5];
    // The device accepts two bytes this instant: the count says two and
    // exactly two bytes are in flight afterwards.
    assert_eq!(ch.write(&a, &data, 0, &vec![IoEvent::Ready(2)]), Some(Ok(2)));
    assert_eq!(ch.len(), 2);
    assert_eq!(ch.read(&a, 8, &vec![IoEvent::Ready(8)]), Some(Ok(vec![1u8, 2])));
}

#[test]
fn zero_byte_read_is_returned_not_interpreted() {
    let a = Adapter::Readiness;
    let mut ch = Channel::new();
    let out = ch.read(&a, 8, &vec![IoEvent::Ready(8)]);
    assert_eq!(out, Some(Ok(Vec::new())));
}

#[test]
fn os_errors_propagate_verbatim() {
    let a = Adapter::Overlapped;
    let mut ch = Channel::new();
    let data = vec![9u8];
    let r = ch.write(&a, &data, 0, &vec![IoEvent::Fault(IoError::Os(5))]);
    assert_eq!(r, Some(Err(IoError::Os(5))));
    assert_eq!(ch.len(), 0);
}

#[test]
fn the_first_error_is_the_one_surfaced() {
    let a = Adapter::Readiness;
    let mut ch = Channel::new();
    let events = vec![
        IoEvent::Spurious,
        IoEvent::Fault(IoError::Os(5)),
        IoEvent::Fault(IoError::Os(7)),
        IoEvent::Ready(4),
    ];
    let r = ch.read(&a, 4, &events);
    assert_eq!(r, Some(Err(IoError::Os(5))));
}

#[test]
fn stale_timeouts_are_absorbed_only_by_the_readiness_backend() {
    let data = vec![7u8];
    let events = vec![IoEvent::Fault(IoError::TimedOut), IoEvent::Ready(1)];
    let mut ch = Channel::new();
    assert_eq!(ch.write(&Adapter::Readiness, &data, 0, &events), Some(Ok(1)));
    let mut ch2 = Channel::new();
    assert_eq!(
        ch2.write(&Adapter::Overlapped, &data, 0, &events),
        Some(Err(IoError::TimedOut))
    );
    assert_eq!(ch2.len(), 0);
}

#[test]
fn cancelled_read_moves_no_bytes() {
    let a = Adapter::Readiness;
    let mut ch = Channel::new();
    let data = vec![1u8, 2, 3];
    assert_eq!(ch.write(&a, &data, 0, &vec![IoEvent::Ready(3)]), Some(Ok(3)));
    // The read is abandoned while still waiting: no attempt completed.
    let pending = ch.read(&a, 3, &vec![IoEvent::NotReady, IoEvent::Spurious]);
    assert_eq!(pending, None);
    assert_eq!(ch.len(), 3);
    // A fresh read receives exactly the bytes the cancelled one would
    // have received.
    let fresh = ch.read(&a, 3, &vec![IoEvent::Ready(3)]);
    assert_eq!(fresh, Some(Ok(vec![1u8, 2, 3])));
}

#[test]
fn write_all_offers_the_whole_buffer_across_several_attempts() {
    let a = Adapter::Readiness;
    let mut ch = Channel::new();
    let data = vec![1u8, 2, 3, 4, 5, 6];
    let events = vec![
        IoEvent::Ready(2),
        IoEvent::NotReady,
        IoEvent::Spurious,
        IoEvent::Ready(3),
        IoEvent::Ready(9),
    ];
    assert_eq!(ch.write_all(&a, &data, &events), Some(Ok(())));
    // The per-attempt counts 2 + 3 + 1 sum to the buffer length and the
    // whole buffer is in flight, in order.
    let out = ch.read(&a, 6, &vec![IoEvent::Ready(6)]);
    assert_eq!(out, Some(Ok(data)));
}

#[test]
fn write_all_of_an_empty_buffer_needs_no_event() {
    let a = Adapter::Overlapped;
    let mut ch = Channel::new();
    assert_eq!(ch.write_all(&a, &Vec::new(), &Vec::new()), Some(Ok(())));
    assert_eq!(ch.len(), 0);
}

#[test]
fn write_all_surfaces_a_zero_byte_write_as_write_zero() {
    let a = Adapter::Readiness;
    let mut ch = Channel::new();
    let data = vec![1u8, 2, 3];
    let events = vec![IoEvent::Ready(2), IoEvent::Ready(0)];
    assert_eq!(ch.write_all(&a, &data, &events), Some(Err(IoError::WriteZero)));
    // The bytes offered before the failing attempt are in flight.
    assert_eq!(ch.len(), 2);
}

#[test]
fn write_all_returns_the_first_error_with_only_the_prefix_offered() {
    let a = Adapter::Readiness;
    let mut ch = Channel::new();
    let data = vec![1u8, 2, 3, 4];
    let events = vec![IoEvent::Ready(2), IoEvent::Fault(IoError::Os(19))];
    assert_eq!(ch.write_all(&a, &data, &events), Some(Err(IoError::Os(19))));
    assert_eq!(ch.read(&a, 8, &vec![IoEvent::Ready(8)]), Some(Ok(vec![1u8, 2])));
}

#[test]
fn write_all_never_claims_success_while_data_remains() {
    let a = Adapter::Readiness;
    let mut ch = Channel::new();
    let data = vec![1u8, 2, 3, 4];
    // The schedule ends with the operation still suspended: no success,
    // no error, and only a proper prefix in flight.
    assert_eq!(ch.write_all(&a, &data, &vec![IoEvent::Ready(2)]), None);
    assert_eq!(ch.len(), 2);
}

#[test]
fn vectored_write_flattens_every_segment_with_vectored_support() {
    let a = Adapter::Readiness;
    let mut ch = Channel::new();
    let bufs = vec![vec![1u8, 2], vec![3u8, 4, 5]];
    let r = ch.write_vectored(&a, &bufs, &vec![IoEvent::Ready(16)]);
    assert_eq!(r, Some(Ok(5)));
    let out = ch.read(&a, 8, &vec![IoEvent::Ready(8)]);
    assert_eq!(out, Some(Ok(vec![1u8, 2, 3, 4, 5])));
}

#[test]
fn vectored_write_consumes_only_the_first_segment_without_support() {
    let a = Adapter::Overlapped;
    assert!(!a.is_write_vectored());
    let mut ch = Channel::new();
    let bufs = vec![vec![1u8, 2], vec![3u8, 4, 5]];
    let r = ch.write_vectored(&a, &bufs, &vec![IoEvent::Ready(16)]);
    assert_eq!(r, Some(Ok(2)));
    let out = ch.read(&a, 8, &vec![IoEvent::Ready(8)]);
    assert_eq!(out, Some(Ok(vec![1u8, 2])));
}

#[test]
fn vectored_write_with_an_empty_list_transfers_nothing() {
    let mut ch = Channel::new();
    let r = ch.write_vectored(&Adapter::Overlapped, &Vec::new(), &vec![IoEvent::Ready(4)]);
    assert_eq!(r, Some(Ok(0)));
    let mut ch2 = Channel::new();
    let r2 = ch2.write_vectored(&Adapter::Readiness, &Vec::new(), &vec![IoEvent::Ready(4)]);
    assert_eq!(r2, Some(Ok(0)));
}

#[test]
fn vectored_read_fills_segments_greedily_in_order() {
    let a = Adapter::Readiness;
    let mut ch = Channel::new();
    let data = vec![1u8, 2, 3, 4, 5];
    assert_eq!(ch.write(&a, &data, 0, &vec![IoEvent::Ready(5)]), Some(Ok(5)));
    let sizes = vec![2usize, 2, 4];
    let r = ch.read_vectored(&a, &sizes, &vec![IoEvent::Ready(16)]);
    assert_eq!(
        r,
        Some(Ok(vec![vec![1u8, 2], vec![3u8, 4], vec![5u8]]))
    );
    assert_eq!(ch.len(), 0);
}

#[test]
fn vectored_read_populates_only_the_first_segment_without_support() {
    let a = Adapter::Overlapped;
    assert!(!a.is_read_vectored());
    let mut ch = Channel::new();
    let data = vec![1u8, 2, 3, 4, 5];
    assert_eq!(ch.write(&a, &data, 0, &vec![IoEvent::Ready(5)]), Some(Ok(5)));
    let sizes = vec![2usize, 2, 4];
    let r = ch.read_vectored(&a, &sizes, &vec![IoEvent::Ready(16)]);
    assert_eq!(
        r,
        Some(Ok(vec![vec![1u8, 2], Vec::new(), Vec::new()]))
    );
    // The remaining bytes stay in flight for the next read.
    assert_eq!(ch.len(), 3);
}

#[test]
fn poll_read_is_pending_while_the_reactor_is_silent() {
    let a = Adapter::Readiness;
    let mut ch = Channel::new();
    let data = vec![8u8];
    assert_eq!(ch.write(&a, &data, 0, &vec![IoEvent::Ready(1)]), Some(Ok(1)));
    let r = ch.poll_read(&a, 4, &vec![IoEvent::NotReady]);
    assert_eq!(r, Polled::Pending);
    assert_eq!(ch.len(), 1);
}

#[test]
fn poll_read_repolls_a_spurious_wakeup_instead_of_surfacing_it() {
    let a = Adapter::Readiness;
    let mut ch = Channel::new();
    let data = vec![8u8, 9];
    assert_eq!(ch.write(&a, &data, 0, &vec![IoEvent::Ready(2)]), Some(Ok(2)));
    let r = ch.poll_read(&a, 4, &vec![IoEvent::Spurious, IoEvent::Ready(4)]);
    assert_eq!(r, Polled::Ready(Ok(vec![8u8, 9])));
}

#[test]
fn poll_write_resolves_with_the_transferred_count() {
    let a = Adapter::Readiness;
    let mut ch = Channel::new();
    let data = vec![1u8, 2, 3];
    let r = ch.poll_write(&a, &data, &vec![IoEvent::Spurious, IoEvent::Ready(2)]);
    assert_eq!(r, Polled::Ready(Ok(2)));
    assert_eq!(ch.len(), 2);
}

#[test]
fn poll_write_vectored_degrades_without_vectored_support() {
    let mut ch = Channel::new();
    let bufs = vec![vec![1u8, 2], vec![3u8]];
    let r = ch.poll_write_vectored(&Adapter::Overlapped, &bufs, &vec![IoEvent::Ready(8)]);
    assert_eq!(r, Polled::Ready(Ok(2)));
    let mut ch2 = Channel::new();
    let r2 = ch2.poll_write_vectored(&Adapter::Readiness, &bufs, &vec![IoEvent::Ready(8)]);
    assert_eq!(r2, Polled::Ready(Ok(3)));
}

#[test]
fn poll_write_surfaces_pending_when_the_schedule_ends_unready() {
    let a = Adapter::Readiness;
    let mut ch = Channel::new();
    let data = vec![1u8];
    let r = ch.poll_write(&a, &data, &Vec::new());
    assert_eq!(r, Polled::Pending);
    assert_eq!(ch.len(), 0);
}

#[test]
fn writing_an_empty_buffer_completes_with_a_zero_count() {
    let a = Adapter::Readiness;
    let mut ch = Channel::new();
    let r = ch.write(&a, &Vec::new(), 0, &vec![IoEvent::Ready(5)]);
    assert_eq!(r, Some(Ok(0)));
    assert_eq!(ch.len(), 0);
}

#[test]
fn reading_into_an_empty_buffer_completes_with_no_bytes() {
    let a = Adapter::Readiness;
    let mut ch = Channel::new();
    let data = vec![1u8, 2];
    assert_eq!(ch.write(&a, &data, 0, &vec![IoEvent::Ready(2)]), Some(Ok(2)));
    let r = ch.read(&a, 0, &vec![IoEvent::Ready(4)]);
    assert_eq!(r, Some(Ok(Vec::new())));
    assert_eq!(ch.len(), 2);
}

#[test]
fn vectored_read_respects_the_delivered_byte_budget() {
    let a = Adapter::Readiness;
    let mut ch = Channel::new();
    let data = vec![1u8, 2, 3, 4];
    assert_eq!(ch.write(&a, &data, 0, &vec![IoEvent::Ready(4)]), Some(Ok(4)));
    // The device delivers only three bytes this instant: the first
    // segment fills completely, the second gets the remainder.
    let sizes = vec![2usize, 2];
    let r = ch.read_vectored(&a, &sizes, &vec![IoEvent::Ready(3)]);
    assert_eq!(r, Some(Ok(vec![vec![1u8, 2], vec![3u8]])));
    assert_eq!(ch.len(), 1);
}

#[test]
fn a_cancelled_write_leaves_the_stream_untouched() {
    let a = Adapter::Readiness;
    let mut ch = Channel::new();
    let data = vec![1u8, 2, 3];
    let pending = ch.write(&a, &data, 0, &vec![IoEvent::Spurious, IoEvent::NotReady]);
    assert_eq!(pending, None);
    assert_eq!(ch.len(), 0);
}
