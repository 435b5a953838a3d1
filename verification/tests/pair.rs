use serial2_tokio::adapter::Adapter;
use serial2_tokio::error::IoError;
use serial2_tokio::pair::Pair;
use serial2_tokio::protocol::IoEvent;

#[test]
fn loopback_hello_and_goodbye() {
    let mut p = Pair::new(Adapter::Readiness);

    let hello = b"Hello!".to_vec();
    assert_eq!(p.write_all_a(&hello, &vec![IoEvent::Ready(6)]), Some(Ok(())));
    let got = p.read_b(6, &vec![IoEvent::Ready(6)]);
    assert_eq!(got, Some(Ok(b"Hello!".to_vec())));

    let goodbye = b"Goodbye!".to_vec();
    assert_eq!(p.write_all_b(&goodbye, &vec![IoEvent::Ready(8)]), Some(Ok(())));
    let got_back = p.read_a(8, &vec![IoEvent::Ready(8)]);
    assert_eq!(got_back, Some(Ok(b"Goodbye!".to_vec())));
}

#[test]
fn loopback_survives_spurious_wakeups_and_short_writes() {
    let mut p = Pair::new(Adapter::Overlapped);
    let hello = b"Hello!".to_vec();
    let events = vec![
        IoEvent::Spurious,
        IoEvent::Ready(2),
        IoEvent::NotReady,
        IoEvent::Ready(16),
    ];
    assert_eq!(p.write_all_a(&hello, &events), Some(Ok(())));
    let got = p.read_b(6, &vec![IoEvent::Spurious, IoEvent::Ready(6)]);
    assert_eq!(got, Some(Ok(b"Hello!".to_vec())));
}

#[test]
fn a_pending_read_does_not_hold_up_a_write_on_the_same_handle() {
    let mut p = Pair::new(Adapter::Readiness);

    // A read task on handle A suspends: nothing has arrived for it.
    let pending = p.read_a(4, &vec![IoEvent::NotReady]);
    assert_eq!(pending, None);

    // A write task on the same handle still completes in full.
    let data = vec![1u8, 2, 3];
    assert_eq!(p.write_a(&data, 0, &vec![IoEvent::Ready(3)]), Some(Ok(3)));

    // The write touched only its own direction: once bytes arrive for
    // the reader, a fresh read receives them all.
    assert_eq!(p.write_b(&vec![9u8, 8], 0, &vec![IoEvent::Ready(2)]), Some(Ok(2)));
    assert_eq!(p.read_a(4, &vec![IoEvent::Ready(4)]), Some(Ok(vec![9u8, 8])));
    assert_eq!(p.read_b(4, &vec![IoEvent::Ready(4)]), Some(Ok(vec![1u8, 2, 3])));
}

#[test]
fn an_error_on_the_write_path_leaves_the_read_path_intact() {
    let mut p = Pair::new(Adapter::Readiness);
    assert_eq!(p.write_b(&vec![5u8], 0, &vec![IoEvent::Ready(1)]), Some(Ok(1)));

    let r = p.write_a(&vec![1u8], 0, &vec![IoEvent::Fault(IoError::Os(6))]);
    assert_eq!(r, Some(Err(IoError::Os(6))));

    assert_eq!(p.read_a(1, &vec![IoEvent::Ready(1)]), Some(Ok(vec![5u8])));
}
