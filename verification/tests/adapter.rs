use serial2_tokio::adapter::Adapter;
use serial2_tokio::adapter::Outcome;
use serial2_tokio::adapter::Polled;
use serial2_tokio::adapter::Step;
use serial2_tokio::adapter::check_ret;
use serial2_tokio::adapter::saturate_vec_count;
use serial2_tokio::error::IoError;

#[test]
fn next_step_returns_counts_verbatim() {
    let a = Adapter::Readiness;
    assert_eq!(a.next_step(Outcome::Transferred(5)), Step::Done(5));
    let b = Adapter::Overlapped;
    assert_eq!(b.next_step(Outcome::Transferred(17)), Step::Done(17));
}

#[test]
fn next_step_zero_count_is_a_completion_not_an_error() {
    let a = Adapter::Readiness;
    assert_eq!(a.next_step(Outcome::Transferred(0)), Step::Done(0));
    let b = Adapter::Overlapped;
    assert_eq!(b.next_step(Outcome::Transferred(0)), Step::Done(0));
}

#[test]
fn next_step_absorbs_would_block_on_both_backends() {
    assert_eq!(Adapter::Readiness.next_step(Outcome::WouldBlock), Step::Retry);
    assert_eq!(Adapter::Overlapped.next_step(Outcome::WouldBlock), Step::Retry);
}

#[test]
fn next_step_timeout_is_transient_only_with_readiness() {
    assert_eq!(
        Adapter::Readiness.next_step(Outcome::Error(IoError::TimedOut)),
        Step::Retry
    );
    assert_eq!(
        Adapter::Overlapped.next_step(Outcome::Error(IoError::TimedOut)),
        Step::Fail(IoError::TimedOut)
    );
}

#[test]
fn next_step_propagates_os_errors_verbatim() {
    assert_eq!(
        Adapter::Readiness.next_step(Outcome::Error(IoError::Os(13))),
        Step::Fail(IoError::Os(13))
    );
    assert_eq!(
        Adapter::Overlapped.next_step(Outcome::Error(IoError::Os(13))),
        Step::Fail(IoError::Os(13))
    );
}

#[test]
fn is_read_vectored() {
    assert!(Adapter::Readiness.is_read_vectored());
    assert!(!Adapter::Overlapped.is_read_vectored());
}

#[test]
fn is_write_vectored() {
    assert!(Adapter::Readiness.is_write_vectored());
    assert!(!Adapter::Overlapped.is_write_vectored());
}

#[test]
fn poll_flush_succeeds_immediately_on_both_backends() {
    assert_eq!(Adapter::Readiness.poll_flush(), Polled::Ready(Ok(())));
    assert_eq!(Adapter::Overlapped.poll_flush(), Polled::Ready(Ok(())));
}

#[test]
fn poll_shutdown_always_yields_the_unsupported_error() {
    assert_eq!(
        Adapter::Readiness.poll_shutdown(),
        Polled::Ready(Err(IoError::Unsupported))
    );
    assert_eq!(
        Adapter::Overlapped.poll_shutdown(),
        Polled::Ready(Err(IoError::Unsupported))
    );
}

#[test]
fn check_ret_nonnegative_is_a_count() {
    assert_eq!(check_ret(0, 0), Ok(0));
    assert_eq!(check_ret(42, 0), Ok(42));
}

#[test]
fn check_ret_negative_reports_the_environment_error() {
    assert_eq!(check_ret(-1, 5), Err(IoError::Os(5)));
    assert_eq!(check_ret(-7, 11), Err(IoError::Os(11)));
}

#[test]
fn saturate_vec_count_passes_small_counts_through() {
    assert_eq!(saturate_vec_count(0), 0);
    assert_eq!(saturate_vec_count(7), 7);
    assert_eq!(saturate_vec_count(i32::MAX as usize), i32::MAX);
}

#[test]
fn saturate_vec_count_saturates_instead_of_erroring() {
    assert_eq!(saturate_vec_count(i32::MAX as usize + 1), i32::MAX);
    assert_eq!(saturate_vec_count(usize::MAX), i32::MAX);
}
