use compactor::error::{DynError, ErrorKind, SimpleError};
use compactor::timeout::{partition_result, timeout_outcome, ProgressWatch, TimeoutWithProgress};

#[test]
fn operation_that_signals_then_runs_late_made_some_work() {
    let mut watch = ProgressWatch::new();
    watch.observe(true);
    let outcome: TimeoutWithProgress<u8> = timeout_outcome(None, &watch);
    assert_eq!(outcome, TimeoutWithProgress::SomeWorkTryAgain);
}

#[test]
fn operation_that_never_signals_made_no_work() {
    let watch = ProgressWatch::new();
    let outcome: TimeoutWithProgress<u8> = timeout_outcome(None, &watch);
    assert_eq!(outcome, TimeoutWithProgress::NoWorkTimeOutError);

    let mut watch = ProgressWatch::new();
    watch.observe(false);
    assert!(!watch.made_progress());
    let outcome: TimeoutWithProgress<u8> = timeout_outcome(None, &watch);
    assert_eq!(outcome, TimeoutWithProgress::NoWorkTimeOutError);
}

#[test]
fn operation_that_completes_is_completed() {
    let watch = ProgressWatch::new();
    assert_eq!(timeout_outcome(Some(7u8), &watch), TimeoutWithProgress::Completed(7u8));
    let mut watch = ProgressWatch::new();
    watch.observe(true);
    assert_eq!(timeout_outcome(Some(7u8), &watch), TimeoutWithProgress::Completed(7u8));
}

#[test]
fn progress_once_seen_stays_seen() {
    let mut watch = ProgressWatch::new();
    watch.observe(true);
    watch.observe(false);
    assert!(watch.made_progress());
}

#[test]
fn timeout_without_progress_is_a_timeout_error() {
    let res = partition_result(TimeoutWithProgress::NoWorkTimeOutError);
    assert_eq!(
        res,
        Err(DynError::Simple(SimpleError {
            kind: ErrorKind::Timeout,
            msg: String::from("timeout without making any progress"),
        }))
    );
    assert_eq!(res.unwrap_err().classify(), ErrorKind::Timeout);
}

#[test]
fn timeout_after_progress_is_a_success() {
    assert_eq!(partition_result(TimeoutWithProgress::SomeWorkTryAgain), Ok(()));
}

#[test]
fn completed_attempt_reports_what_it_returned() {
    assert_eq!(partition_result(TimeoutWithProgress::Completed(Ok(()))), Ok(()));
    let res = partition_result(TimeoutWithProgress::Completed(Err(DynError::Catalog(
        String::from("gone"),
    ))));
    assert_eq!(res, Err(DynError::Catalog(String::from("gone"))));
}
