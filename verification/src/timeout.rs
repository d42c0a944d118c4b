//! A deadline that tells "got nowhere" from "got somewhere, try again".

use vstd::prelude::*;
use crate::error::{DynError, ErrorKind, SimpleError};

verus! {

/// How an operation under a progress-aware deadline ended.
#[derive(Debug, PartialEq, Eq)]
pub enum TimeoutWithProgress<R> {
    /// The deadline passed and no progress had been signalled.
    NoWorkTimeOutError,
    /// The deadline passed, but progress had been signalled at least once.
    SomeWorkTryAgain,
    /// The operation finished in time, with this result.
    Completed(R),
}

/// The receiving end of the progress channel: remembers whether `true` was
/// ever sent.
#[derive(Clone, Copy, Debug, PartialEq, Eq, Structural)]
pub struct ProgressWatch {
    pub seen: bool,
}

impl ProgressWatch {
    /// A watch that has seen nothing yet.
    pub fn new() -> (watch: ProgressWatch)
        ensures
            !watch.seen,
    {
        ProgressWatch { seen: false }
    }

    /// Takes note of one value sent over the progress channel.
    pub fn observe(&mut self, signal: bool)
        ensures
            final(self).seen == (old(self).seen || signal),
    {
        if signal {
            self.seen = true;
        }
    }

    /// Whether any progress was signalled so far.
    pub fn made_progress(&self) -> (seen: bool)
        ensures
            seen == self.seen,
    {
        self.seen
    }
}

/// The outcome of an operation, from its result if it finished before the
/// deadline and from whether it had signalled progress.
pub open spec fn spec_timeout_outcome<R>(
    finished: Option<R>,
    progress: bool,
) -> TimeoutWithProgress<R> {
    match finished {
        Some(result) => TimeoutWithProgress::Completed(result),
        None => if progress {
            TimeoutWithProgress::SomeWorkTryAgain
        } else {
            TimeoutWithProgress::NoWorkTimeOutError
        },
    }
}

/// Classifies the end of an operation that ran under a deadline: `finished`
/// holds its result if it ended in time, `watch` what its progress channel
/// received.
pub fn timeout_outcome<R>(
    finished: Option<R>,
    watch: &ProgressWatch,
) -> (outcome: TimeoutWithProgress<R>)
    ensures
        outcome == spec_timeout_outcome(finished, watch.seen),
{
    match finished {
        Some(result) => TimeoutWithProgress::Completed(result),
        None => {
            if watch.made_progress() {
                TimeoutWithProgress::SomeWorkTryAgain
            } else {
                TimeoutWithProgress::NoWorkTimeOutError
            }
        },
    }
}

/// Whether a partition's attempt is reported as a success, and if not, of
/// which kind its error is.
///
/// A timeout after progress is a success: the partition is picked up again
/// later. A timeout without progress is a `Timeout` error. An attempt that
/// finished reports what it returned.
pub open spec fn spec_partition_kind(
    outcome: TimeoutWithProgress<Result<(), DynError>>,
) -> Option<ErrorKind> {
    match outcome {
        TimeoutWithProgress::NoWorkTimeOutError => Some(ErrorKind::Timeout),
        TimeoutWithProgress::SomeWorkTryAgain => None,
        TimeoutWithProgress::Completed(Ok(_)) => None,
        TimeoutWithProgress::Completed(Err(e)) => Some(e.spec_classify()),
    }
}

/// `result` is what is reported for an attempt that ended as `outcome`:
/// what the attempt returned if it finished, success if it ran out of time
/// after progress, and a timeout error if it ran out of time without any.
pub open spec fn reports(
    result: Result<(), DynError>,
    outcome: TimeoutWithProgress<Result<(), DynError>>,
) -> bool {
    match outcome {
        TimeoutWithProgress::Completed(r) => result == r,
        TimeoutWithProgress::SomeWorkTryAgain => result is Ok,
        TimeoutWithProgress::NoWorkTimeOutError => {
            &&& result matches Err(DynError::Simple(e))
            &&& e.kind == ErrorKind::Timeout
            &&& e.msg@ == "timeout without making any progress"@
        },
    }
}

/// Turns the outcome of an attempt under the partition deadline into what is
/// reported for the partition.
pub fn partition_result(outcome: TimeoutWithProgress<Result<(), DynError>>) -> (res: Result<
    (),
    DynError,
>)
    ensures
        reports(res, outcome),
        res is Ok <==> spec_partition_kind(outcome) is None,
        res matches Err(e) ==> spec_partition_kind(outcome) == Some(e.spec_classify()),
{
    match outcome {
        // Timed out without any progress: something is wrong with this
        // partition, and the sink gets a timeout error to park it.
        TimeoutWithProgress::NoWorkTimeOutError => Err(
            DynError::Simple(
                SimpleError::new(ErrorKind::Timeout, "timeout without making any progress"),
            ),
        ),
        // Timed out, but some work was committed: fine, not to be parked.
        TimeoutWithProgress::SomeWorkTryAgain => Ok(()),
        // Finished in time: the sink decides what the result means.
        TimeoutWithProgress::Completed(res) => res,
    }
}

} // verus!
