use vstd::prelude::*;

verus! {

/// The ways a core operation can fail.  Every failure is reported
/// synchronously to the caller; none mutates any state.
#[derive(Clone, Copy, Debug, PartialEq, Eq, Structural)]
pub enum ServiceError {
    /// An elapsed-time lookup was made for a key that was never recorded.
    NotFound,
    /// A batch-statistics request named a weekday outside `0..=6`.
    InvalidWeekday,
    /// A batch-statistics request held a string that is not a valid
    /// time-ordered identifier.
    MalformedIdentifier,
}

} // verus!
