//! Waiting with a limit.

use crate::fail::Fail;
use vstd::prelude::*;

verus! {

/// The outcome of a wait that races a timer, as it stands at one poll:
/// `output` is what the awaited task has produced, if it has finished, and
/// `timer_expired` says whether the timer has run out. The wait goes on
/// while neither has happened. Where only one has, it decides: the output
/// is handed on, or the wait fails with a timeout. Where both have, either
/// may win, and `timer_first` says which.
pub open spec fn timeout_outcome<T>(
    output: Option<T>,
    timer_expired: bool,
    timer_first: bool,
) -> Option<Result<T, Fail>> {
    match output {
        None => if timer_expired {
            Some(Err(Fail::Timeout))
        } else {
            None
        },
        Some(result) => if timer_expired && timer_first {
            Some(Err(Fail::Timeout))
        } else {
            Some(Ok(result))
        },
    }
}

/// Decides a wait that races a timer.
pub fn with_timeout<T>(output: Option<T>, timer_expired: bool, timer_first: bool) -> (outcome:
    Option<Result<T, Fail>>)
    ensures
        outcome == timeout_outcome(output, timer_expired, timer_first),
{
    match output {
        None => if timer_expired {
            Some(Err(Fail::Timeout))
        } else {
            None
        },
        Some(result) => if timer_expired && timer_first {
            Some(Err(Fail::Timeout))
        } else {
            Some(Ok(result))
        },
    }
}

} // verus!
