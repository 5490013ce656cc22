//! The failures that operations of the stack report.

use vstd::prelude::*;

verus! {

/// Why an operation did not succeed.
#[derive(Clone, Copy, Debug, PartialEq, Eq)]
pub enum Fail {
    /// An argument is not acceptable.
    Invalid { details: &'static str },
    /// A packet does not follow its format.
    Malformed { details: &'static str },
    /// A number is outside the range of what it stands for.
    OutOfRange { details: &'static str },
    /// No more of a resource can be had.
    ResourceExhausted { details: &'static str },
    /// A wait ran out of time.
    Timeout,
}

} // verus!
