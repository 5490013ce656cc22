//! The tasks that run for as long as a connection is established.

pub mod closer;
pub mod retransmitter;

use crate::protocols::tcp::established::background::closer::CloserStep;
use vstd::prelude::*;

verus! {

/// Why the tasks of a connection have ended.
#[derive(Clone, Copy, Debug, PartialEq, Eq, Structural)]
pub enum Termination {
    /// The connection was closed in both directions.
    Closed,
    /// The connection was reset.
    Reset,
    /// The peer could not be reached in time.
    TimedOut,
}

/// How a step of the closing tasks ends the connection, if it does, once
/// its segment was emitted.
pub fn closer_outcome(step: CloserStep) -> (outcome: Option<Termination>)
    ensures
        outcome == match step {
            CloserStep::Wait => None::<Termination>,
            CloserStep::Emit(_) => None::<Termination>,
            CloserStep::Abort(_) => Some(Termination::Reset),
            CloserStep::Finished => Some(Termination::Closed),
        },
{
    match step {
        CloserStep::Wait => None,
        CloserStep::Emit(_) => None,
        CloserStep::Abort(_) => Some(Termination::Reset),
        CloserStep::Finished => Some(Termination::Closed),
    }
}

/// The outcome of one round of the tasks of a connection, given the outcome
/// of each. The first task that has ended decides, in this order: the
/// closing tasks, then the acknowledger, the retransmitter and the sender.
/// The connection goes on only while none of them has ended.
pub fn background(
    acknowledger: Option<Termination>,
    retransmitter: Option<Termination>,
    sender: Option<Termination>,
    closer: Option<Termination>,
) -> (outcome: Option<Termination>)
    ensures
        outcome == if closer is Some {
            closer
        } else if acknowledger is Some {
            acknowledger
        } else if retransmitter is Some {
            retransmitter
        } else {
            sender
        },
{
    if closer.is_some() {
        closer
    } else if acknowledger.is_some() {
        acknowledger
    } else if retransmitter.is_some() {
        retransmitter
    } else {
        sender
    }
}

} // verus!
