//! The receiving half of a connection.

use crate::collections::watched::{Watched, WatchedValue};
use crate::protocols::tcp::SeqNumber;
use vstd::prelude::*;

verus! {

/// How far the receiving half has come in closing.
#[derive(Clone, Copy, Debug, PartialEq, Eq, Structural)]
pub enum ReceiverState {
    /// Data may arrive.
    Open,
    /// The peer's FIN has arrived.
    ReceivedFin,
    /// The peer's FIN was acknowledged.
    AckdFin,
}

impl ReceiverState {
    /// The place of a state on the way from open to fully closed.
    pub open spec fn rank(self) -> int {
        match self {
            ReceiverState::Open => 0,
            ReceiverState::ReceivedFin => 1,
            ReceiverState::AckdFin => 2,
        }
    }

    /// Whether a receiver in state `self` may be in state `next` afterwards:
    /// it stays or takes the next step of the close.
    pub open spec fn may_become(self, next: ReceiverState) -> bool {
        next == self || next.rank() == self.rank() + 1
    }
}

/// The state of the receiving half. All of it can be watched.
pub struct Receiver {
    pub state: WatchedValue<ReceiverState>,
    /// The first byte that has not arrived. The peer's FIN stands at this
    /// number once it has arrived.
    pub recv_seq_no: WatchedValue<SeqNumber>,
    /// The first byte that was not acknowledged to the peer.
    pub ack_seq_no: WatchedValue<SeqNumber>,
}

impl Receiver {
    /// An open receiver of a stream that starts at `seq_no`.
    pub fn new(seq_no: SeqNumber) -> (receiver: Self)
        ensures
            receiver.state.cell() == Watched::quiet(ReceiverState::Open),
            receiver.recv_seq_no.cell() == Watched::quiet(seq_no),
            receiver.ack_seq_no.cell() == Watched::quiet(seq_no),
    {
        Receiver {
            state: WatchedValue::new(ReceiverState::Open),
            recv_seq_no: WatchedValue::new(seq_no),
            ack_seq_no: WatchedValue::new(seq_no),
        }
    }
}

} // verus!
