//! The sending half of a connection.

use crate::collections::bytes::Bytes;
use crate::collections::watched::{Watched, WatchedValue};
use crate::protocols::tcp::established::state::congestion_ctrl::CongestionControl;
use crate::protocols::tcp::established::state::rto::{RtoCalculator, RTO_INITIAL};
use crate::protocols::tcp::{SeqNumber, Timestamp};
use std::collections::VecDeque;
use vstd::prelude::*;

verus! {

/// How far the sending half has come in closing.
#[derive(Clone, Copy, Debug, PartialEq, Eq, Structural)]
pub enum SenderState {
    /// Data may be sent.
    Open,
    /// The application has closed; data may still be in flight.
    Closed,
    /// Our FIN is on its way.
    SentFin,
    /// The peer has acknowledged our FIN.
    FinAckd,
    /// The connection was reset.
    Reset,
}

impl SenderState {
    /// The place of a state on the way from open to fully closed.
    pub open spec fn rank(self) -> int {
        match self {
            SenderState::Open => 0,
            SenderState::Closed => 1,
            SenderState::SentFin => 2,
            SenderState::FinAckd => 3,
            SenderState::Reset => 4,
        }
    }

    /// Whether a sender in state `self` may be in state `next` afterwards: it
    /// stays, takes the next step of the close, or is reset.
    pub open spec fn may_become(self, next: SenderState) -> bool {
        ||| next == self
        ||| next == SenderState::Reset
        ||| self != SenderState::Reset && next.rank() == self.rank() + 1
    }
}

/// A segment that was sent and is not acknowledged yet.
pub struct UnackedSegment {
    /// The payload.
    pub bytes: Bytes,
    /// When the segment was sent for the first time, or `None` once it was
    /// sent again: the time an acknowledgment takes to arrive says nothing
    /// about the round trip then, because it may answer either transmission.
    pub initial_tx: Option<Timestamp>,
}

impl UnackedSegment {
    /// The round-trip time that an acknowledgment arriving at `now` measures
    /// for this segment, if it measures one: a segment that was sent again
    /// yields no sample.
    pub fn rtt_sample(&self, now: Timestamp) -> (sample: Option<u64>)
        ensures
            sample == match self.initial_tx {
                None => None::<u64>,
                Some(sent) => Some(
                    if now >= sent {
                        (now - sent) as u64
                    } else {
                        0u64
                    },
                ),
            },
    {
        match self.initial_tx {
            None => None,
            Some(sent) => Some(now.saturating_sub(sent)),
        }
    }
}

/// The state of the sending half. The sequence numbers, the state and the
/// retransmission deadline can be watched.
pub struct Sender<CC> {
    pub state: WatchedValue<SenderState>,
    /// The first byte that is not acknowledged.
    pub base_seq_no: WatchedValue<SeqNumber>,
    /// The segments in flight, oldest first.
    pub unacked_queue: VecDeque<UnackedSegment>,
    /// The first byte that was not sent yet.
    pub sent_seq_no: WatchedValue<SeqNumber>,
    /// The first byte that the application has not handed over yet.
    pub unsent_seq_no: WatchedValue<SeqNumber>,
    /// When the oldest segment in flight is due to be sent again.
    pub retransmit_deadline: WatchedValue<Option<Timestamp>>,
    pub rto: RtoCalculator,
    pub congestion_ctrl: CC,
}

impl<CC: CongestionControl> Sender<CC> {
    /// An open sender with nothing in flight, whose stream starts at
    /// `seq_no` and whose segments carry at most `mss` bytes. Its strategy
    /// is the one that `CC::new` makes for that size and that number.
    pub fn new(seq_no: SeqNumber, mss: usize) -> (sender: Self)
        ensures
            sender.state.cell() == Watched::quiet(SenderState::Open),
            sender.base_seq_no.cell() == Watched::quiet(seq_no),
            sender.sent_seq_no.cell() == Watched::quiet(seq_no),
            sender.unsent_seq_no.cell() == Watched::quiet(seq_no),
            sender.retransmit_deadline.cell() == Watched::quiet(None::<Timestamp>),
            sender.unacked_queue@.len() == 0,
            sender.rto.rto() == RTO_INITIAL,
            !sender.rto.has_sample(),
            call_ensures(CC::new, (mss, seq_no), sender.congestion_ctrl),
    {
        Sender {
            state: WatchedValue::new(SenderState::Open),
            base_seq_no: WatchedValue::new(seq_no),
            unacked_queue: VecDeque::new(),
            sent_seq_no: WatchedValue::new(seq_no),
            unsent_seq_no: WatchedValue::new(seq_no),
            retransmit_deadline: WatchedValue::new(None),
            rto: RtoCalculator::new(),
            congestion_ctrl: CC::new(mss, seq_no),
        }
    }

    /// Takes into account the round-trip time that the acknowledgment of
    /// `segment`, arriving at `now`, measures. The estimate is left alone
    /// where the segment was sent more than once.
    pub fn sample_rtt(&mut self, segment: &UnackedSegment, now: Timestamp)
        ensures
            match segment.initial_tx {
                None => final(self).rto == old(self).rto,
                Some(sent) => final(self).rto.is_sampled(
                    &old(self).rto,
                    if now >= sent {
                        (now - sent) as u64
                    } else {
                        0u64
                    },
                ),
            },
            final(self).state == old(self).state,
            final(self).base_seq_no == old(self).base_seq_no,
            final(self).unacked_queue == old(self).unacked_queue,
            final(self).sent_seq_no == old(self).sent_seq_no,
            final(self).unsent_seq_no == old(self).unsent_seq_no,
            final(self).retransmit_deadline == old(self).retransmit_deadline,
            final(self).congestion_ctrl == old(self).congestion_ctrl,
    {
        match segment.rtt_sample(now) {
            None => (),
            Some(rtt) => self.rto.add_sample(rtt),
        }
    }
}

} // verus!
