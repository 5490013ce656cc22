//! The congestion-control strategy of a sender: a policy that the sender
//! consults at fixed events of the protocol. A strategy answers at once; it
//! never waits. Where one of its values changes in a hook, the hook returns
//! the wake handles of the tasks that watch that value. A strategy that does
//! not say what a hook does takes no notice of the event: the hook changes
//! nothing and wakes nobody.

mod none;

pub use self::none::NoCongestionControl;
use crate::collections::waker_page::WakerRef;
use crate::protocols::tcp::SeqNumber;
use vstd::prelude::*;

verus! {

/// Slow start and congestion avoidance: the congestion window.
pub trait SlowStartCongestionAvoidance: Sized {
    /// The congestion window, in bytes.
    spec fn cwnd(&self) -> u32;

    fn get_cwnd(&self) -> (cwnd: u32)
        ensures
            cwnd == self.cwnd(),
    ;

    /// Reads the congestion window and begins to watch it: the task of
    /// `waker` is woken when the window changes.
    fn watch_cwnd(&mut self, waker: WakerRef) -> (cwnd: u32)
        ensures
            cwnd == old(self).cwnd(),
            final(self).cwnd() == old(self).cwnd(),
    ;

    /// Called right before the window is checked to decide whether data may
    /// be sent.
    fn on_cwnd_check_before_send(&mut self) -> (woken: Vec<WakerRef>)
        default_ensures
            woken@ == Seq::<WakerRef>::empty(),
            *final(self) == *old(self),
    {
        Vec::new()
    }

    /// Called when the peer acknowledges data up to `ack_seq_no`.
    fn on_ack_received(&mut self, _ack_seq_no: SeqNumber) -> (woken: Vec<WakerRef>)
        default_ensures
            woken@ == Seq::<WakerRef>::empty(),
            *final(self) == *old(self),
    {
        Vec::new()
    }

    /// Called right before a segment is sent again because the
    /// retransmission timer ran out.
    fn on_rto(&mut self) -> (woken: Vec<WakerRef>)
        default_ensures
            woken@ == Seq::<WakerRef>::empty(),
            *final(self) == *old(self),
    {
        Vec::new()
    }

    /// Called right before a segment of `num_sent_bytes` bytes is sent for
    /// the first time.
    fn on_send(&mut self, _num_sent_bytes: u32) -> (woken: Vec<WakerRef>)
        default_ensures
            woken@ == Seq::<WakerRef>::empty(),
            *final(self) == *old(self),
    {
        Vec::new()
    }
}

/// Fast retransmit and fast recovery, on top of slow start.
pub trait FastRetransmitRecovery: SlowStartCongestionAvoidance {
    /// How many duplicate acknowledgments arrived in a row.
    spec fn duplicate_ack_count(&self) -> u32;

    /// Whether the oldest unacknowledged segment is to be sent again now.
    spec fn retransmit_now(&self) -> bool;

    fn get_duplicate_ack_count(&self) -> (count: u32)
        ensures
            count == self.duplicate_ack_count(),
    ;

    fn get_retransmit_now_flag(&self) -> (flag: bool)
        ensures
            flag == self.retransmit_now(),
    ;

    /// Reads the flag and begins to watch it: the task of `waker` is woken
    /// when the flag changes.
    fn watch_retransmit_now_flag(&mut self, waker: WakerRef) -> (flag: bool)
        ensures
            flag == old(self).retransmit_now(),
            final(self).retransmit_now() == old(self).retransmit_now(),
    ;

    /// Called right before a segment is sent again on the evidence of
    /// duplicate acknowledgments.
    fn on_fast_retransmit(&mut self) -> (woken: Vec<WakerRef>)
        default_ensures
            woken@ == Seq::<WakerRef>::empty(),
            *final(self) == *old(self),
    {
        Vec::new()
    }

    /// Called when the first unacknowledged sequence number wraps around.
    fn on_base_seq_no_wraparound(&mut self) -> (woken: Vec<WakerRef>)
        default_ensures
            woken@ == Seq::<WakerRef>::empty(),
            *final(self) == *old(self),
    {
        Vec::new()
    }
}

/// Limited transmit, on top of slow start.
pub trait LimitedTransmit: SlowStartCongestionAvoidance {
    /// By how many bytes the sender may exceed the congestion window.
    spec fn limited_transmit_cwnd_increase(&self) -> u32;

    fn get_limited_transmit_cwnd_increase(&self) -> (increase: u32)
        ensures
            increase == self.limited_transmit_cwnd_increase(),
    ;

    /// Reads the increase and begins to watch it: the task of `waker` is
    /// woken when the increase changes.
    fn watch_limited_transmit_cwnd_increase(&mut self, waker: WakerRef) -> (increase: u32)
        ensures
            increase == old(self).limited_transmit_cwnd_increase(),
            final(self).limited_transmit_cwnd_increase() == old(
                self,
            ).limited_transmit_cwnd_increase(),
    ;
}

/// A complete strategy.
pub trait CongestionControl: SlowStartCongestionAvoidance + FastRetransmitRecovery + LimitedTransmit {
    /// A strategy for a connection whose segments carry at most `mss` bytes
    /// and whose first sequence number is `seq_no`.
    fn new(mss: usize, seq_no: SeqNumber) -> Self where Self: Sized;
}

} // verus!
