//! The strategy that does nothing: the window is as large as can be, and no
//! hook has any effect.

use super::{
    CongestionControl, FastRetransmitRecovery, LimitedTransmit, SlowStartCongestionAvoidance,
};
use crate::collections::waker_page::WakerRef;
use crate::protocols::tcp::SeqNumber;
use vstd::prelude::*;

verus! {

/// Congestion control switched off.
#[derive(Debug)]
pub struct NoCongestionControl {}

impl CongestionControl for NoCongestionControl {
    fn new(_mss: usize, _seq_no: SeqNumber) -> Self {
        Self {  }
    }
}

impl SlowStartCongestionAvoidance for NoCongestionControl {
    open spec fn cwnd(&self) -> u32 {
        u32::MAX
    }

    fn get_cwnd(&self) -> (cwnd: u32) {
        u32::MAX
    }

    fn watch_cwnd(&mut self, _waker: WakerRef) -> (cwnd: u32) {
        u32::MAX
    }

    fn on_cwnd_check_before_send(&mut self) -> (woken: Vec<WakerRef>)
        ensures
            woken@.len() == 0,
    {
        Vec::new()
    }

    fn on_ack_received(&mut self, _ack_seq_no: SeqNumber) -> (woken: Vec<WakerRef>)
        ensures
            woken@.len() == 0,
    {
        Vec::new()
    }

    fn on_rto(&mut self) -> (woken: Vec<WakerRef>)
        ensures
            woken@.len() == 0,
    {
        Vec::new()
    }

    fn on_send(&mut self, _num_sent_bytes: u32) -> (woken: Vec<WakerRef>)
        ensures
            woken@.len() == 0,
    {
        Vec::new()
    }
}

impl FastRetransmitRecovery for NoCongestionControl {
    open spec fn duplicate_ack_count(&self) -> u32 {
        0
    }

    open spec fn retransmit_now(&self) -> bool {
        false
    }

    fn get_duplicate_ack_count(&self) -> (count: u32) {
        0
    }

    fn get_retransmit_now_flag(&self) -> (flag: bool) {
        false
    }

    fn watch_retransmit_now_flag(&mut self, _waker: WakerRef) -> (flag: bool) {
        false
    }

    fn on_fast_retransmit(&mut self) -> (woken: Vec<WakerRef>)
        ensures
            woken@.len() == 0,
    {
        Vec::new()
    }

    fn on_base_seq_no_wraparound(&mut self) -> (woken: Vec<WakerRef>)
        ensures
            woken@.len() == 0,
    {
        Vec::new()
    }
}

impl LimitedTransmit for NoCongestionControl {
    open spec fn limited_transmit_cwnd_increase(&self) -> u32 {
        0
    }

    fn get_limited_transmit_cwnd_increase(&self) -> (increase: u32) {
        0
    }

    fn watch_limited_transmit_cwnd_increase(&mut self, _waker: WakerRef) -> (increase: u32) {
        0
    }
}

} // verus!
