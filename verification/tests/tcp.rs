use catnip::collections::bytes::Bytes;
use catnip::collections::waker_page::WakerRef;
use catnip::fail::Fail;
use catnip::futures_utility::with_timeout;
use catnip::protocols::ip::Port;
use catnip::protocols::ipv4::Endpoint;
use catnip::protocols::tcp::established::background::closer::{
    close_wait, connection_terminated, sender_ack_fin, sender_send_fin, CloserStep,
};
use catnip::protocols::tcp::established::background::retransmitter::{
    resend, retransmit, retransmitter, RetransmitCause, RetransmitterStep,
};
use catnip::protocols::tcp::established::background::{background, closer_outcome, Termination};
use catnip::protocols::tcp::established::state::congestion_ctrl::{
    CongestionControl, FastRetransmitRecovery, LimitedTransmit, NoCongestionControl,
    SlowStartCongestionAvoidance,
};
use catnip::protocols::tcp::established::state::receiver::ReceiverState;
use catnip::protocols::tcp::established::state::rto::{
    RtoCalculator, RTO_INITIAL, RTO_LOWER_BOUND, RTO_UPPER_BOUND,
};
use catnip::protocols::tcp::established::state::sender::{SenderState, UnackedSegment};
use catnip::protocols::tcp::established::state::ControlBlock;
use catnip::protocols::tcp::isn_generator::{isn_from_hash, IsnGenerator};
use catnip::protocols::tcp::constants::{DEFAULT_MSS, MAX_MSS, MIN_MSS};
use catnip::protocols::tcp::segment::TcpHeader;
use catnip::protocols::tcp::Options;
use catnip::runtime::RuntimeBuf;
use catnip::scheduler::Context;

type Cb = ControlBlock<NoCongestionControl>;

fn new_cb() -> Cb {
    ControlBlock::new(1000, 5000, 1460)
}

fn ctx(addr: usize) -> Context {
    Context::new(WakerRef::from_raw(addr))
}

fn header() -> TcpHeader {
    TcpHeader::new()
}

/// The wakes that a step left in its context, delivered to nobody.
fn woken(cb: &mut Cb, step: fn(&mut Cb, &mut Context) -> CloserStep) -> CloserStep {
    let mut ctx = ctx(0);
    step(cb, &mut ctx)
}

#[test]
fn new_control_block_is_open() {
    let cb = new_cb();
    assert_eq!(cb.sender.state.get(), SenderState::Open);
    assert_eq!(cb.sender.base_seq_no.get(), 1000);
    assert_eq!(cb.sender.sent_seq_no.get(), 1000);
    assert_eq!(cb.sender.unsent_seq_no.get(), 1000);
    assert_eq!(cb.sender.retransmit_deadline.get(), None);
    assert_eq!(cb.sender.unacked_queue.len(), 0);
    assert_eq!(cb.sender.rto.estimate(), RTO_INITIAL);
    assert_eq!(cb.receiver.state.get(), ReceiverState::Open);
    assert_eq!(cb.receiver.recv_seq_no.get(), 5000);
    assert_eq!(cb.receiver.ack_seq_no.get(), 5000);
    assert_eq!(cb.tcp_header(), header());
}

#[test]
fn connection_close() {
    let mut cb = new_cb();
    let mut me = ctx(3);
    // Nothing to do while the connection is open.
    assert_eq!(connection_terminated(&mut cb, &mut me), CloserStep::Wait);

    // The application closes with everything sent: our FIN goes out.
    let wakes = cb.sender.state.set(SenderState::Closed);
    assert_eq!(wakes, vec![WakerRef::from_raw(3)]);
    let step = connection_terminated(&mut cb, &mut me);
    let mut fin = header();
    fin.seq_num = 1000;
    fin.fin = true;
    assert_eq!(step, CloserStep::Emit(fin));
    assert_eq!(cb.sender.state.get(), SenderState::SentFin);
    assert_eq!(connection_terminated(&mut cb, &mut me), CloserStep::Wait);

    // The peer's FIN arrives while some data is not acknowledged yet.
    cb.receiver.recv_seq_no.set(5100);
    cb.receiver.state.set(ReceiverState::ReceivedFin);
    assert_eq!(connection_terminated(&mut cb, &mut me), CloserStep::Wait);
    assert_eq!(cb.receiver.state.get(), ReceiverState::ReceivedFin);

    // Once the acknowledgments have caught up, the FIN is acknowledged.
    let wakes = cb.receiver.ack_seq_no.set(5100);
    assert_eq!(wakes, vec![WakerRef::from_raw(3)]);
    let step = connection_terminated(&mut cb, &mut me);
    let mut ack = header();
    ack.ack = true;
    ack.ack_num = 5101;
    assert_eq!(step, CloserStep::Emit(ack));
    assert_eq!(cb.receiver.state.get(), ReceiverState::AckdFin);

    // Our FIN is not acknowledged yet: the connection goes on.
    assert_eq!(connection_terminated(&mut cb, &mut me), CloserStep::Wait);
    assert_eq!(closer_outcome(CloserStep::Wait), None);

    // The peer acknowledges our FIN: the connection is closed.
    cb.sender.state.set(SenderState::FinAckd);
    let step = connection_terminated(&mut cb, &mut me);
    assert_eq!(step, CloserStep::Finished);
    assert_eq!(closer_outcome(step), Some(Termination::Closed));
    assert_eq!(cb.sender.state.get(), SenderState::FinAckd);
    assert_eq!(cb.receiver.state.get(), ReceiverState::AckdFin);
}

#[test]
fn fin_waits_for_unsent_data() {
    let mut cb = new_cb();
    cb.sender.unsent_seq_no.set(1500);
    cb.sender.sent_seq_no.set(1200);
    cb.sender.state.set(SenderState::Closed);
    let mut me = ctx(8);
    assert_eq!(sender_send_fin(&mut cb, &mut me), CloserStep::Wait);
    assert_eq!(cb.sender.state.get(), SenderState::Closed);
    // The task watches the number it waits for.
    let wakes = cb.sender.sent_seq_no.set(1400);
    assert_eq!(wakes, vec![WakerRef::from_raw(8)]);
    assert_eq!(sender_send_fin(&mut cb, &mut me), CloserStep::Wait);
    cb.sender.sent_seq_no.set(1500);
    let mut fin = header();
    fin.seq_num = 1500;
    fin.fin = true;
    assert_eq!(sender_send_fin(&mut cb, &mut me), CloserStep::Emit(fin));
    assert_eq!(cb.sender.state.get(), SenderState::SentFin);
    // The FIN is sent once.
    assert_eq!(sender_send_fin(&mut cb, &mut me), CloserStep::Wait);
}

#[test]
fn fin_wakes_those_who_watch_the_state() {
    let mut cb = new_cb();
    cb.sender.state.set(SenderState::Closed);
    cb.sender.state.watch(WakerRef::from_raw(70));
    cb.sender.state.watch(WakerRef::from_raw(71));
    let mut me = ctx(2);
    me.wake(WakerRef::from_raw(1));
    assert!(matches!(sender_send_fin(&mut cb, &mut me), CloserStep::Emit(_)));
    // Those who watched are woken through the context of the poll.
    let mut expected = ctx(2);
    expected.wake(WakerRef::from_raw(1));
    expected.wake(WakerRef::from_raw(70));
    expected.wake(WakerRef::from_raw(71));
    assert_eq!(cb.sender.state.set(SenderState::SentFin), vec![]);
    assert_eq!(me.waker(), expected.waker());
}

#[test]
fn reset_aborts_the_connection() {
    for state in [SenderState::Open, SenderState::Closed, SenderState::SentFin, SenderState::FinAckd] {
        let mut cb = new_cb();
        cb.sender.state.set(state);
        cb.sender.state.set(SenderState::Reset);
        let step = woken(&mut cb, connection_terminated);
        let mut rst = header();
        rst.rst = true;
        assert_eq!(step, CloserStep::Abort(rst));
        assert_eq!(closer_outcome(step), Some(Termination::Reset));
        assert_eq!(cb.sender.state.get(), SenderState::Reset);
    }
}

#[test]
fn fin_ack_waits_for_acknowledgments() {
    let mut cb = new_cb();
    let mut me = ctx(4);
    assert_eq!(sender_ack_fin(&mut cb, &mut me), CloserStep::Wait);
    cb.receiver.recv_seq_no.set(u32::MAX);
    cb.receiver.ack_seq_no.set(u32::MAX - 10);
    cb.receiver.state.set(ReceiverState::ReceivedFin);
    assert_eq!(sender_ack_fin(&mut cb, &mut me), CloserStep::Wait);
    assert_eq!(cb.receiver.state.get(), ReceiverState::ReceivedFin);
    cb.receiver.ack_seq_no.set(u32::MAX);
    // The acknowledgment number wraps around.
    let mut ack = header();
    ack.ack = true;
    ack.ack_num = 0;
    assert_eq!(sender_ack_fin(&mut cb, &mut me), CloserStep::Emit(ack));
    assert_eq!(cb.receiver.state.get(), ReceiverState::AckdFin);
    // The FIN is acknowledged once.
    assert_eq!(sender_ack_fin(&mut cb, &mut me), CloserStep::Wait);
}

#[test]
fn close_wait_needs_both_directions() {
    let mut cb = new_cb();
    assert_eq!(woken(&mut cb, close_wait), CloserStep::Wait);
    cb.sender.state.set(SenderState::FinAckd);
    assert_eq!(woken(&mut cb, close_wait), CloserStep::Wait);
    cb.receiver.state.set(ReceiverState::ReceivedFin);
    assert_eq!(woken(&mut cb, close_wait), CloserStep::Wait);
    cb.receiver.state.set(ReceiverState::AckdFin);
    assert_eq!(woken(&mut cb, close_wait), CloserStep::Finished);
    let mut other = new_cb();
    other.receiver.state.set(ReceiverState::AckdFin);
    assert_eq!(woken(&mut other, close_wait), CloserStep::Wait);
}

#[test]
fn acknowledging_their_fin_comes_before_sending_ours() {
    let mut cb = new_cb();
    cb.sender.state.set(SenderState::Closed);
    cb.receiver.state.set(ReceiverState::ReceivedFin);
    let mut ack = header();
    ack.ack = true;
    ack.ack_num = 5001;
    assert_eq!(woken(&mut cb, connection_terminated), CloserStep::Emit(ack));
    assert_eq!(cb.sender.state.get(), SenderState::Closed);
    let mut fin = header();
    fin.seq_num = 1000;
    fin.fin = true;
    assert_eq!(woken(&mut cb, connection_terminated), CloserStep::Emit(fin));
    assert_eq!(woken(&mut cb, connection_terminated), CloserStep::Wait);
}

#[test]
fn first_ended_task_decides() {
    let closed = Termination::Closed;
    let reset = Termination::Reset;
    let timed_out = Termination::TimedOut;
    assert_eq!(background(None, None, None, None), None);
    assert_eq!(background(None, None, None, Some(closed)), Some(closed));
    // The closing tasks come before all others.
    assert_eq!(background(Some(timed_out), None, None, Some(closed)), Some(closed));
    assert_eq!(background(None, Some(timed_out), None, Some(closed)), Some(closed));
    assert_eq!(background(None, None, Some(reset), Some(closed)), Some(closed));
    assert_eq!(background(Some(timed_out), Some(timed_out), Some(timed_out), Some(reset)), Some(reset));
    // Then the acknowledger, the retransmitter and the sender, in this order.
    assert_eq!(background(Some(reset), Some(timed_out), Some(closed), None), Some(reset));
    assert_eq!(background(None, Some(timed_out), Some(closed), None), Some(timed_out));
    assert_eq!(background(None, None, Some(closed), None), Some(closed));
    assert_eq!(closer_outcome(CloserStep::Emit(header())), None);
}

fn segment(bytes: &[u8], sent: u64) -> UnackedSegment {
    UnackedSegment { bytes: Bytes::from_slice(bytes), initial_tx: Some(sent) }
}

#[test]
fn retransmission_after_timeout() {
    let mut cb = new_cb();
    cb.sender.unacked_queue.push_back(segment(&[1, 2, 3], 100));
    cb.sender.sent_seq_no.set(1003);
    cb.sender.unsent_seq_no.set(1003);
    // The deadline lies in the past.
    cb.sender.retransmit_deadline.set(Some(500));
    let now = 2_000_000;
    let mut me = ctx(1);
    let step = retransmitter(&mut cb, now, &mut me);
    assert_eq!(step, RetransmitterStep::Retransmit(RetransmitCause::TimeOut));
    let before = cb.sender.rto.estimate();
    assert!(retransmit(RetransmitCause::TimeOut, &mut cb));
    // The timeout has grown.
    assert_eq!(cb.sender.rto.estimate(), 2 * before);
    let sent = resend(&mut cb, now, &mut me).unwrap();
    let mut expected = header();
    expected.seq_num = 1000;
    assert_eq!(sent.header, expected);
    assert_eq!(*sent.bytes, [1, 2, 3]);
    // The segment stays in flight, without the time of its first transmission.
    assert_eq!(cb.sender.unacked_queue.len(), 1);
    assert_eq!(cb.sender.unacked_queue[0].initial_tx, None);
    assert_eq!(*cb.sender.unacked_queue[0].bytes, [1, 2, 3]);
    // The next deadline is one timeout from now.
    assert_eq!(cb.sender.retransmit_deadline.get(), Some(now + 2 * before));
    // Exactly one retransmission: nothing is due before the new deadline.
    assert_eq!(
        retransmitter(&mut cb, now, &mut me),
        RetransmitterStep::Wait(Some(now + 2 * before))
    );
}

#[test]
fn retransmission_without_link_address() {
    let mut cb = new_cb();
    cb.sender.unacked_queue.push_back(segment(&[1, 2, 3], 100));
    cb.sender.unacked_queue.push_back(segment(&[4], 200));
    cb.sender.retransmit_deadline.set(Some(500));
    let before = cb.sender.rto.estimate();
    assert!(retransmit(RetransmitCause::TimeOut, &mut cb));
    // The address of the peer cannot be found: nothing is sent and no new
    // deadline is set. The failure is recorded all the same, and the
    // segment has lost the time of its first transmission.
    assert_eq!(cb.sender.rto.estimate(), 2 * before);
    assert_eq!(cb.sender.unacked_queue.len(), 2);
    assert_eq!(cb.sender.unacked_queue[0].initial_tx, None);
    assert_eq!(*cb.sender.unacked_queue[0].bytes, [1, 2, 3]);
    assert_eq!(cb.sender.unacked_queue[1].initial_tx, Some(200));
    assert_eq!(cb.sender.retransmit_deadline.get(), Some(500));
    assert_eq!(cb.sender.unacked_queue[0].rtt_sample(1_000_000), None);
}

#[test]
fn fast_retransmission_clears_the_time_at_once() {
    let mut cb = new_cb();
    cb.sender.unacked_queue.push_back(segment(&[9], 100));
    let before = cb.sender.rto.estimate();
    assert!(retransmit(RetransmitCause::FastRetransmit, &mut cb));
    assert_eq!(cb.sender.rto.estimate(), before);
    assert_eq!(cb.sender.unacked_queue[0].initial_tx, None);
    assert_eq!(*cb.sender.unacked_queue[0].bytes, [9]);
}

#[test]
fn retransmission_with_empty_queue_is_no_error() {
    let mut cb = new_cb();
    let before = cb.sender.rto.estimate();
    assert!(!retransmit(RetransmitCause::TimeOut, &mut cb));
    assert!(!retransmit(RetransmitCause::FastRetransmit, &mut cb));
    assert_eq!(cb.sender.rto.estimate(), before);
    let mut me = ctx(1);
    assert!(resend(&mut cb, 10, &mut me).is_none());
    assert_eq!(cb.sender.retransmit_deadline.get(), None);
}

#[test]
fn fast_retransmit_leaves_timeout_alone() {
    let mut cb = new_cb();
    cb.sender.unacked_queue.push_back(segment(&[7; 10], 100));
    cb.sender.unacked_queue.push_back(segment(&[8; 10], 200));
    cb.sender.base_seq_no.set(77);
    let before = cb.sender.rto.estimate();
    assert!(retransmit(RetransmitCause::FastRetransmit, &mut cb));
    assert_eq!(cb.sender.rto.estimate(), before);
    let mut me = ctx(1);
    let sent = resend(&mut cb, 1_000, &mut me).unwrap();
    assert_eq!(sent.header.seq_num, 77);
    assert_eq!(*sent.bytes, [7; 10]);
    // Only the oldest segment was sent again.
    assert_eq!(cb.sender.unacked_queue.len(), 2);
    assert_eq!(cb.sender.unacked_queue[0].initial_tx, None);
    assert_eq!(cb.sender.unacked_queue[1].initial_tx, Some(200));
    assert_eq!(*cb.sender.unacked_queue[1].bytes, [8; 10]);
    assert_eq!(cb.sender.retransmit_deadline.get(), Some(1_000 + before));
}

#[test]
fn resend_wakes_those_who_watch_the_deadline() {
    let mut cb = new_cb();
    cb.sender.unacked_queue.push_back(segment(&[1], 0));
    let mut me = ctx(6);
    assert_eq!(retransmitter(&mut cb, 5, &mut me), RetransmitterStep::Wait(None));
    // The retransmitter watches the deadline now.
    resend(&mut cb, 5, &mut me).unwrap();
    assert_eq!(cb.sender.retransmit_deadline.set(None), vec![]);
    let mut again = ctx(6);
    assert_eq!(retransmitter(&mut cb, 5, &mut again), RetransmitterStep::Wait(None));
    assert_eq!(cb.sender.retransmit_deadline.set(Some(9)), vec![WakerRef::from_raw(6)]);
}

#[test]
fn deadline_saturates() {
    let mut cb = new_cb();
    cb.sender.unacked_queue.push_back(segment(&[1], 0));
    let mut me = ctx(0);
    resend(&mut cb, u64::MAX - 5, &mut me).unwrap();
    assert_eq!(cb.sender.retransmit_deadline.get(), Some(u64::MAX));
}

#[test]
fn retransmitter_waits_for_deadline() {
    let mut cb = new_cb();
    let mut me = ctx(0);
    assert_eq!(retransmitter(&mut cb, 0, &mut me), RetransmitterStep::Wait(None));
    cb.sender.retransmit_deadline.set(Some(100));
    assert_eq!(retransmitter(&mut cb, 99, &mut me), RetransmitterStep::Wait(Some(100)));
    assert_eq!(
        retransmitter(&mut cb, 100, &mut me),
        RetransmitterStep::Retransmit(RetransmitCause::TimeOut)
    );
    assert_eq!(
        retransmitter(&mut cb, 101, &mut me),
        RetransmitterStep::Retransmit(RetransmitCause::TimeOut)
    );
}

/// A strategy that asks for a fast retransmit until it is told of one.
struct Eager {
    flag: bool,
    rto_hooks: usize,
}

impl SlowStartCongestionAvoidance for Eager {
    fn cwnd(&self) -> u32 {
        1460
    }

    fn get_cwnd(&self) -> u32 {
        1460
    }

    fn watch_cwnd(&mut self, _waker: WakerRef) -> u32 {
        1460
    }

    fn on_rto(&mut self) -> Vec<WakerRef> {
        self.rto_hooks += 1;
        vec![WakerRef::from_raw(40)]
    }
}

impl FastRetransmitRecovery for Eager {
    fn duplicate_ack_count(&self) -> u32 {
        3
    }

    fn retransmit_now(&self) -> bool {
        self.flag
    }

    fn get_duplicate_ack_count(&self) -> u32 {
        3
    }

    fn get_retransmit_now_flag(&self) -> bool {
        self.flag
    }

    fn watch_retransmit_now_flag(&mut self, _waker: WakerRef) -> bool {
        self.flag
    }

    fn on_fast_retransmit(&mut self) -> Vec<WakerRef> {
        self.flag = false;
        vec![]
    }
}

impl LimitedTransmit for Eager {
    fn limited_transmit_cwnd_increase(&self) -> u32 {
        0
    }

    fn get_limited_transmit_cwnd_increase(&self) -> u32 {
        0
    }

    fn watch_limited_transmit_cwnd_increase(&mut self, _waker: WakerRef) -> u32 {
        0
    }
}

impl CongestionControl for Eager {
    fn new(_mss: usize, _seq_no: u32) -> Self {
        Eager { flag: true, rto_hooks: 0 }
    }
}

#[test]
fn fast_retransmit_comes_before_timer() {
    let mut cb: ControlBlock<Eager> = ControlBlock::new(0, 0, 1460);
    cb.sender.retransmit_deadline.set(Some(10));
    let mut me = ctx(0);
    assert_eq!(
        retransmitter(&mut cb, 50, &mut me),
        RetransmitterStep::Retransmit(RetransmitCause::FastRetransmit)
    );
    assert_eq!(cb.sender.congestion_ctrl.rto_hooks, 0);
    // The strategy was told and has withdrawn its flag: the timer is next.
    assert_eq!(
        retransmitter(&mut cb, 50, &mut me),
        RetransmitterStep::Retransmit(RetransmitCause::TimeOut)
    );
    assert_eq!(cb.sender.congestion_ctrl.rto_hooks, 1);
}

#[test]
fn no_congestion_control_is_unlimited() {
    let mut cc = NoCongestionControl::new(1460, 0);
    let w = WakerRef::from_raw(0);
    assert_eq!(cc.get_cwnd(), u32::MAX);
    assert_eq!(cc.watch_cwnd(w), u32::MAX);
    assert_eq!(cc.get_duplicate_ack_count(), 0);
    assert!(!cc.get_retransmit_now_flag());
    assert!(!cc.watch_retransmit_now_flag(w));
    assert_eq!(cc.get_limited_transmit_cwnd_increase(), 0);
    assert_eq!(cc.watch_limited_transmit_cwnd_increase(w), 0);
    assert!(cc.on_cwnd_check_before_send().is_empty());
    assert!(cc.on_ack_received(5).is_empty());
    assert!(cc.on_rto().is_empty());
    assert!(cc.on_send(100).is_empty());
    assert!(cc.on_fast_retransmit().is_empty());
    assert!(cc.on_base_seq_no_wraparound().is_empty());
    assert_eq!(cc.get_cwnd(), u32::MAX);
}

#[test]
fn rto_backs_off_to_upper_bound() {
    let mut rto = RtoCalculator::new();
    assert_eq!(rto.estimate(), 1_000_000);
    let mut expected = 1_000_000u64;
    for _ in 0..10 {
        rto.record_failure();
        expected = (2 * expected).min(RTO_UPPER_BOUND);
        assert_eq!(rto.estimate(), expected);
    }
    assert_eq!(rto.estimate(), 60_000_000);
}

#[test]
fn rto_follows_samples() {
    let mut rto = RtoCalculator::new();
    // First sample: srtt = 200 ms, rttvar = 100 ms, rto = srtt + 4 * rttvar.
    rto.add_sample(200_000);
    assert_eq!(rto.estimate(), 600_000);
    // Second sample of 100 ms: rttvar = (3 * 100 + 100) / 4 = 100 ms,
    // srtt = (7 * 200 + 100) / 8 = 187.5 ms.
    rto.add_sample(100_000);
    assert_eq!(rto.estimate(), 187_500 + 400_000);
    // A failure doubles the timeout and keeps the estimate.
    rto.record_failure();
    assert_eq!(rto.estimate(), 2 * 587_500);
    // Third sample of 187.5 ms: rttvar = 75 ms, srtt stays.
    rto.add_sample(187_500);
    assert_eq!(rto.estimate(), 187_500 + 300_000);
}

#[test]
fn rto_stays_in_range() {
    let mut rto = RtoCalculator::new();
    rto.add_sample(0);
    assert_eq!(rto.estimate(), RTO_LOWER_BOUND);
    rto.add_sample(u64::MAX);
    assert!(rto.estimate() <= RTO_UPPER_BOUND);
    let mut slow = RtoCalculator::new();
    slow.add_sample(u64::MAX);
    assert_eq!(slow.estimate(), RTO_UPPER_BOUND);
    // A steady round trip leaves the clock's resolution as the margin at least.
    let mut steady = RtoCalculator::new();
    for _ in 0..200 {
        steady.add_sample(500_000);
    }
    assert!(steady.estimate() >= 501_000);
}

#[test]
fn resent_segment_gives_no_sample() {
    let fresh = segment(&[1], 1_000);
    assert_eq!(fresh.rtt_sample(1_250), Some(250));
    assert_eq!(fresh.rtt_sample(900), Some(0));
    let resent = UnackedSegment { bytes: Bytes::from_slice(&[1]), initial_tx: None };
    assert_eq!(resent.rtt_sample(1_250), None);

    let mut cb = new_cb();
    cb.sender.unacked_queue.push_back(segment(&[1], 1_000));
    let mut me = ctx(0);
    resend(&mut cb, 50_000, &mut me).unwrap();
    let acked = cb.sender.unacked_queue.pop_front().unwrap();
    let before = cb.sender.rto.estimate();
    cb.sender.sample_rtt(&acked, 90_000);
    assert_eq!(cb.sender.rto.estimate(), before);
    // A segment that was sent once does give a sample.
    cb.sender.sample_rtt(&fresh, 201_000);
    assert_eq!(cb.sender.rto.estimate(), 600_000);
}

fn endpoint(addr: u32, port: u16) -> Endpoint {
    Endpoint::new(addr, Port::try_from(port).unwrap())
}

#[test]
fn isn_is_checksum_plus_counter() {
    let local = endpoint(0xC0A8_0101, 80);
    let remote = endpoint(0xC0A8_0102, 8080);
    let mut generator = IsnGenerator::new(0x1234_5678);
    assert_eq!(generator.generate(&local, &remote), 0x2c33_7689);
    assert_eq!(generator.generate(&local, &remote), 0x2c33_768a);
    assert_eq!(generator.generate(&local, &remote), 0x2c33_768b);
    // Another connection gets another number.
    let mut other = IsnGenerator::new(0);
    assert_eq!(other.generate(&endpoint(0, 1), &endpoint(0, 1)), 0xbc42_d49f);
    // The two directions of a connection differ.
    let mut forth = IsnGenerator::new(9);
    let mut back = IsnGenerator::new(9);
    assert_ne!(forth.generate(&local, &remote), back.generate(&remote, &local));
}

#[test]
fn isn_counter_wraps_around() {
    assert_eq!(isn_from_hash(10, 5), 15);
    assert_eq!(isn_from_hash(u32::MAX, 1), 0);
    assert_eq!(isn_from_hash(u32::MAX - 1, u16::MAX), 65533);
    let local = endpoint(1, 1);
    let remote = endpoint(2, 2);
    let mut generator = IsnGenerator::new(3);
    let first = generator.generate(&local, &remote);
    for _ in 0..65535 {
        generator.generate(&local, &remote);
    }
    assert_eq!(generator.generate(&local, &remote), first);
}

#[test]
fn wait_with_timeout() {
    assert_eq!(with_timeout(None::<u8>, false, false), None);
    assert_eq!(with_timeout(None::<u8>, false, true), None);
    assert_eq!(with_timeout(None::<u8>, true, false), Some(Err(Fail::Timeout)));
    assert_eq!(with_timeout(Some(7u8), false, true), Some(Ok(7)));
    assert_eq!(with_timeout(Some(7u8), true, false), Some(Ok(7)));
    assert_eq!(with_timeout(Some(7u8), true, true), Some(Err(Fail::Timeout)));
}

#[test]
fn tcp_options_default() {
    let options = Options::default();
    assert_eq!(options.advertised_mss, DEFAULT_MSS);
    assert_eq!(options.advertised_mss, 1450);
    assert_eq!(options.handshake_retries, 5);
    assert_eq!(options.handshake_timeout, 3_000_000);
    assert_eq!(options.receive_window_size, 0xffff);
    assert_eq!(options.retries, 5);
    assert_eq!(options.trailing_ack_delay, 1);
    assert_eq!(options.window_scale, 0);
    assert!(!options.rx_checksum_offload);
    assert!(!options.tx_checksum_offload);
}

#[test]
fn tcp_options_builders() {
    let options = Options::default()
        .advertised_mss(MIN_MSS)
        .handshake_retries(1)
        .handshake_timeout(1)
        .receive_window_size(1)
        .retries(9)
        .trailing_ack_delay(0)
        .window_scale(14);
    let expected = Options {
        advertised_mss: 536,
        handshake_retries: 1,
        handshake_timeout: 1,
        receive_window_size: 1,
        retries: 9,
        trailing_ack_delay: 0,
        window_scale: 14,
        rx_checksum_offload: false,
        tx_checksum_offload: false,
    };
    assert_eq!(options, expected);
    assert_eq!(options.advertised_mss(MAX_MSS).advertised_mss, 65535);
    // A builder replaces one setting and keeps the others.
    assert_eq!(Options::default().retries(2), Options { retries: 2, ..Options::default() });
}
