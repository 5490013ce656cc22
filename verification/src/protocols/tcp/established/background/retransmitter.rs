//! Sending the oldest unacknowledged segment again, and the task that
//! decides when to.

use crate::collections::bytes::Bytes;
use crate::collections::waker_page::WakerRef;
use crate::collections::watched::Watched;
use crate::protocols::tcp::established::state::congestion_ctrl::CongestionControl;
use crate::protocols::tcp::established::state::rto::clamp_rto;
use crate::protocols::tcp::established::state::sender::UnackedSegment;
use crate::protocols::tcp::established::state::ControlBlock;
use crate::protocols::tcp::segment::TcpHeader;
use crate::protocols::tcp::Timestamp;
use crate::scheduler::Context;
use vstd::prelude::*;

verus! {

/// Why a segment is sent again.
#[derive(Clone, Copy, Debug, PartialEq, Eq, Structural)]
pub enum RetransmitCause {
    /// The retransmission timer ran out.
    TimeOut,
    /// Duplicate acknowledgments show that the segment was lost.
    FastRetransmit,
}

/// A segment to emit again.
pub struct Retransmission {
    pub header: TcpHeader,
    pub bytes: Bytes,
}

/// What the retransmitter asks of its caller.
#[derive(Clone, Copy, Debug, PartialEq, Eq, Structural)]
pub enum RetransmitterStep {
    /// Nothing is due. The task watches the retransmission deadline and the
    /// strategy's retransmit-now flag, and is to be woken at the deadline if
    /// there is one.
    Wait(Option<Timestamp>),
    /// Send the oldest unacknowledged segment again, then step again.
    Retransmit(RetransmitCause),
}

/// `now + timeout`, or the last point in time if the sum is beyond it.
pub open spec fn deadline_after(now: Timestamp, timeout: int) -> Timestamp {
    if now + timeout > u64::MAX {
        u64::MAX
    } else {
        (now + timeout) as u64
    }
}

/// Whether `after` and `before` agree in all but the estimate of the
/// retransmission timeout and the segments in flight.
pub open spec fn same_beside_rto<CC: CongestionControl>(
    after: &ControlBlock<CC>,
    before: &ControlBlock<CC>,
) -> bool {
    &&& after.receiver == before.receiver
    &&& after.sender.state == before.sender.state
    &&& after.sender.base_seq_no == before.sender.base_seq_no
    &&& after.sender.sent_seq_no == before.sender.sent_seq_no
    &&& after.sender.unsent_seq_no == before.sender.unsent_seq_no
    &&& after.sender.retransmit_deadline == before.sender.retransmit_deadline
    &&& after.sender.congestion_ctrl == before.sender.congestion_ctrl
}

/// Begins a retransmission: says whether there is a segment to send again.
/// Where there is one, the timeout is backed off if the timer ran out for
/// it, and the segment loses the time of its first transmission at once, so
/// that its acknowledgment is never taken for a measure of the round trip,
/// whether or not the segment goes out in the end. The caller then finds out
/// the link address of the peer and calls [`resend`]. An empty queue is no
/// error: an acknowledgment may have emptied it since the retransmission was
/// decided.
pub fn retransmit<CC: CongestionControl>(cause: RetransmitCause, cb: &mut ControlBlock<CC>) -> (due:
    bool)
    ensures
        due == (old(cb).sender.unacked_queue@.len() > 0),
        same_beside_rto(final(cb), old(cb)),
        due ==> final(cb).sender.unacked_queue@ == old(cb).sender.unacked_queue@.update(
            0,
            UnackedSegment { bytes: old(cb).sender.unacked_queue@[0].bytes, initial_tx: None },
        ),
        !due ==> final(cb).sender.unacked_queue@ == old(cb).sender.unacked_queue@,
        due && cause == RetransmitCause::TimeOut ==> {
            &&& final(cb).sender.rto.rto() == clamp_rto(2 * old(cb).sender.rto.rto())
            &&& final(cb).sender.rto.rto() >= old(cb).sender.rto.rto()
            &&& final(cb).sender.rto.srtt() == old(cb).sender.rto.srtt()
            &&& final(cb).sender.rto.rttvar() == old(cb).sender.rto.rttvar()
            &&& final(cb).sender.rto.has_sample() == old(cb).sender.rto.has_sample()
        },
        !(due && cause == RetransmitCause::TimeOut) ==> final(cb).sender.rto == old(cb).sender.rto,
{
    // Pop unack'ed segment.
    let mut segment = match cb.sender.unacked_queue.pop_front() {
        Some(segment) => segment,
        None => {
            return false;
        },
    };
    match cause {
        RetransmitCause::TimeOut => cb.sender.rto.record_failure(),
        RetransmitCause::FastRetransmit => (),
    }
    // Unset the initial timestamp so we don't use this for RTT estimation.
    segment.initial_tx = None;
    cb.sender.unacked_queue.push_front(segment);
    assert(cb.sender.unacked_queue@ =~= old(cb).sender.unacked_queue@.update(
        0,
        UnackedSegment { bytes: old(cb).sender.unacked_queue@[0].bytes, initial_tx: None },
    ));
    true
}

/// Sends the oldest unacknowledged segment again, at the first
/// unacknowledged sequence number, and sets the retransmission deadline to
/// the timeout from `now`. The segment loses the time of its first
/// transmission, so that its acknowledgment is not taken for a measure of
/// the round trip. Nothing happens where no segment is unacknowledged.
pub fn resend<CC: CongestionControl>(
    cb: &mut ControlBlock<CC>,
    now: Timestamp,
    ctx: &mut Context,
) -> (sent: Option<Retransmission>)
    ensures
        final(ctx).own_waker() == old(ctx).own_waker(),
        final(cb).receiver == old(cb).receiver,
        final(cb).sender.state == old(cb).sender.state,
        final(cb).sender.base_seq_no == old(cb).sender.base_seq_no,
        final(cb).sender.sent_seq_no == old(cb).sender.sent_seq_no,
        final(cb).sender.unsent_seq_no == old(cb).sender.unsent_seq_no,
        final(cb).sender.rto == old(cb).sender.rto,
        final(cb).sender.congestion_ctrl == old(cb).sender.congestion_ctrl,
        old(cb).sender.unacked_queue@.len() == 0 <==> sent is None,
        sent is None ==> {
            &&& final(cb).sender.unacked_queue@ == old(cb).sender.unacked_queue@
            &&& final(cb).sender.retransmit_deadline == old(cb).sender.retransmit_deadline
            &&& final(ctx).woken() == old(ctx).woken()
        },
        sent matches Some(segment) ==> {
            &&& segment.header == (TcpHeader {
                seq_num: old(cb).sender.base_seq_no@,
                ack_num: 0,
                ack: false,
                fin: false,
                rst: false,
            })
            &&& segment.bytes@ == old(cb).sender.unacked_queue@[0].bytes@
            &&& final(cb).sender.unacked_queue@ == old(cb).sender.unacked_queue@.update(
                0,
                UnackedSegment { bytes: old(cb).sender.unacked_queue@[0].bytes, initial_tx: None },
            )
            &&& final(cb).sender.retransmit_deadline.cell() == Watched::quiet(
                Some(deadline_after(now, old(cb).sender.rto.rto())),
            )
            &&& final(ctx).woken() == old(ctx).woken() + old(
                cb,
            ).sender.retransmit_deadline.waiters()
        },
{
    // Pop unack'ed segment.
    let mut segment = match cb.sender.unacked_queue.pop_front() {
        Some(segment) => segment,
        None => {
            return None;
        },
    };
    // Unset the initial timestamp so we don't use this for RTT estimation.
    segment.initial_tx = None;
    let seq_no = cb.sender.base_seq_no.get();
    let mut header = cb.tcp_header();
    header.seq_num = seq_no;
    let bytes = segment.bytes.clone();
    cb.sender.unacked_queue.push_front(segment);
    assert(cb.sender.unacked_queue@ =~= old(cb).sender.unacked_queue@.update(
        0,
        UnackedSegment { bytes: old(cb).sender.unacked_queue@[0].bytes, initial_tx: None },
    ));
    // Set new retransmit deadline.
    let deadline = now.saturating_add(cb.sender.rto.estimate());
    let woken = cb.sender.retransmit_deadline.set(Some(deadline));
    ctx.wake_all(woken);
    Some(Retransmission { header, bytes })
}

/// Takes one step of the task that sends segments again. A retransmission
/// is due at once where the strategy asks for a fast retransmit, and for a
/// timeout where the retransmission deadline has come. The strategy is told
/// of either before the segment goes out, by one call of the hook of that
/// event and of no other, and those whom the hook wakes are woken. Otherwise
/// the task begins to watch the deadline and the strategy's flag.
pub fn retransmitter<CC: CongestionControl>(
    cb: &mut ControlBlock<CC>,
    now: Timestamp,
    ctx: &mut Context,
) -> (step: RetransmitterStep)
    ensures
        step == retransmitter_step(
            old(cb).sender.congestion_ctrl.retransmit_now(),
            old(cb).sender.retransmit_deadline@,
            now,
        ),
        final(ctx).own_waker() == old(ctx).own_waker(),
        final(cb).receiver == old(cb).receiver,
        final(cb).sender.state == old(cb).sender.state,
        final(cb).sender.base_seq_no == old(cb).sender.base_seq_no,
        final(cb).sender.unacked_queue == old(cb).sender.unacked_queue,
        final(cb).sender.sent_seq_no == old(cb).sender.sent_seq_no,
        final(cb).sender.unsent_seq_no == old(cb).sender.unsent_seq_no,
        final(cb).sender.rto == old(cb).sender.rto,
        final(cb).sender.retransmit_deadline@ == old(cb).sender.retransmit_deadline@,
        old(ctx).woken().is_prefix_of(final(ctx).woken()),
        step is Wait ==> {
            &&& final(cb).sender.retransmit_deadline.cell() == old(
                cb,
            ).sender.retransmit_deadline.cell().watched_by(old(ctx).own_waker())
            &&& final(cb).sender.congestion_ctrl.retransmit_now() == old(
                cb,
            ).sender.congestion_ctrl.retransmit_now()
            &&& final(ctx).woken() == old(ctx).woken()
        },
        step is Retransmit ==> final(cb).sender.retransmit_deadline == old(
            cb,
        ).sender.retransmit_deadline,
        step == RetransmitterStep::Retransmit(RetransmitCause::TimeOut) ==> exists|
            cc: &mut CC,
            woken: Vec<WakerRef>,
        |
            mut_ref_current(cc) == old(cb).sender.congestion_ctrl
                && mut_ref_future(cc) == final(cb).sender.congestion_ctrl
                && #[trigger] call_ensures(CC::on_rto, (cc,), woken)
                && final(ctx).woken() == old(ctx).woken() + woken@,
        step == RetransmitterStep::Retransmit(RetransmitCause::FastRetransmit) ==> exists|
            cc: &mut CC,
            woken: Vec<WakerRef>,
        |
            mut_ref_current(cc) == old(cb).sender.congestion_ctrl
                && mut_ref_future(cc) == final(cb).sender.congestion_ctrl
                && #[trigger] call_ensures(CC::on_fast_retransmit, (cc,), woken)
                && final(ctx).woken() == old(ctx).woken() + woken@,
        step is Wait ==> exists|cc: &mut CC, flag: bool|
            mut_ref_current(cc) == old(cb).sender.congestion_ctrl
                && mut_ref_future(cc) == final(cb).sender.congestion_ctrl
                && #[trigger] call_ensures(
                CC::watch_retransmit_now_flag,
                (cc, old(ctx).own_waker()),
                flag,
            ),
{
    if cb.sender.congestion_ctrl.get_retransmit_now_flag() {
        let woken = cb.sender.congestion_ctrl.on_fast_retransmit();
        ctx.wake_all(woken);
        return RetransmitterStep::Retransmit(RetransmitCause::FastRetransmit);
    }
    let rtx_deadline = cb.sender.retransmit_deadline.get();
    let timer_fired = match rtx_deadline {
        Some(deadline) => deadline <= now,
        None => false,
    };
    if timer_fired {
        let woken = cb.sender.congestion_ctrl.on_rto();
        ctx.wake_all(woken);
        return RetransmitterStep::Retransmit(RetransmitCause::TimeOut);
    }
    let _ = cb.sender.retransmit_deadline.watch(ctx.waker());
    let _ = cb.sender.congestion_ctrl.watch_retransmit_now_flag(ctx.waker());
    RetransmitterStep::Wait(rtx_deadline)
}

/// What the retransmitter decides where the strategy's retransmit-now flag
/// is `retransmit_now` and the retransmission deadline is `deadline`, at the
/// time `now`.
pub open spec fn retransmitter_step(
    retransmit_now: bool,
    deadline: Option<Timestamp>,
    now: Timestamp,
) -> RetransmitterStep {
    if retransmit_now {
        RetransmitterStep::Retransmit(RetransmitCause::FastRetransmit)
    } else if deadline matches Some(due) && due <= now {
        RetransmitterStep::Retransmit(RetransmitCause::TimeOut)
    } else {
        RetransmitterStep::Wait(deadline)
    }
}

/// A segment for which a retransmission has begun gives no sample of the
/// round-trip time, whenever its acknowledgment arrives and whether or not
/// the segment went out in the end: the time of its first transmission is
/// gone.
pub proof fn lemma_retransmitted_segment_gives_no_sample<CC: CongestionControl>(
    cause: RetransmitCause,
    cb: &mut ControlBlock<CC>,
    due: bool,
    acked_at: Timestamp,
    sample: Option<u64>,
)
    requires
        call_ensures(retransmit::<CC>, (cause, cb), due),
        due,
        call_ensures(
            UnackedSegment::rtt_sample,
            (&mut_ref_future(cb).sender.unacked_queue@[0], acked_at),
            sample,
        ),
    ensures
        sample is None,
{
}

/// A segment that was sent again gives no sample of the round-trip time,
/// whenever its acknowledgment arrives.
pub proof fn lemma_resent_segment_gives_no_sample<CC: CongestionControl>(
    cb: &mut ControlBlock<CC>,
    now: Timestamp,
    ctx: &mut Context,
    sent: Option<Retransmission>,
    acked_at: Timestamp,
    sample: Option<u64>,
)
    requires
        call_ensures(resend::<CC>, (cb, now, ctx), sent),
        sent is Some,
        call_ensures(
            UnackedSegment::rtt_sample,
            (&mut_ref_future(cb).sender.unacked_queue@[0], acked_at),
            sample,
        ),
    ensures
        sample is None,
{
}

} // verus!
