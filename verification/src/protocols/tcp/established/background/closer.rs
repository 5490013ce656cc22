//! The tasks that close a connection. Each of them is written as a step: it
//! looks at the control block and either begins to watch the value it waits
//! for, or changes the state of the connection and tells its caller which
//! segment to emit. The caller emits the segment and steps again.

use crate::collections::waker_page::WakerRef;
use crate::collections::watched::Watched;
use crate::protocols::tcp::established::state::congestion_ctrl::CongestionControl;
use crate::protocols::tcp::established::state::receiver::ReceiverState;
use crate::protocols::tcp::established::state::sender::SenderState;
use crate::protocols::tcp::established::state::ControlBlock;
use crate::protocols::tcp::segment::TcpHeader;
use crate::protocols::tcp::SeqNumber;
use crate::scheduler::Context;
use vstd::prelude::*;

verus! {

/// What a closing task asks of its caller.
#[derive(Clone, Copy, Debug, PartialEq, Eq, Structural)]
pub enum CloserStep {
    /// Nothing can be done now. The task watches the value it waits for and
    /// is woken when that value is written.
    Wait,
    /// Emit a segment with this header and no payload, then step again.
    Emit(TcpHeader),
    /// Emit a segment with this header and no payload, then end the
    /// connection: it was reset.
    Abort(TcpHeader),
    /// End the connection: it is closed in both directions.
    Finished,
}

/// What the closing tasks read and write, at one moment.
pub struct CloseView {
    pub sender_state: Watched<SenderState>,
    pub sent_seq_no: Watched<SeqNumber>,
    pub unsent_seq_no: SeqNumber,
    pub receiver_state: Watched<ReceiverState>,
    pub ack_seq_no: Watched<SeqNumber>,
    pub recv_seq_no: SeqNumber,
    /// The wake handles woken in the poll under way.
    pub woken: Seq<WakerRef>,
}

/// The sequence number after `seq_no`.
pub open spec fn next_seq_no(seq_no: SeqNumber) -> SeqNumber {
    if seq_no == u32::MAX {
        0
    } else {
        (seq_no + 1) as u32
    }
}

/// The header of the acknowledgment of a FIN that stands at `recv_seq_no`.
/// The FIN takes up one sequence number, though it carries no data.
pub open spec fn fin_ack_header(recv_seq_no: SeqNumber) -> TcpHeader {
    TcpHeader { seq_num: 0, ack_num: next_seq_no(recv_seq_no), ack: true, fin: false, rst: false }
}

/// The header of our FIN, which stands at `sent_seq_no`.
pub open spec fn fin_header(sent_seq_no: SeqNumber) -> TcpHeader {
    TcpHeader { seq_num: sent_seq_no, ack_num: 0, ack: false, fin: true, rst: false }
}

/// The header of the segment that resets the connection.
pub open spec fn rst_header() -> TcpHeader {
    TcpHeader { seq_num: 0, ack_num: 0, ack: false, fin: false, rst: true }
}

/// One step of the task that acknowledges the peer's FIN: it waits until the
/// FIN has arrived, then until everything that arrived before it was
/// acknowledged, and then records that the FIN is acknowledged and has the
/// acknowledgment emitted.
pub open spec fn ack_fin_step(view: CloseView, waker: WakerRef) -> (CloseView, CloserStep) {
    if view.receiver_state.value != ReceiverState::ReceivedFin {
        (
            CloseView { receiver_state: view.receiver_state.watched_by(waker), ..view },
            CloserStep::Wait,
        )
    } else if view.ack_seq_no.value != view.recv_seq_no {
        (CloseView { ack_seq_no: view.ack_seq_no.watched_by(waker), ..view }, CloserStep::Wait)
    } else {
        (
            CloseView {
                receiver_state: Watched::quiet(ReceiverState::AckdFin),
                woken: view.woken + view.receiver_state.waiters,
                ..view
            },
            CloserStep::Emit(fin_ack_header(view.recv_seq_no)),
        )
    }
}

/// One step of the task that sends our FIN: it waits until the application
/// has closed, then until everything handed over was sent, and then has the
/// FIN emitted and records that it was sent. Where the connection was reset,
/// it has a reset segment emitted and ends the connection.
pub open spec fn send_fin_step(view: CloseView, waker: WakerRef) -> (CloseView, CloserStep) {
    match view.sender_state.value {
        SenderState::Open | SenderState::SentFin | SenderState::FinAckd => (
            CloseView { sender_state: view.sender_state.watched_by(waker), ..view },
            CloserStep::Wait,
        ),
        SenderState::Closed => if view.sent_seq_no.value != view.unsent_seq_no {
            (CloseView { sent_seq_no: view.sent_seq_no.watched_by(waker), ..view }, CloserStep::Wait)
        } else {
            (
                CloseView {
                    sender_state: Watched::quiet(SenderState::SentFin),
                    woken: view.woken + view.sender_state.waiters,
                    ..view
                },
                CloserStep::Emit(fin_header(view.sent_seq_no.value)),
            )
        },
        SenderState::Reset => (view, CloserStep::Abort(rst_header())),
    }
}

/// One step of the task that waits for the close to be complete: until our
/// FIN was acknowledged and the peer's FIN was acknowledged by us.
pub open spec fn close_wait_step(view: CloseView, waker: WakerRef) -> (CloseView, CloserStep) {
    if view.sender_state.value != SenderState::FinAckd {
        (CloseView { sender_state: view.sender_state.watched_by(waker), ..view }, CloserStep::Wait)
    } else if view.receiver_state.value != ReceiverState::AckdFin {
        (
            CloseView { receiver_state: view.receiver_state.watched_by(waker), ..view },
            CloserStep::Wait,
        )
    } else {
        (view, CloserStep::Finished)
    }
}

/// One step of the three tasks together. The first of them that has
/// something for its caller to do decides, in this order: the task that
/// acknowledges the peer's FIN, the task that sends ours, the task that
/// waits for the close to be complete.
pub open spec fn connection_terminated_step(view: CloseView, waker: WakerRef) -> (
    CloseView,
    CloserStep,
) {
    let (acked, ack_step) = ack_fin_step(view, waker);
    if ack_step != CloserStep::Wait {
        (acked, ack_step)
    } else {
        let (sent, send_step) = send_fin_step(acked, waker);
        if send_step != CloserStep::Wait {
            (sent, send_step)
        } else {
            close_wait_step(sent, waker)
        }
    }
}

/// What the closing tasks read and write of `cb`, and what was woken in the
/// poll of `ctx`.
pub open spec fn close_view<CC: CongestionControl>(cb: &ControlBlock<CC>, ctx: &Context) -> CloseView {
    CloseView {
        sender_state: cb.sender.state.cell(),
        sent_seq_no: cb.sender.sent_seq_no.cell(),
        unsent_seq_no: cb.sender.unsent_seq_no@,
        receiver_state: cb.receiver.state.cell(),
        ack_seq_no: cb.receiver.ack_seq_no.cell(),
        recv_seq_no: cb.receiver.recv_seq_no@,
        woken: ctx.woken(),
    }
}

/// Whether `after` and `before` agree in all that the closing tasks leave
/// alone.
pub open spec fn same_beside_close<CC: CongestionControl>(
    after: &ControlBlock<CC>,
    before: &ControlBlock<CC>,
) -> bool {
    &&& after.sender.base_seq_no == before.sender.base_seq_no
    &&& after.sender.unacked_queue == before.sender.unacked_queue
    &&& after.sender.unsent_seq_no == before.sender.unsent_seq_no
    &&& after.sender.retransmit_deadline == before.sender.retransmit_deadline
    &&& after.sender.rto == before.sender.rto
    &&& after.sender.congestion_ctrl == before.sender.congestion_ctrl
    &&& after.receiver.recv_seq_no == before.receiver.recv_seq_no
}

/// Takes one step of the task that acknowledges the peer's FIN. The
/// acknowledgment is emitted only when all that arrived before the FIN has
/// been acknowledged.
pub fn sender_ack_fin<CC: CongestionControl>(cb: &mut ControlBlock<CC>, ctx: &mut Context) -> (step:
    CloserStep)
    ensures
        (close_view(final(cb), final(ctx)), step) == ack_fin_step(
            close_view(old(cb), old(ctx)),
            old(ctx).own_waker(),
        ),
        same_beside_close(final(cb), old(cb)),
        final(ctx).own_waker() == old(ctx).own_waker(),
        step matches CloserStep::Emit(_) ==> old(cb).receiver.ack_seq_no@ == old(
            cb,
        ).receiver.recv_seq_no@,
        old(cb).receiver.state@.may_become(final(cb).receiver.state@),
{
    // Wait until we receive a FIN.
    if cb.receiver.state.get() != ReceiverState::ReceivedFin {
        let _ = cb.receiver.state.watch(ctx.waker());
        return CloserStep::Wait;
    }
    // Wait for all data to be acknowledged.
    let recv_seq = cb.receiver.recv_seq_no.get();
    if cb.receiver.ack_seq_no.get() != recv_seq {
        let _ = cb.receiver.ack_seq_no.watch(ctx.waker());
        return CloserStep::Wait;
    }
    // Send ACK segment for FIN.
    let woken = cb.receiver.state.set(ReceiverState::AckdFin);
    ctx.wake_all(woken);
    let mut header = cb.tcp_header();
    header.ack = true;
    header.ack_num = recv_seq.wrapping_add(1);
    CloserStep::Emit(header)
}

/// Takes one step of the task that sends our FIN. The FIN is emitted only
/// when all that the application handed over has been sent.
pub fn sender_send_fin<CC: CongestionControl>(cb: &mut ControlBlock<CC>, ctx: &mut Context) -> (step:
    CloserStep)
    ensures
        (close_view(final(cb), final(ctx)), step) == send_fin_step(
            close_view(old(cb), old(ctx)),
            old(ctx).own_waker(),
        ),
        same_beside_close(final(cb), old(cb)),
        final(ctx).own_waker() == old(ctx).own_waker(),
        step matches CloserStep::Emit(_) ==> old(cb).sender.sent_seq_no@ == old(
            cb,
        ).sender.unsent_seq_no@,
        old(cb).sender.state@.may_become(final(cb).sender.state@),
{
    match cb.sender.state.get() {
        SenderState::Open | SenderState::SentFin | SenderState::FinAckd => {
            let _ = cb.sender.state.watch(ctx.waker());
            CloserStep::Wait
        },
        SenderState::Closed => {
            // Wait for `sent_seq_no` to catch up to `unsent_seq_no` and then
            // send a FIN segment.
            let sent_seq = cb.sender.sent_seq_no.get();
            if sent_seq != cb.sender.unsent_seq_no.get() {
                let _ = cb.sender.sent_seq_no.watch(ctx.waker());
                return CloserStep::Wait;
            }
            let mut header = cb.tcp_header();
            header.seq_num = sent_seq;
            header.fin = true;
            let woken = cb.sender.state.set(SenderState::SentFin);
            ctx.wake_all(woken);
            CloserStep::Emit(header)
        },
        SenderState::Reset => {
            let mut header = cb.tcp_header();
            header.rst = true;
            CloserStep::Abort(header)
        },
    }
}

/// Takes one step of the task that waits until the connection is closed in
/// both directions.
pub fn close_wait<CC: CongestionControl>(cb: &mut ControlBlock<CC>, ctx: &mut Context) -> (step:
    CloserStep)
    ensures
        (close_view(final(cb), final(ctx)), step) == close_wait_step(
            close_view(old(cb), old(ctx)),
            old(ctx).own_waker(),
        ),
        same_beside_close(final(cb), old(cb)),
        final(ctx).own_waker() == old(ctx).own_waker(),
        step == CloserStep::Finished <==> old(cb).sender.state@ == SenderState::FinAckd && old(
            cb,
        ).receiver.state@ == ReceiverState::AckdFin,
{
    // Wait until the FIN we sent has been ACKed.
    if cb.sender.state.get() != SenderState::FinAckd {
        let _ = cb.sender.state.watch(ctx.waker());
        return CloserStep::Wait;
    }
    // Wait until we ACK the FIN that was sent to us.
    if cb.receiver.state.get() != ReceiverState::AckdFin {
        let _ = cb.receiver.state.watch(ctx.waker());
        return CloserStep::Wait;
    }
    CloserStep::Finished
}

/// Takes one step of the tasks that close the connection: of the first of
/// them, in their fixed order, that has something for its caller to do.
pub fn connection_terminated<CC: CongestionControl>(
    cb: &mut ControlBlock<CC>,
    ctx: &mut Context,
) -> (step: CloserStep)
    ensures
        (close_view(final(cb), final(ctx)), step) == connection_terminated_step(
            close_view(old(cb), old(ctx)),
            old(ctx).own_waker(),
        ),
        same_beside_close(final(cb), old(cb)),
        final(ctx).own_waker() == old(ctx).own_waker(),
        old(cb).sender.state@.may_become(final(cb).sender.state@),
        old(cb).receiver.state@.may_become(final(cb).receiver.state@),
{
    let acked = sender_ack_fin(cb, ctx);
    if acked != CloserStep::Wait {
        return acked;
    }
    let sent = sender_send_fin(cb, ctx);
    if sent != CloserStep::Wait {
        return sent;
    }
    close_wait(cb, ctx)
}

/// Our FIN is emitted only when all that the application handed over has
/// been sent, and the peer's FIN is acknowledged only when all that arrived
/// before it has been acknowledged. Of the segments that the closing tasks
/// have emitted, the one that carries the FIN flag is our FIN, and the one
/// that carries the ACK flag acknowledges the peer's.
pub proof fn lemma_close_keeps_order(view: CloseView, waker: WakerRef)
    ensures
        connection_terminated_step(view, waker).1 matches CloserStep::Emit(header) ==> {
            &&& header.fin ==> view.sender_state.value == SenderState::Closed
                && view.sent_seq_no.value == view.unsent_seq_no
            &&& header.ack ==> view.receiver_state.value == ReceiverState::ReceivedFin
                && view.ack_seq_no.value == view.recv_seq_no
            &&& header.fin != header.ack
        },
{
}

/// The states of a connection only move forward in a step of the closing
/// tasks: the sender from closed to FIN sent, the receiver from FIN received
/// to FIN acknowledged, or not at all.
pub proof fn lemma_close_moves_forward(view: CloseView, waker: WakerRef)
    ensures
        view.sender_state.value.may_become(
            connection_terminated_step(view, waker).0.sender_state.value,
        ),
        view.receiver_state.value.may_become(
            connection_terminated_step(view, waker).0.receiver_state.value,
        ),
{
}

/// The closing tasks end the connection as closed exactly when our FIN was
/// acknowledged and the peer's FIN was acknowledged by us, and there is
/// nothing left to emit.
pub proof fn lemma_close_finishes(view: CloseView, waker: WakerRef)
    ensures
        connection_terminated_step(view, waker).1 == CloserStep::Finished <==> view.sender_state.value
            == SenderState::FinAckd && view.receiver_state.value == ReceiverState::AckdFin,
{
}

} // verus!
