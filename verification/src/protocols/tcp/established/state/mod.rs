//! The state that the tasks of one connection share.

pub mod congestion_ctrl;
pub mod receiver;
pub mod rto;
pub mod sender;

use crate::collections::watched::Watched;
use crate::protocols::tcp::established::state::congestion_ctrl::CongestionControl;
use crate::protocols::tcp::established::state::receiver::{Receiver, ReceiverState};
use crate::protocols::tcp::established::state::rto::RTO_INITIAL;
use crate::protocols::tcp::established::state::sender::{Sender, SenderState};
use crate::protocols::tcp::segment::TcpHeader;
use crate::protocols::tcp::{SeqNumber, Timestamp};
use vstd::prelude::*;

verus! {

/// The control block of one established connection.
pub struct ControlBlock<CC> {
    pub sender: Sender<CC>,
    pub receiver: Receiver,
}

impl<CC: CongestionControl> ControlBlock<CC> {
    /// The control block of a connection that was just established: our
    /// stream starts at `local_seq_no`, the peer's at `remote_seq_no`, and a
    /// segment carries at most `mss` bytes.
    pub fn new(local_seq_no: SeqNumber, remote_seq_no: SeqNumber, mss: usize) -> (cb: Self)
        ensures
            cb.sender.state.cell() == Watched::quiet(SenderState::Open),
            cb.sender.base_seq_no.cell() == Watched::quiet(local_seq_no),
            cb.sender.sent_seq_no.cell() == Watched::quiet(local_seq_no),
            cb.sender.unsent_seq_no.cell() == Watched::quiet(local_seq_no),
            cb.sender.retransmit_deadline.cell() == Watched::quiet(None::<Timestamp>),
            cb.sender.unacked_queue@.len() == 0,
            cb.sender.rto.rto() == RTO_INITIAL,
            !cb.sender.rto.has_sample(),
            call_ensures(CC::new, (mss, local_seq_no), cb.sender.congestion_ctrl),
            cb.receiver.state.cell() == Watched::quiet(ReceiverState::Open),
            cb.receiver.recv_seq_no.cell() == Watched::quiet(remote_seq_no),
            cb.receiver.ack_seq_no.cell() == Watched::quiet(remote_seq_no),
    {
        ControlBlock { sender: Sender::new(local_seq_no, mss), receiver: Receiver::new(remote_seq_no) }
    }

    /// A header for a segment of this connection, with no flag set yet.
    pub fn tcp_header(&self) -> (header: TcpHeader)
        ensures
            header == (TcpHeader { seq_num: 0, ack_num: 0, ack: false, fin: false, rst: false }),
    {
        TcpHeader::new()
    }
}

} // verus!
