//! The part of a TCP header that the reliability machinery decides.

use crate::protocols::tcp::SeqNumber;
use vstd::prelude::*;

verus! {

/// The sequence numbers and control flags of a segment.
#[derive(Clone, Copy, Debug, PartialEq, Eq, Structural)]
pub struct TcpHeader {
    pub seq_num: SeqNumber,
    pub ack_num: SeqNumber,
    pub ack: bool,
    pub fin: bool,
    pub rst: bool,
}

impl TcpHeader {
    /// A header with both numbers zero and no flag set.
    pub fn new() -> (header: TcpHeader)
        ensures
            header == (TcpHeader { seq_num: 0, ack_num: 0, ack: false, fin: false, rst: false }),
    {
        TcpHeader { seq_num: 0, ack_num: 0, ack: false, fin: false, rst: false }
    }
}

} // verus!
