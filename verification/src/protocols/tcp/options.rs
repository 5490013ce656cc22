//! The settings of TCP. A setting is changed by a builder, which takes the
//! options and hands them back with the one setting replaced. All times are
//! in microseconds.

use crate::protocols::tcp::constants::{DEFAULT_MSS, MAX_MSS, MIN_MSS};
use vstd::prelude::*;

verus! {

/// The settings of TCP.
#[derive(Clone, Copy, Debug, PartialEq, Eq, Structural)]
pub struct TcpOptions {
    /// The largest segment that the peer is asked to send.
    pub advertised_mss: usize,
    /// How often the handshake is tried.
    pub handshake_retries: usize,
    /// How long an answer to a handshake segment is waited for.
    pub handshake_timeout: u64,
    /// How many bytes the peer may send without acknowledgment.
    pub receive_window_size: u16,
    /// How often a segment is sent before the connection is given up.
    pub retries: usize,
    /// How long an acknowledgment may wait for data to ride on.
    pub trailing_ack_delay: u64,
    /// By how many bits the window is shifted.
    pub window_scale: u8,
    /// Whether the hardware checks the checksums of what arrives.
    pub rx_checksum_offload: bool,
    /// Whether the hardware computes the checksums of what is sent.
    pub tx_checksum_offload: bool,
}

impl Default for TcpOptions {
    fn default() -> (options: Self)
        ensures
            options == (TcpOptions {
                advertised_mss: DEFAULT_MSS,
                handshake_retries: 5,
                handshake_timeout: 3_000_000,
                receive_window_size: 0xffff,
                retries: 5,
                trailing_ack_delay: 1,
                window_scale: 0,
                rx_checksum_offload: false,
                tx_checksum_offload: false,
            }),
    {
        TcpOptions {
            advertised_mss: DEFAULT_MSS,
            handshake_retries: 5,
            handshake_timeout: 3_000_000,
            receive_window_size: 0xffff,
            retries: 5,
            trailing_ack_delay: 1,
            window_scale: 0,
            rx_checksum_offload: false,
            tx_checksum_offload: false,
        }
    }
}

impl TcpOptions {
    /// Sets the largest segment that the peer is asked to send, which must
    /// be within the limits of the segment size.
    pub fn advertised_mss(self, value: usize) -> (options: Self)
        requires
            MIN_MSS <= value <= MAX_MSS,
        ensures
            options == (TcpOptions { advertised_mss: value, ..self }),
    {
        let mut options = self;
        options.advertised_mss = value;
        options
    }

    /// Sets how often the handshake is tried: at least once.
    pub fn handshake_retries(self, value: usize) -> (options: Self)
        requires
            value > 0,
        ensures
            options == (TcpOptions { handshake_retries: value, ..self }),
    {
        let mut options = self;
        options.handshake_retries = value;
        options
    }

    /// Sets how long an answer to a handshake segment is waited for: longer
    /// than no time.
    pub fn handshake_timeout(self, value: u64) -> (options: Self)
        requires
            value > 0,
        ensures
            options == (TcpOptions { handshake_timeout: value, ..self }),
    {
        let mut options = self;
        options.handshake_timeout = value;
        options
    }

    /// Sets how many bytes the peer may send without acknowledgment: at
    /// least one.
    pub fn receive_window_size(self, value: u16) -> (options: Self)
        requires
            value > 0,
        ensures
            options == (TcpOptions { receive_window_size: value, ..self }),
    {
        let mut options = self;
        options.receive_window_size = value;
        options
    }

    /// Sets how often a segment is sent before the connection is given up:
    /// at least once.
    pub fn retries(self, value: usize) -> (options: Self)
        requires
            value > 0,
        ensures
            options == (TcpOptions { retries: value, ..self }),
    {
        let mut options = self;
        options.retries = value;
        options
    }

    /// Sets how long an acknowledgment may wait for data to ride on.
    pub fn trailing_ack_delay(self, value: u64) -> (options: Self)
        ensures
            options == (TcpOptions { trailing_ack_delay: value, ..self }),
    {
        let mut options = self;
        options.trailing_ack_delay = value;
        options
    }

    /// Sets by how many bits the window is shifted.
    pub fn window_scale(self, value: u8) -> (options: Self)
        ensures
            options == (TcpOptions { window_scale: value, ..self }),
    {
        let mut options = self;
        options.window_scale = value;
        options
    }
}

} // verus!
