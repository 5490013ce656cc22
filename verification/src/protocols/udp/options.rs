//! Control options for UDP.

use vstd::prelude::*;

verus! {

/// Whether checksums are left to the hardware.
#[derive(Debug)]
pub struct UdpOptions {
    /// Enable checksum offload on receiver side?
    rx_checksum: bool,
    /// Enable checksum offload on sender side?
    tx_checksum: bool,
}

impl UdpOptions {
    /// Whether checksum offload on receiver side is enabled.
    pub closed spec fn rx(&self) -> bool {
        self.rx_checksum
    }

    /// Whether checksum offload on sender side is enabled.
    pub closed spec fn tx(&self) -> bool {
        self.tx_checksum
    }

    /// Creates custom options for UDP.
    pub fn new(rx_checksum: bool, tx_checksum: bool) -> (options: Self)
        ensures
            options.rx() == rx_checksum,
            options.tx() == tx_checksum,
    {
        Self { rx_checksum, tx_checksum }
    }

    /// Returns whether or not checksum offload on receiver side is enabled.
    pub fn rx_checksum(&self) -> (enabled: bool)
        ensures
            enabled == self.rx(),
    {
        self.rx_checksum
    }

    /// Returns whether or not checksum offload on sender side is enabled.
    pub fn tx_checksum(&self) -> (enabled: bool)
        ensures
            enabled == self.tx(),
    {
        self.tx_checksum
    }
}

impl Clone for UdpOptions {
    fn clone(&self) -> (options: Self)
        ensures
            options.rx() == self.rx(),
            options.tx() == self.tx(),
    {
        UdpOptions { rx_checksum: self.rx_checksum, tx_checksum: self.tx_checksum }
    }
}

impl Default for UdpOptions {
    /// Options with checksum offload disabled on both sides.
    fn default() -> (options: Self)
        ensures
            !options.rx(),
            !options.tx(),
    {
        UdpOptions { rx_checksum: false, tx_checksum: false }
    }
}

} // verus!
