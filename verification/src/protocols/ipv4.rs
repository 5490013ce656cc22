//! The addresses of IPv4.

use crate::protocols::ip::Port;
use vstd::prelude::*;

verus! {

/// One end of a conversation: an address and a port.
#[derive(Clone, Copy, Debug, PartialEq, Eq, Structural)]
pub struct Endpoint {
    /// The address as one number, its first octet in the highest byte.
    pub addr: u32,
    pub port: Port,
}

impl Endpoint {
    pub fn new(addr: u32, port: Port) -> (endpoint: Endpoint)
        ensures
            endpoint.addr == addr,
            endpoint.port == port,
    {
        Endpoint { addr, port }
    }

    pub fn address(&self) -> (addr: u32)
        ensures
            addr == self.addr,
    {
        self.addr
    }

    pub fn port(&self) -> (port: Port)
        ensures
            port == self.port,
    {
        self.port
    }
}

/// The part of the header of an IPv4 packet that the transport protocols
/// read: the two addresses, each as one number, its first octet in the
/// highest byte.
#[derive(Clone, Copy, Debug, PartialEq, Eq, Structural)]
pub struct Ipv4Header {
    pub src_addr: u32,
    pub dst_addr: u32,
}

/// The four octets of `addr`, the first of them first.
pub open spec fn octets_of(addr: u32) -> Seq<u8> {
    seq![
        ((addr / 0x100_0000) % 256) as u8,
        ((addr / 0x1_0000) % 256) as u8,
        ((addr / 0x100) % 256) as u8,
        (addr % 256) as u8,
    ]
}

/// The four octets of `addr`, the first of them first.
pub fn octets(addr: u32) -> (octets: Vec<u8>)
    ensures
        octets@ == octets_of(addr),
{
    let mut octets: Vec<u8> = Vec::new();
    octets.push(((addr / 0x100_0000) % 256) as u8);
    octets.push(((addr / 0x1_0000) % 256) as u8);
    octets.push(((addr / 0x100) % 256) as u8);
    octets.push((addr % 256) as u8);
    assert(octets@ =~= octets_of(addr));
    octets
}

} // verus!
