//! A UDP socket.

use crate::protocols::ipv4::Endpoint;
use vstd::prelude::*;

verus! {

/// The two ends of a socket, as far as they are known.
#[derive(Debug)]
pub struct Socket {
    /// Local endpoint.
    local: Option<Endpoint>,
    /// Remote endpoint.
    remote: Option<Endpoint>,
}

impl Socket {
    /// The local endpoint, once the socket is bound.
    pub closed spec fn local_endpoint(&self) -> Option<Endpoint> {
        self.local
    }

    /// The remote endpoint, once the socket is connected.
    pub closed spec fn remote_endpoint(&self) -> Option<Endpoint> {
        self.remote
    }

    pub fn local(&self) -> (local: Option<Endpoint>)
        ensures
            local == self.local_endpoint(),
    {
        self.local
    }

    pub fn remote(&self) -> (remote: Option<Endpoint>)
        ensures
            remote == self.remote_endpoint(),
    {
        self.remote
    }

    pub fn set_local(&mut self, local: Option<Endpoint>)
        ensures
            final(self).local_endpoint() == local,
            final(self).remote_endpoint() == old(self).remote_endpoint(),
    {
        self.local = local;
    }
}

impl Default for Socket {
    /// A socket that is neither bound nor connected.
    fn default() -> (socket: Self)
        ensures
            socket.local_endpoint() is None,
            socket.remote_endpoint() is None,
    {
        Self { local: None, remote: None }
    }
}

} // verus!
