//! What the transport protocols share.

use crate::fail::Fail;
use vstd::prelude::*;

verus! {

/// The number of a port. Zero is not a port.
#[derive(Clone, Copy, Debug, PartialEq, Eq, Structural)]
pub struct Port {
    number: u16,
}

impl Port {
    #[verifier::type_invariant]
    spec fn not_zero(&self) -> bool {
        self.number != 0
    }

    /// The number of the port.
    pub closed spec fn view(&self) -> u16 {
        self.number
    }

    /// The port with the number `n`. Zero is refused as out of range.
    pub fn try_from(n: u16) -> (port: Result<Port, Fail>)
        ensures
            n == 0 <==> port is Err,
            port matches Ok(p) ==> p@ == n,
            port matches Err(fail) ==> fail matches Fail::OutOfRange { details } && details@
                == "port number may not be zero"@,
    {
        if n == 0 {
            Err(Fail::OutOfRange { details: "port number may not be zero" })
        } else {
            Ok(Port { number: n })
        }
    }

    /// The number of the port.
    pub fn into(self) -> (n: u16)
        ensures
            n == self@,
            n != 0,
    {
        proof {
            use_type_invariant(&self);
        }
        self.number
    }
}

} // verus!
