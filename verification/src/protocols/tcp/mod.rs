//! The reliability machinery of an established TCP connection.

pub mod constants;
pub mod established;
pub mod isn_generator;
pub mod options;
pub mod segment;

pub use self::options::TcpOptions as Options;

use vstd::prelude::*;

verus! {

/// A position in a byte stream. Sequence numbers wrap around at 2^32.
pub type SeqNumber = u32;

/// A point in time, in microseconds of the stack's clock.
pub type Timestamp = u64;

} // verus!
