//! The limits of the maximum segment size.

use vstd::prelude::*;

verus! {

/// The segment size that every host accepts.
pub const FALLBACK_MSS: usize = 536;

/// The smallest segment size that can be advertised.
pub const MIN_MSS: usize = FALLBACK_MSS;

/// The largest segment size that can be advertised: the option that carries
/// it has 16 bits.
pub const MAX_MSS: usize = 0xffff;

/// The segment size that is advertised unless another is asked for.
pub const DEFAULT_MSS: usize = 1450;

} // verus!
