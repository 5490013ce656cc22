//! The data structures of the scheduler and the buffers of the stack.

pub mod async_slab;
pub mod bits;
pub mod bytes;
pub mod waker_page;
pub mod watched;
