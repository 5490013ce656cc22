//! A cooperative, single-threaded task scheduler built on wake bitmaps, and the
//! reliability state machine of a TCP connection that runs on top of it.

pub mod collections;
pub mod fail;
pub mod file_table;
pub mod futures_utility;
pub mod memory;
pub mod protocols;
pub mod runtime;
pub mod scheduler;
pub mod sync;
