//! The protocols of the stack.

pub mod ip;
pub mod ipv4;
pub mod tcp;
pub mod udp;
