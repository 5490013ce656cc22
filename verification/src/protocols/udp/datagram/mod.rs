//! UDP datagrams.

pub mod header;

pub use self::header::UdpHeader;
