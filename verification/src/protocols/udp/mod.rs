//! The parts of UDP that need no network.

pub mod datagram;
pub mod listener;
pub mod options;
pub mod socket;

pub use self::datagram::UdpHeader;
pub use self::options::UdpOptions as Options;
