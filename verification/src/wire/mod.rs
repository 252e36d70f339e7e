//! What the adapter reads and writes of the packets that pass through it.

pub mod arp;
pub mod bytes;
pub mod ethernet;
pub mod ipv4;
pub mod udp;
