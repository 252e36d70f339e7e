//! Sends packets over the bus and takes them from it.

pub mod backoff;
pub mod bus;
pub mod half_duplex;
pub mod slip;
