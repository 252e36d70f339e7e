//! Tells by a timer whether the bus is idle. The timer is restarted by each edge on the line, and
//! stops at zero when it has run out.

use vstd::prelude::*;

verus! {

/// How many microseconds a bit takes on the bus.
pub const UART_WORDS_PER_TICK: u16 = 2;

/// How many bits without an edge make the bus idle.
pub const UART_NUMBER_OF_BITS_TO_WAIT: u16 = 4;

/// How many microseconds the timer runs.
pub const WAIT_MICROSECONDS: u16 = UART_WORDS_PER_TICK * UART_NUMBER_OF_BITS_TO_WAIT;

/// What was read from the timer.
#[derive(Clone, Copy, Debug, PartialEq, Eq, Structural)]
pub struct CarrierSenseTimer {
    /// How far the timer has run, or zero if it is stopped.
    pub count: u16,
}

impl CarrierSenseTimer {
    /// Whether nobody is sending on the bus.
    pub fn line_idle(&self) -> (idle: bool)
        ensures
            idle == (self.count == 0),
    {
        self.count == 0
    }
}

} // verus!
