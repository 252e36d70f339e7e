//! One try to send on the bus. What is sent is heard back, and must be what was sent.

use vstd::prelude::*;

verus! {

/// The longest message that can be sent: its echo has to fit into a buffer.
pub const ECHO_BUFFER_SIZE: usize = 1500;

/// How long to wait for the echo, in milliseconds.
pub const ECHO_TIMEOUT_MILLIS: u64 = 100;

/// Why a message was not sent.
#[derive(Clone, Copy, Debug, PartialEq, Eq, Structural)]
pub enum InternalBusWriteError {
    /// Someone else is sending.
    Collision,
    /// The echo could not be read.
    UartError,
    /// There is no echo.
    IbusDisconnected,
}

/// What was heard after a message was sent.
#[derive(Debug, PartialEq, Eq)]
pub enum Echo {
    /// As many bytes as were sent.
    Heard(Vec<u8>),
    /// Reading them failed.
    Failed,
    /// They did not come in time.
    TimedOut,
}

/// Whether a message may be sent now. It may not if there are bytes to read, as then someone else
/// is sending; not knowing is no reason to wait.
pub fn may_write_to_internal_bus(read_ready: Option<bool>) -> (result: Result<
    (),
    InternalBusWriteError,
>)
    ensures
        result == if read_ready == Some(true) {
            Err(InternalBusWriteError::Collision)
        } else {
            Ok(())
        },
{
    match read_ready {
        Some(true) => Err(InternalBusWriteError::Collision),
        _ => Ok(()),
    }
}

/// Whether two byte strings are the same.
fn same_bytes(first: &[u8], second: &[u8]) -> (same: bool)
    ensures
        same == (first@ == second@),
{
    if first.len() != second.len() {
        return false;
    }
    let mut at: usize = 0;
    while at < first.len()
        invariant
            at <= first@.len(),
            first@.len() == second@.len(),
            first@.take(at as int) == second@.take(at as int),
        decreases first.len() - at,
    {
        if first[at] != second[at] {
            return false;
        }
        assert(first@.take(at + 1) =~= first@.take(at as int).push(first@[at as int]));
        assert(second@.take(at + 1) =~= second@.take(at as int).push(second@[at as int]));
        at += 1;
    }
    assert(first@.take(at as int) =~= first@);
    assert(second@.take(at as int) =~= second@);
    true
}

/// Whether a message was sent, by what was heard after it. A longer message cannot be sent, as its
/// echo cannot be heard.
pub fn write_to_internal_bus(send_slice: &[u8], echo: &Echo) -> (result: Result<
    (),
    InternalBusWriteError,
>)
    requires
        send_slice@.len() <= ECHO_BUFFER_SIZE,
    ensures
        result == match echo {
            Echo::Heard(heard) if heard@ == send_slice@ => Ok::<(), InternalBusWriteError>(()),
            Echo::Heard(_) => Err(InternalBusWriteError::Collision),
            Echo::Failed => Err(InternalBusWriteError::UartError),
            Echo::TimedOut => Err(InternalBusWriteError::IbusDisconnected),
        },
{
    match echo {
        Echo::Heard(heard) => {
            if same_bytes(send_slice, heard.as_slice()) {
                Ok(())
            } else {
                Err(InternalBusWriteError::Collision)
            }
        },
        Echo::Failed => Err(InternalBusWriteError::UartError),
        Echo::TimedOut => Err(InternalBusWriteError::IbusDisconnected),
    }
}

} // verus!
