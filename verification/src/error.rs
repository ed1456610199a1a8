//! The ways in which an exchange with the sensor fails.

use vstd::prelude::*;

verus! {

/// Why an exchange with the sensor failed.
#[derive(Debug, PartialEq, Eq)]
pub enum Error<E> {
    /// The deadline passed before the frame was through.
    Timeout,
    /// The transport reported a fault of its own.
    Serial(E),
    /// The bytes of the received frame do not add up.
    WrongChecksum,
    /// The received frame answers another command.
    WrongPacketType,
}

impl<E> Error<E> {
    /// Whether the failure lies in the protocol rather than in the
    /// transport: a later exchange may well succeed.
    pub open spec fn is_protocol(self) -> bool {
        !(self is Serial)
    }
}

} // verus!
