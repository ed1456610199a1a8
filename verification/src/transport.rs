//! The serial link, as the driver sees it: one byte at a time, never waiting.

use vstd::prelude::*;

verus! {

/// What a call that never waits came back with.
#[derive(Debug, PartialEq, Eq)]
pub enum Attempt<T, E> {
    /// The call went through.
    Ready(T),
    /// Nothing could be done right now; the same call may be made again.
    WouldBlock,
    /// The link itself failed.
    Failed(E),
}

/// A serial link that reads and writes single bytes without waiting.
pub trait Transport {
    /// The fault that the link reports.
    type Error;

    /// Takes one byte from the link, if one has arrived.
    fn read(&mut self) -> Attempt<u8, Self::Error>;

    /// Hands one byte to the link, if it has room.
    fn write(&mut self, byte: u8) -> Attempt<(), Self::Error>;
}

} // verus!
