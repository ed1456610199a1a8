//! Driver for Winsen infrared CO2 sensor modules (MH-Z19, MH-Z19B, MH-Z14)
//! on a byte-oriented serial link.
//!
//! The sensor speaks in fixed frames of nine bytes, each closed by a checksum.
//! The driver never spins by itself: every call makes at most one call on the
//! transport and reports whether the operation is still pending, so that the
//! caller decides how to wait.

pub mod codec;
pub mod command;
pub mod error;
pub mod exchange;
pub mod probe;
pub mod sensor;
pub mod timing;
pub mod trace;
pub mod transport;

pub use crate::error::Error;
pub use crate::sensor::{Progress, WinsenSensor};
pub use crate::timing::MonotonicCounter;
pub use crate::transport::{Attempt, Transport};
