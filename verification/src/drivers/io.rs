//! Reads and writes that a driver asks for.

use vstd::prelude::*;

verus! {

/// A step in talking to a device.
#[derive(Clone, Copy, Debug, PartialEq, Eq, Structural)]
pub enum Io {
    /// Write a value to a port.
    Out8(u16, u8),
    Out16(u16, u16),
    Out32(u16, u32),
    /// Read a port, and forget what it says.
    In8(u16),
    /// Write a value to a register of a device in memory, by its offset.
    Mem32(u32, u32),
    /// Wait for so many milliseconds.
    Sleep(u32),
}

/// What a look at a device tells.
#[derive(Clone, Copy, Debug, PartialEq, Eq, Structural)]
pub enum Poll {
    Done,
    Failed,
    /// Look again.
    Wait,
}

} // verus!
