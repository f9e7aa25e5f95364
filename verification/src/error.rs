//! The failures of a decode.

use vstd::prelude::*;

verus! {

/// Why a decode was abandoned.
#[derive(Debug, PartialEq, Eq)]
pub enum DecodeError {
    /// The timepatch code is not one of the fourteen the instrument knows.
    /// Holds the code that was given.
    UnknownTimepatch(String),
    /// A record names a channel outside `1..=6`. Holds the channel as it
    /// stood in the record.
    ChannelOutOfRange(u8),
    /// A record belongs to a channel that was declared inactive. Holds the
    /// channel as it stood in the record.
    InactiveChannel(u8),
    /// A record of a sweep-bearing layout counts sweep zero.
    InvalidSweep,
    /// The absolute time of a record does not fit in 64 bits.
    TimeOverflow,
}

} // verus!
