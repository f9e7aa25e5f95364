//! The decoded event and the raw fields it is made from.

use vstd::prelude::*;

verus! {

/// The number of input channels of the instrument.
pub const NUM_OF_INPUT_CHANNELS: usize = 6;

/// One decoded event. The channel it arrived on is not part of it: an event
/// is kept in the collection of its channel.
#[derive(Clone, Copy, Debug, PartialEq, Eq, Structural)]
pub struct DataLine {
    /// Whether the instrument reported lost data with this event.
    pub lost: bool,
    /// The tag that the layout carries with an event, zero where it carries
    /// none.
    pub tag: u16,
    /// Rising (`true`) or falling edge.
    pub edge: bool,
    /// The sweep the event belongs to, zero where the layout counts none.
    pub sweep: u16,
    /// The time of the event, counted from the start of the first sweep.
    pub time: u64,
}

impl DataLine {
    pub fn new(lost: bool, tag: u16, edge: bool, sweep: u16, time: u64) -> (line: DataLine)
        ensures
            line == (DataLine { lost, tag, edge, sweep, time }),
    {
        DataLine { lost, tag, edge, sweep, time }
    }
}

/// The fields of one record, as they stand in it.
#[derive(Clone, Copy, Debug, PartialEq, Eq, Structural)]
pub struct Fields {
    /// The channel number as transmitted, `1..=6` in a sound record.
    pub channel: u8,
    pub edge: bool,
    pub lost: bool,
    pub tag: u16,
    pub sweep: u16,
    /// The time within the sweep.
    pub time: u64,
}

} // verus!
