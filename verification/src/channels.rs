//! The collections that the decoded events go to, one per input channel.

use vstd::prelude::*;
use crate::error::DecodeError;
use crate::masks::calc_num_of_lines;
use crate::record::{DataLine, NUM_OF_INPUT_CHANNELS};

verus! {

/// The events of a measurement, kept apart by the channel they arrived on
/// and, within a channel, in the order in which they were added.
///
/// A channel is active or inactive from the start. An inactive channel has
/// a collection like any other, which stays empty.
#[derive(Debug)]
pub struct InputChannels {
    channels: Vec<Vec<DataLine>>,
    active: Vec<bool>,
}

/// Which channels a channel map declares active: those it marks with one.
pub open spec fn activity_of(channel_map: Seq<u8>) -> Seq<bool> {
    Seq::new(NUM_OF_INPUT_CHANNELS as nat, |c: int| channel_map[c] == 1)
}

/// Six channels without events.
pub open spec fn no_events() -> Seq<Seq<DataLine>> {
    Seq::new(NUM_OF_INPUT_CHANNELS as nat, |c: int| Seq::<DataLine>::empty())
}

/// The channels after `record` was added to the one at `channel_index`, or
/// the failure to add it there because that channel is inactive.
pub open spec fn routed(
    channels: Seq<Seq<DataLine>>,
    active: Seq<bool>,
    channel_index: int,
    record: DataLine,
) -> Result<Seq<Seq<DataLine>>, DecodeError> {
    if active[channel_index] {
        Ok(channels.update(channel_index, channels[channel_index].push(record)))
    } else {
        Err(DecodeError::InactiveChannel((channel_index + 1) as u8))
    }
}

impl View for InputChannels {
    type V = Seq<Seq<DataLine>>;

    /// The events of each channel, channel one first.
    closed spec fn view(&self) -> Seq<Seq<DataLine>> {
        Seq::new(self.channels@.len(), |c: int| self.channels@[c]@)
    }
}

impl InputChannels {
    /// Which channels are active, channel one first.
    pub closed spec fn activity(&self) -> Seq<bool> {
        self.active@
    }

    /// There are six channels, and the inactive ones hold nothing.
    pub open spec fn wf(&self) -> bool {
        &&& self@.len() == NUM_OF_INPUT_CHANNELS
        &&& self.activity().len() == NUM_OF_INPUT_CHANNELS
        &&& forall|c: int|
            0 <= c < NUM_OF_INPUT_CHANNELS && !self.activity()[c] ==> (#[trigger] self@[c]).len()
                == 0
    }

    /// Channels with the given events; a channel given as `None` is
    /// inactive.
    pub fn new(
        ch1: Option<Vec<DataLine>>,
        ch2: Option<Vec<DataLine>>,
        ch3: Option<Vec<DataLine>>,
        ch4: Option<Vec<DataLine>>,
        ch5: Option<Vec<DataLine>>,
        ch6: Option<Vec<DataLine>>,
    ) -> (chans: InputChannels)
        ensures
            chans.wf(),
            chans.activity() == seq![
                ch1 is Some,
                ch2 is Some,
                ch3 is Some,
                ch4 is Some,
                ch5 is Some,
                ch6 is Some,
            ],
            chans@ == seq![
                slot_events(ch1),
                slot_events(ch2),
                slot_events(ch3),
                slot_events(ch4),
                slot_events(ch5),
                slot_events(ch6),
            ],
    {
        let mut channels: Vec<Vec<DataLine>> = Vec::with_capacity(NUM_OF_INPUT_CHANNELS);
        let mut active: Vec<bool> = Vec::with_capacity(NUM_OF_INPUT_CHANNELS);
        active.push(ch1.is_some());
        channels.push(slot_into_vec(ch1));
        active.push(ch2.is_some());
        channels.push(slot_into_vec(ch2));
        active.push(ch3.is_some());
        channels.push(slot_into_vec(ch3));
        active.push(ch4.is_some());
        channels.push(slot_into_vec(ch4));
        active.push(ch5.is_some());
        channels.push(slot_into_vec(ch5));
        active.push(ch6.is_some());
        channels.push(slot_into_vec(ch6));
        let chans = InputChannels { channels, active };
        assert(chans.activity() =~= seq![
            ch1 is Some,
            ch2 is Some,
            ch3 is Some,
            ch4 is Some,
            ch5 is Some,
            ch6 is Some,
        ]);
        assert(chans@ =~= seq![
            slot_events(ch1),
            slot_events(ch2),
            slot_events(ch3),
            slot_events(ch4),
            slot_events(ch5),
            slot_events(ch6),
        ]);
        chans
    }

    /// The events of channel `index`, where channels are counted from one.
    pub fn index(&self, index: u8) -> (events: &Vec<DataLine>)
        requires
            self.wf(),
            1 <= index <= NUM_OF_INPUT_CHANNELS,
        ensures
            events@ == self@[index - 1],
    {
        &self.channels[(index - 1) as usize]
    }

    /// Whether channel `index`, counted from one, is active.
    pub fn is_active(&self, index: u8) -> (active: bool)
        requires
            self.wf(),
            1 <= index <= NUM_OF_INPUT_CHANNELS,
        ensures
            active == self.activity()[index - 1],
    {
        self.active[(index - 1) as usize]
    }

    /// Adds `record` at the end of the channel at `channel_index`, where
    /// channels are counted from zero. An inactive channel takes no events:
    /// the attempt fails and changes nothing.
    pub fn route(&mut self, record: DataLine, channel_index: usize) -> (r: Result<(), DecodeError>)
        requires
            old(self).wf(),
            channel_index < NUM_OF_INPUT_CHANNELS,
        ensures
            final(self).wf(),
            final(self).activity() == old(self).activity(),
            match routed(old(self)@, old(self).activity(), channel_index as int, record) {
                Ok(channels) => r is Ok && final(self)@ == channels,
                Err(e) => r == Err::<(), DecodeError>(e) && final(self)@ == old(self)@,
            },
    {
        if !self.active[channel_index] {
            return Err(DecodeError::InactiveChannel((channel_index + 1) as u8));
        }
        self.channels[channel_index].push(record);
        assert(self@ =~= old(self)@.update(
            channel_index as int,
            old(self)@[channel_index as int].push(record),
        ));
        Ok(())
    }
}

/// The events that a channel is given at its making.
pub open spec fn slot_events(slot: Option<Vec<DataLine>>) -> Seq<DataLine> {
    match slot {
        Some(events) => events@,
        None => Seq::empty(),
    }
}

fn slot_into_vec(slot: Option<Vec<DataLine>>) -> (events: Vec<DataLine>)
    ensures
        events@ == slot_events(slot),
{
    match slot {
        Some(events) => events,
        None => Vec::with_capacity(0),
    }
}

/// Empty channels for a decode: room for as many events as `data_size`
/// bytes of records of `record_bytes` bytes can hold in each channel that
/// `active_channels` marks with one, and none in the others.
pub fn create_channel_vec(data_size: usize, record_bytes: u8, active_channels: &Vec<u8>) -> (chans:
    InputChannels)
    requires
        record_bytes > 0,
        data_size / (record_bytes as usize) + 1 <= usize::MAX,
        active_channels@.len() == NUM_OF_INPUT_CHANNELS,
    ensures
        chans.wf(),
        chans@ == no_events(),
        chans.activity() == activity_of(active_channels@),
{
    let room: usize = calc_num_of_lines(data_size, record_bytes);
    let mut channels: Vec<Vec<DataLine>> = Vec::with_capacity(NUM_OF_INPUT_CHANNELS);
    let mut active: Vec<bool> = Vec::with_capacity(NUM_OF_INPUT_CHANNELS);
    let mut c: usize = 0;
    while c < NUM_OF_INPUT_CHANNELS
        invariant
            c <= NUM_OF_INPUT_CHANNELS,
            active_channels@.len() == NUM_OF_INPUT_CHANNELS,
            channels@.len() == c,
            active@.len() == c,
            forall|k: int| 0 <= k < c ==> (#[trigger] channels@[k])@.len() == 0,
            forall|k: int| 0 <= k < c ==> #[trigger] active@[k] == (active_channels@[k] == 1),
        decreases NUM_OF_INPUT_CHANNELS - c,
    {
        if active_channels[c] == 1u8 {
            channels.push(Vec::with_capacity(room));
            active.push(true);
        } else {
            channels.push(Vec::with_capacity(0));
            active.push(false);
        }
        c += 1;
    }
    let chans = InputChannels { channels, active };
    assert(chans@ =~~= no_events());
    assert(chans.activity() =~= activity_of(active_channels@));
    chans
}

} // verus!
