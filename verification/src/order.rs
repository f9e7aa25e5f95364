//! What holds of every decode: where the events of a channel come from, and
//! that they keep the order of the file.

use vstd::prelude::*;
use crate::channels::{no_events, InputChannels};
use crate::driver::{
    chunk_at, decoded, is_decode_of, outcomes_of, record_outcome, routed_all, step, ChunkOutcome,
};
use crate::error::DecodeError;
use crate::record::{DataLine, NUM_OF_INPUT_CHANNELS};
use crate::timepatch::TimepatchBits;
use crate::word::is_padding;

verus! {

/// Whether `outcome` is an event of channel `channel`, counted from one.
pub open spec fn is_event_of(outcome: ChunkOutcome, channel: int) -> bool {
    outcome matches ChunkOutcome::Event { channel: c, .. } && c == channel
}

/// The places, in rising order, of the records among `outcomes` that are
/// events of channel `channel`.
pub open spec fn places_of(outcomes: Seq<ChunkOutcome>, channel: int) -> Seq<int>
    decreases outcomes.len(),
{
    if outcomes.len() == 0 {
        Seq::empty()
    } else if is_event_of(outcomes.last(), channel) {
        places_of(outcomes.drop_last(), channel).push(outcomes.len() - 1)
    } else {
        places_of(outcomes.drop_last(), channel)
    }
}

/// The places of the events of a channel rise, lie within the outcomes, and
/// are all the places where the channel has an event.
pub proof fn lemma_places_of(outcomes: Seq<ChunkOutcome>, channel: int)
    ensures
        forall|j: int|
            0 <= j < places_of(outcomes, channel).len() ==> 0 <= #[trigger] places_of(
                outcomes,
                channel,
            )[j] < outcomes.len() && is_event_of(
                outcomes[places_of(outcomes, channel)[j]],
                channel,
            ),
        forall|j: int, k: int|
            0 <= j < k < places_of(outcomes, channel).len() ==> #[trigger] places_of(
                outcomes,
                channel,
            )[j] < #[trigger] places_of(outcomes, channel)[k],
        forall|i: int|
            0 <= i < outcomes.len() && is_event_of(#[trigger] outcomes[i], channel)
                ==> places_of(outcomes, channel).contains(i),
    decreases outcomes.len(),
{
    if outcomes.len() > 0 {
        let before = outcomes.drop_last();
        let places = places_of(outcomes, channel);
        let earlier = places_of(before, channel);
        lemma_places_of(before, channel);
        assert forall|j: int| 0 <= j < earlier.len() implies outcomes[earlier[j]]
            == before[earlier[j]] by {}
        assert forall|i: int|
            0 <= i < outcomes.len() && is_event_of(#[trigger] outcomes[i], channel) implies places.contains(
            i,
        ) by {
            if i < before.len() {
                assert(before[i] == outcomes[i]);
                assert(earlier.contains(i));
                let j = choose|j: int| 0 <= j < earlier.len() && earlier[j] == i;
                assert(places[j] == i);
            } else {
                assert(places[places.len() - 1] == i);
            }
        }
    }
}

/// After a decode that began with empty channels, each channel holds the
/// records of the events that `outcomes` has for it, one for one and in the
/// order of their places.
pub proof fn lemma_routed_by_places(active: Seq<bool>, outcomes: Seq<ChunkOutcome>, channel: int)
    requires
        1 <= channel <= NUM_OF_INPUT_CHANNELS,
        routed_all(no_events(), active, outcomes) is Ok,
    ensures
        ({
            let events = routed_all(no_events(), active, outcomes)->Ok_0;
            let places = places_of(outcomes, channel);
            &&& events.len() == NUM_OF_INPUT_CHANNELS
            &&& events[channel - 1].len() == places.len()
            &&& forall|j: int|
                0 <= j < places.len() ==> outcomes[#[trigger] places[j]]
                    == (ChunkOutcome::Event {
                    channel: channel as u8,
                    record: events[channel - 1][j],
                })
        }),
    decreases outcomes.len(),
{
    if outcomes.len() > 0 {
        let before = outcomes.drop_last();
        lemma_routed_by_places(active, before, channel);
        lemma_places_of(before, channel);
        let prev = routed_all(no_events(), active, before)->Ok_0;
        let events = routed_all(no_events(), active, outcomes)->Ok_0;
        let places = places_of(outcomes, channel);
        let earlier = places_of(before, channel);
        assert(step(prev, active, outcomes.last()) == Ok::<Seq<Seq<DataLine>>, DecodeError>(events));
        assert forall|j: int| 0 <= j < places.len() implies outcomes[#[trigger] places[j]]
            == (ChunkOutcome::Event { channel: channel as u8, record: events[channel - 1][j] }) by {
            if j < earlier.len() {
                assert(places[j] == earlier[j]);
                assert(outcomes[earlier[j]] == before[earlier[j]]);
                assert(events[channel - 1][j] == prev[channel - 1][j]);
            }
        }
    }
}

/// The events of a channel keep the order of the file, and no record of
/// zeros is among them.
///
/// Where decoding `data` succeeds, the events of channel `channel` are, one
/// for one, the records at `places`, a rising sequence of places in the
/// file: the event at `j` is what the record at `places[j]` decodes to, a
/// record that is not all zeros and that names this channel. So of two
/// events of a channel the one whose record stands first in the file stands
/// first in the channel. And `places` leaves out no record that decodes to
/// an event of this channel.
pub proof fn lemma_channel_keeps_file_order(
    data: Seq<u8>,
    bits: TimepatchBits,
    range: u64,
    active: Seq<bool>,
    channel: int,
)
    requires
        1 <= channel <= NUM_OF_INPUT_CHANNELS,
        decoded(data, bits, range, active) is Ok,
    ensures
        ({
            let events = decoded(data, bits, range, active)->Ok_0;
            let outcomes = outcomes_of(data, bits, range);
            let places = places_of(outcomes, channel);
            &&& events.len() == NUM_OF_INPUT_CHANNELS
            &&& events[channel - 1].len() == places.len()
            &&& forall|j: int, k: int|
                0 <= j < k < places.len() ==> #[trigger] places[j] < #[trigger] places[k]
            &&& forall|j: int|
                0 <= j < places.len() ==> {
                    let chunk = chunk_at(data, bits.spec_record_bytes(), #[trigger] places[j]);
                    &&& 0 <= places[j] < outcomes.len()
                    &&& !is_padding(chunk)
                    &&& record_outcome(chunk, bits, range) == (ChunkOutcome::Event {
                        channel: channel as u8,
                        record: events[channel - 1][j],
                    })
                }
            &&& forall|i: int|
                0 <= i < outcomes.len() && is_event_of(#[trigger] outcomes[i], channel)
                    ==> places.contains(i)
        }),
{
    let outcomes = outcomes_of(data, bits, range);
    lemma_places_of(outcomes, channel);
    lemma_routed_by_places(active, outcomes, channel);
}

/// Decoding is a function of what is decoded: two decodes of the same data
/// with the same range, code and channel map succeed or fail together, give
/// the same events in the same order, or fail in the same way.
pub proof fn lemma_decode_again_gives_the_same(
    first: Result<InputChannels, DecodeError>,
    second: Result<InputChannels, DecodeError>,
    data: Seq<u8>,
    range: u64,
    timepatch: Seq<char>,
    channel_map: Seq<u8>,
)
    requires
        is_decode_of(first, data, range, timepatch, channel_map),
        is_decode_of(second, data, range, timepatch, channel_map),
    ensures
        first is Ok <==> second is Ok,
        first is Ok ==> first->Ok_0@ == second->Ok_0@ && first->Ok_0.activity()
            == second->Ok_0.activity(),
        first is Err ==> same_failure(first->Err_0, second->Err_0),
{
}

/// Two failures of the same kind with the same content.
pub open spec fn same_failure(e: DecodeError, f: DecodeError) -> bool {
    match (e, f) {
        (DecodeError::UnknownTimepatch(c), DecodeError::UnknownTimepatch(d)) => c@ == d@,
        _ => e == f,
    }
}

} // verus!
