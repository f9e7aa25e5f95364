//! When a decode fails, and with what: a decode succeeds exactly if every
//! record is sound, and fails with what is wrong with the first that is
//! not.

use vstd::prelude::*;
use crate::channels::no_events;
use crate::driver::{decoded, outcomes_of, record_outcome, routed_all, step, ChunkOutcome};
use crate::error::DecodeError;
use crate::extract::fields_of;
use crate::record::{DataLine, NUM_OF_INPUT_CHANNELS};
use crate::timepatch::TimepatchBits;
use crate::word::{is_padding, le_value};

verus! {

/// What is wrong with a record, if anything is, where the channels in
/// `active` take events: a channel that the instrument does not have, a
/// channel that takes no events, sweep zero, or a time beyond 64 bits.
pub open spec fn failure_of(outcome: ChunkOutcome, active: Seq<bool>) -> Option<DecodeError> {
    match outcome {
        ChunkOutcome::Padding => None,
        ChunkOutcome::Event { channel, .. } => if !(1 <= channel <= NUM_OF_INPUT_CHANNELS) {
            Some(DecodeError::ChannelOutOfRange(channel))
        } else if !active[channel - 1] {
            Some(DecodeError::InactiveChannel(channel))
        } else {
            None
        },
        ChunkOutcome::ChannelOutOfRange(channel) => Some(DecodeError::ChannelOutOfRange(channel)),
        ChunkOutcome::InvalidSweep => Some(DecodeError::InvalidSweep),
        ChunkOutcome::TimeOverflow => Some(DecodeError::TimeOverflow),
    }
}

/// A step fails exactly on a record with which something is wrong, and
/// with that.
proof fn lemma_step_fails_with(channels: Seq<Seq<DataLine>>, active: Seq<bool>, outcome: ChunkOutcome)
    ensures
        match failure_of(outcome, active) {
            Some(e) => step(channels, active, outcome) == Err::<Seq<Seq<DataLine>>, DecodeError>(e),
            None => step(channels, active, outcome) is Ok,
        },
{
}

/// Taking records into the channels succeeds exactly if nothing is wrong
/// with any of them.
pub proof fn lemma_routed_iff_sound(
    start: Seq<Seq<DataLine>>,
    active: Seq<bool>,
    outcomes: Seq<ChunkOutcome>,
)
    ensures
        routed_all(start, active, outcomes) is Ok <==> forall|i: int|
            0 <= i < outcomes.len() ==> failure_of(#[trigger] outcomes[i], active) is None,
    decreases outcomes.len(),
{
    if outcomes.len() > 0 {
        let before = outcomes.drop_last();
        lemma_routed_iff_sound(start, active, before);
        if routed_all(start, active, before) is Ok {
            lemma_step_fails_with(routed_all(start, active, before)->Ok_0, active, outcomes.last());
        }
        if routed_all(start, active, outcomes) is Ok {
            assert forall|i: int| 0 <= i < outcomes.len() implies failure_of(
                #[trigger] outcomes[i],
                active,
            ) is None by {
                if i < before.len() {
                    assert(before[i] == outcomes[i]);
                }
            }
        } else if routed_all(start, active, before) is Ok {
            assert(failure_of(outcomes[outcomes.len() - 1], active) is Some);
        } else {
            let i = choose|i: int|
                0 <= i < before.len() && !(failure_of(#[trigger] before[i], active) is None);
            assert(before[i] == outcomes[i]);
        }
    }
}

/// Taking records into the channels fails with what is wrong with the
/// first record with which something is: the place of that record is
/// handed back.
pub proof fn lemma_routed_fails_with_first(
    start: Seq<Seq<DataLine>>,
    active: Seq<bool>,
    outcomes: Seq<ChunkOutcome>,
) -> (first: int)
    requires
        routed_all(start, active, outcomes) is Err,
    ensures
        0 <= first < outcomes.len(),
        failure_of(outcomes[first], active) == Some(routed_all(start, active, outcomes)->Err_0),
        forall|k: int| 0 <= k < first ==> failure_of(#[trigger] outcomes[k], active) is None,
    decreases outcomes.len(),
{
    let before = outcomes.drop_last();
    if routed_all(start, active, before) is Err {
        let first = lemma_routed_fails_with_first(start, active, before);
        assert(before[first] == outcomes[first]);
        assert forall|k: int| 0 <= k < first implies failure_of(
            #[trigger] outcomes[k],
            active,
        ) is None by {
            assert(before[k] == outcomes[k]);
        }
        first
    } else {
        lemma_routed_iff_sound(start, active, before);
        lemma_step_fails_with(routed_all(start, active, before)->Ok_0, active, outcomes.last());
        assert forall|k: int| 0 <= k < outcomes.len() - 1 implies failure_of(
            #[trigger] outcomes[k],
            active,
        ) is None by {
            assert(before[k] == outcomes[k]);
        }
        outcomes.len() - 1
    }
}

/// A decode succeeds exactly if nothing is wrong with any record of the
/// data: one record with a channel that the instrument does not have, with
/// an inactive channel, with sweep zero or with a time beyond 64 bits fails
/// the whole decode.
pub proof fn lemma_decode_succeeds_iff_sound(
    data: Seq<u8>,
    bits: TimepatchBits,
    range: u64,
    active: Seq<bool>,
)
    ensures
        decoded(data, bits, range, active) is Ok <==> forall|i: int|
            0 <= i < outcomes_of(data, bits, range).len() ==> failure_of(
                #[trigger] outcomes_of(data, bits, range)[i],
                active,
            ) is None,
{
    lemma_routed_iff_sound(no_events(), active, outcomes_of(data, bits, range));
}

/// A decode that fails reports what is wrong with the first record of the
/// file with which something is: the place of that record is handed back.
pub proof fn lemma_decode_fails_with_first(
    data: Seq<u8>,
    bits: TimepatchBits,
    range: u64,
    active: Seq<bool>,
) -> (first: int)
    requires
        decoded(data, bits, range, active) is Err,
    ensures
        0 <= first < outcomes_of(data, bits, range).len(),
        failure_of(outcomes_of(data, bits, range)[first], active) == Some(
            decoded(data, bits, range, active)->Err_0,
        ),
        forall|k: int|
            0 <= k < first ==> failure_of(#[trigger] outcomes_of(data, bits, range)[k], active)
                is None,
{
    lemma_routed_fails_with_first(no_events(), active, outcomes_of(data, bits, range))
}

/// Sweep zero is never taken for a sweep: under a layout that counts
/// sweeps, a record that counts sweep zero is no event, whatever its other
/// fields hold, and where its channel is one of the six it is refused for
/// its sweep.
pub proof fn lemma_sweep_zero_is_refused(chunk: Seq<u8>, bits: TimepatchBits, range: u64)
    requires
        bits.has_sweep(),
        !is_padding(chunk),
        fields_of(le_value(chunk) as u64, bits).sweep == 0,
    ensures
        !(record_outcome(chunk, bits, range) is Event),
        1 <= fields_of(le_value(chunk) as u64, bits).channel <= NUM_OF_INPUT_CHANNELS
            ==> record_outcome(chunk, bits, range) == ChunkOutcome::InvalidSweep,
{
}

/// A channel that the instrument does not have is never taken for one: a
/// record that names channel zero, or seven, is refused for its channel,
/// whatever its other fields hold.
pub proof fn lemma_channel_out_of_range_is_refused(chunk: Seq<u8>, bits: TimepatchBits, range: u64)
    requires
        !is_padding(chunk),
        !(1 <= fields_of(le_value(chunk) as u64, bits).channel <= NUM_OF_INPUT_CHANNELS),
    ensures
        record_outcome(chunk, bits, range) == ChunkOutcome::ChannelOutOfRange(
            fields_of(le_value(chunk) as u64, bits).channel,
        ),
{
}

/// A record of zeros is no event.
pub proof fn lemma_padding_is_no_event(chunk: Seq<u8>, bits: TimepatchBits, range: u64)
    requires
        is_padding(chunk),
    ensures
        record_outcome(chunk, bits, range) == ChunkOutcome::Padding,
{
}

} // verus!
