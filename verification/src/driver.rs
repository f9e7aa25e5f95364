//! Decoding a data section: record by record, each event to its channel.

use vstd::prelude::*;
use vstd::arithmetic::power2::{lemma2_to64, lemma2_to64_rest};
use rayon::iter::{IndexedParallelIterator, ParallelIterator};
use rayon::slice::ParallelSlice;
use crate::channels::{activity_of, create_channel_vec, no_events, routed, InputChannels};
use crate::error::DecodeError;
use crate::extract::{fields_of, parse_word};
use crate::record::{DataLine, NUM_OF_INPUT_CHANNELS};
use crate::sweep::{resolve, resolved_time};
use crate::timepatch::{bits_of, lemma_catalog_fills_record, timepatch_of, TimepatchBits};
use crate::word::{is_padding, le_value, lemma_le_value_bound, lemma_le_value_zero, read_le_uint};

verus! {

/// What one record of a data section turns out to be.
#[derive(Clone, Copy, Debug, PartialEq, Eq, Structural)]
pub enum ChunkOutcome {
    /// All bytes are zero: the record fills space and holds no event.
    Padding,
    /// An event of channel `channel`, counted from one.
    Event { channel: u8, record: DataLine },
    /// The record names a channel that the instrument does not have.
    ChannelOutOfRange(u8),
    /// The record counts sweep zero under a layout that counts sweeps.
    InvalidSweep,
    /// The absolute time of the record does not fit in 64 bits.
    TimeOverflow,
}

/// What the record in `chunk` is under the layout `bits`, with sweeps of
/// `range` ticks. The channel is looked at before the sweep.
pub open spec fn record_outcome(chunk: Seq<u8>, bits: TimepatchBits, range: u64) -> ChunkOutcome {
    if is_padding(chunk) {
        ChunkOutcome::Padding
    } else {
        let fields = fields_of(le_value(chunk) as u64, bits);
        if fields.channel < 1 || fields.channel > NUM_OF_INPUT_CHANNELS {
            ChunkOutcome::ChannelOutOfRange(fields.channel)
        } else {
            match resolved_time(fields.time, fields.sweep, range, bits.has_sweep()) {
                Ok(time) => ChunkOutcome::Event {
                    channel: fields.channel,
                    record: DataLine {
                        lost: fields.lost,
                        tag: fields.tag,
                        edge: fields.edge,
                        sweep: fields.sweep,
                        time,
                    },
                },
                Err(DecodeError::InvalidSweep) => ChunkOutcome::InvalidSweep,
                Err(_) => ChunkOutcome::TimeOverflow,
            }
        }
    }
}

/// How many whole records of `record_bytes` bytes `data` holds. Bytes
/// after the last whole record belong to none.
pub open spec fn record_count(data: Seq<u8>, record_bytes: nat) -> nat {
    data.len() / record_bytes
}

/// The bytes of record `i` of `data`.
pub open spec fn chunk_at(data: Seq<u8>, record_bytes: nat, i: int) -> Seq<u8> {
    data.subrange(i * record_bytes, (i + 1) * record_bytes)
}

/// What each record of `data` is, in the order of the file.
pub open spec fn outcomes_of(data: Seq<u8>, bits: TimepatchBits, range: u64) -> Seq<ChunkOutcome> {
    Seq::new(
        record_count(data, bits.spec_record_bytes()),
        |i: int| record_outcome(chunk_at(data, bits.spec_record_bytes(), i), bits, range),
    )
}

/// The channels after one more record: padding changes nothing, an event
/// goes to the end of its channel, anything else ends the decode.
pub open spec fn step(channels: Seq<Seq<DataLine>>, active: Seq<bool>, outcome: ChunkOutcome) -> Result<
    Seq<Seq<DataLine>>,
    DecodeError,
> {
    match outcome {
        ChunkOutcome::Padding => Ok(channels),
        ChunkOutcome::Event { channel, record } => if 1 <= channel <= NUM_OF_INPUT_CHANNELS {
            routed(channels, active, channel - 1, record)
        } else {
            Err(DecodeError::ChannelOutOfRange(channel))
        },
        ChunkOutcome::ChannelOutOfRange(channel) => Err(DecodeError::ChannelOutOfRange(channel)),
        ChunkOutcome::InvalidSweep => Err(DecodeError::InvalidSweep),
        ChunkOutcome::TimeOverflow => Err(DecodeError::TimeOverflow),
    }
}

/// The channels after all of `outcomes`, taken in order from `start`, or
/// the failure of the first record that has one.
pub open spec fn routed_all(
    start: Seq<Seq<DataLine>>,
    active: Seq<bool>,
    outcomes: Seq<ChunkOutcome>,
) -> Result<Seq<Seq<DataLine>>, DecodeError>
    decreases outcomes.len(),
{
    if outcomes.len() == 0 {
        Ok(start)
    } else {
        match routed_all(start, active, outcomes.drop_last()) {
            Ok(channels) => step(channels, active, outcomes.last()),
            Err(e) => Err(e),
        }
    }
}

/// What decoding the data section `data` gives: the events of each channel
/// in the order of the file, or the first failure.
pub open spec fn decoded(data: Seq<u8>, bits: TimepatchBits, range: u64, active: Seq<bool>) -> Result<
    Seq<Seq<DataLine>>,
    DecodeError,
> {
    routed_all(no_events(), active, outcomes_of(data, bits, range))
}

/// Whether `result` is what decoding `data` under the code `timepatch`
/// gives. An unknown code fails before any record is looked at.
pub open spec fn is_decode_of(
    result: Result<InputChannels, DecodeError>,
    data: Seq<u8>,
    range: u64,
    timepatch: Seq<char>,
    channel_map: Seq<u8>,
) -> bool {
    match timepatch_of(timepatch) {
        None => result matches Err(DecodeError::UnknownTimepatch(code)) && code@ == timepatch,
        Some(tp) => match decoded(data, bits_of(tp), range, activity_of(channel_map)) {
            Ok(events) => result matches Ok(chans) && chans.wf() && chans@ == events
                && chans.activity() == activity_of(channel_map),
            Err(e) => result matches Err(f) && f == e,
        },
    }
}

/// Decodes the record in `chunk`.
pub fn decode_record(chunk: &[u8], bits: &TimepatchBits, range: u64) -> (outcome: ChunkOutcome)
    requires
        bits.wf(),
        chunk@.len() == bits.spec_record_bytes(),
    ensures
        outcome == record_outcome(chunk@, *bits, range),
{
    let nbytes: usize = bits.record_bytes();
    let word: u64 = read_le_uint(chunk, nbytes);
    proof {
        assert(chunk@.subrange(0, nbytes as int) =~= chunk@);
        lemma_le_value_zero(chunk@);
        lemma_le_value_bound(chunk@);
        lemma2_to64();
        lemma2_to64_rest();
    }
    if word == 0 {
        return ChunkOutcome::Padding;
    }
    let fields = parse_word(word, bits);
    if fields.channel < 1 || fields.channel as usize > NUM_OF_INPUT_CHANNELS {
        return ChunkOutcome::ChannelOutOfRange(fields.channel);
    }
    match resolve(fields.time, fields.sweep, range, bits.sweep_bits > 0) {
        Ok(time) => ChunkOutcome::Event {
            channel: fields.channel,
            record: DataLine::new(fields.lost, fields.tag, fields.edge, fields.sweep, time),
        },
        Err(DecodeError::InvalidSweep) => ChunkOutcome::InvalidSweep,
        Err(_) => ChunkOutcome::TimeOverflow,
    }
}

/// Takes one more record into `channels`.
pub fn route_outcome(channels: &mut InputChannels, outcome: ChunkOutcome) -> (r: Result<
    (),
    DecodeError,
>)
    requires
        old(channels).wf(),
    ensures
        final(channels).wf(),
        final(channels).activity() == old(channels).activity(),
        match step(old(channels)@, old(channels).activity(), outcome) {
            Ok(events) => r is Ok && final(channels)@ == events,
            Err(e) => r == Err::<(), DecodeError>(e) && final(channels)@ == old(channels)@,
        },
{
    match outcome {
        ChunkOutcome::Padding => Ok(()),
        ChunkOutcome::Event { channel, record } => {
            if 1 <= channel && channel as usize <= NUM_OF_INPUT_CHANNELS {
                channels.route(record, (channel - 1) as usize)
            } else {
                Err(DecodeError::ChannelOutOfRange(channel))
            }
        },
        ChunkOutcome::ChannelOutOfRange(channel) => Err(DecodeError::ChannelOutOfRange(channel)),
        ChunkOutcome::InvalidSweep => Err(DecodeError::InvalidSweep),
        ChunkOutcome::TimeOverflow => Err(DecodeError::TimeOverflow),
    }
}

/// Takes all of `outcomes` into `channels`, in order, and stops at the
/// first that fails.
pub fn route_all(outcomes: &Vec<ChunkOutcome>, channels: InputChannels) -> (r: Result<
    InputChannels,
    DecodeError,
>)
    requires
        channels.wf(),
    ensures
        match routed_all(channels@, channels.activity(), outcomes@) {
            Ok(events) => r matches Ok(chans) && chans.wf() && chans@ == events
                && chans.activity() == channels.activity(),
            Err(e) => r matches Err(f) && f == e,
        },
{
    let mut chans = channels;
    let mut i: usize = 0;
    while i < outcomes.len()
        invariant
            i <= outcomes@.len(),
            chans.wf(),
            chans.activity() == channels.activity(),
            routed_all(channels@, channels.activity(), outcomes@.take(i as int)) == Ok::<
                Seq<Seq<DataLine>>,
                DecodeError,
            >(chans@),
        decreases outcomes@.len() - i,
    {
        proof {
            lemma_routed_all_next(channels@, channels.activity(), outcomes@, i as int);
        }
        match route_outcome(&mut chans, outcomes[i]) {
            Ok(()) => {},
            Err(e) => {
                proof {
                    lemma_routed_all_fails(
                        channels@,
                        channels.activity(),
                        outcomes@,
                        (i + 1) as int,
                    );
                }
                return Err(e);
            },
        }
        i += 1;
    }
    assert(outcomes@.take(i as int) =~= outcomes@);
    Ok(chans)
}

/// The records of `data[start_of_data..]`, decoded one after the other
/// under the layout that `timepatch` names: the events of each channel that
/// `channel_map` marks with one, in the order of the file. The decode fails
/// as a whole with the failure of the first record that has one, or, before
/// any record, with an unknown `timepatch`.
pub fn analyze_lst_seq(
    data: &[u8],
    start_of_data: usize,
    range: u64,
    timepatch: &str,
    channel_map: Vec<u8>,
) -> (r: Result<InputChannels, DecodeError>)
    requires
        start_of_data <= data@.len(),
        channel_map@.len() == NUM_OF_INPUT_CHANNELS,
    ensures
        is_decode_of(r, data@.skip(start_of_data as int), range, timepatch@, channel_map@),
{
    let bits: TimepatchBits = match TimepatchBits::new(timepatch) {
        Ok(bits) => bits,
        Err(e) => {
            return Err(e);
        },
    };
    let ghost tp = timepatch_of(timepatch@)->0;
    proof {
        lemma_catalog_fills_record(tp);
    }
    let section: &[u8] = &data[start_of_data..data.len()];
    assert(section@ =~= data@.skip(start_of_data as int));
    let size: usize = bits.record_bytes();
    let count: usize = section.len() / size;
    assert(section@.len() / (size as nat) <= section@.len() / 2) by (nonlinear_arith)
        requires
            size >= 2,
    ;
    let mut chans = create_channel_vec(section.len(), size as u8, &channel_map);
    let ghost active = activity_of(channel_map@);
    let ghost outcomes = outcomes_of(section@, bits, range);
    let mut i: usize = 0;
    while i < count
        invariant
            i <= count,
            count == outcomes.len(),
            count == section@.len() / (size as nat),
            section@.len() <= usize::MAX,
            section@ == data@.skip(start_of_data as int),
            timepatch_of(timepatch@) == Some(tp),
            bits == bits_of(tp),
            active == activity_of(channel_map@),
            size == bits.spec_record_bytes(),
            size >= 2,
            bits.wf(),
            outcomes == outcomes_of(section@, bits, range),
            chans.wf(),
            chans.activity() == active,
            routed_all(no_events(), active, outcomes.take(i as int)) == Ok::<
                Seq<Seq<DataLine>>,
                DecodeError,
            >(chans@),
        decreases count - i,
    {
        proof {
            lemma_chunk_in_bounds(section@.len() as int, size as int, i as int);
            lemma_routed_all_next(no_events(), active, outcomes, i as int);
        }
        let chunk: &[u8] = &section[i * size..(i + 1) * size];
        let outcome = decode_record(chunk, &bits, range);
        assert(outcome == outcomes[i as int]);
        match route_outcome(&mut chans, outcome) {
            Ok(()) => {},
            Err(e) => {
                proof {
                    lemma_routed_all_fails(no_events(), active, outcomes, (i + 1) as int);
                }
                return Err(e);
            },
        }
        i += 1;
    }
    assert(outcomes.take(i as int) =~= outcomes);
    Ok(chans)
}

/// `par_chunks_exact`, `map` and `collect` of rayon, by which every whole
/// record of `section` is decoded by `decode_record`, possibly on several
/// threads at once. Believed of rayon: the chunks are the consecutive
/// pieces of `size` bytes, a shorter rest is left out, and `collect` gives
/// the results in the order of the chunks, whichever thread finished first.
#[verifier::external_body]
fn par_decode_records(section: &[u8], size: usize, bits: &TimepatchBits, range: u64) -> (outcomes:
    Vec<ChunkOutcome>)
    requires
        bits.wf(),
        size == bits.spec_record_bytes(),
    ensures
        outcomes@ == outcomes_of(section@, *bits, range),
{
    section.par_chunks_exact(size).map(|chunk| decode_record(chunk, bits, range)).collect()
}

/// The records of `data[start_of_data..]`, decoded side by side under the
/// layout that `timepatch` names, and their events then taken into the
/// channels in the order of the file. The result is that of
/// `analyze_lst_seq`, whatever the threads do.
pub fn analyze_lst_par(
    data: &[u8],
    start_of_data: usize,
    range: u64,
    timepatch: &str,
    channel_map: Vec<u8>,
) -> (r: Result<InputChannels, DecodeError>)
    requires
        start_of_data <= data@.len(),
        channel_map@.len() == NUM_OF_INPUT_CHANNELS,
    ensures
        is_decode_of(r, data@.skip(start_of_data as int), range, timepatch@, channel_map@),
{
    let bits: TimepatchBits = match TimepatchBits::new(timepatch) {
        Ok(bits) => bits,
        Err(e) => {
            return Err(e);
        },
    };
    proof {
        lemma_catalog_fills_record(timepatch_of(timepatch@)->0);
    }
    let section: &[u8] = &data[start_of_data..data.len()];
    assert(section@ =~= data@.skip(start_of_data as int));
    let size: usize = bits.record_bytes();
    assert(section@.len() / (size as nat) <= section@.len() / 2) by (nonlinear_arith)
        requires
            size >= 2,
    ;
    let chans = create_channel_vec(section.len(), size as u8, &channel_map);
    let outcomes = par_decode_records(section, size, &bits, range);
    route_all(&outcomes, chans)
}

/// Decodes the data section of a list file: the events of
/// `data[start_of_data..]` under the layout that `timepatch` names, with
/// sweeps of `range` ticks, for the channels that `channel_map` marks with
/// one. Each channel holds its events in the order of the file. Records of
/// zeros are passed over, and bytes after the last whole record are left
/// out. The decode fails as a whole: with an unknown `timepatch` before any
/// record is looked at, else with the failure of the first record that has
/// one.
pub fn analyze_lst(
    data: &[u8],
    start_of_data: usize,
    range: u64,
    timepatch: &str,
    channel_map: Vec<u8>,
) -> (r: Result<InputChannels, DecodeError>)
    requires
        start_of_data <= data@.len(),
        channel_map@.len() == NUM_OF_INPUT_CHANNELS,
    ensures
        is_decode_of(r, data@.skip(start_of_data as int), range, timepatch@, channel_map@),
{
    analyze_lst_par(data, start_of_data, range, timepatch, channel_map)
}

/// Record `i` of `count` whole records lies within the data.
proof fn lemma_chunk_in_bounds(len: int, size: int, i: int)
    requires
        size > 0,
        0 <= i < len / size,
    ensures
        0 <= i * size,
        i * size + size == (i + 1) * size,
        (i + 1) * size <= len,
{
    assert(0 <= i * size) by (nonlinear_arith)
        requires
            0 <= i,
            0 < size,
    ;
    assert((i + 1) * size == i * size + size) by (nonlinear_arith);
    assert((i + 1) * size <= len) by (nonlinear_arith)
        requires
            i + 1 <= len / size,
            size > 0,
    ;
}

/// Routing the first `i + 1` outcomes is routing the first `i` and then
/// taking one step with outcome `i`.
proof fn lemma_routed_all_next(
    start: Seq<Seq<DataLine>>,
    active: Seq<bool>,
    outcomes: Seq<ChunkOutcome>,
    i: int,
)
    requires
        0 <= i < outcomes.len(),
    ensures
        routed_all(start, active, outcomes.take(i + 1)) == (match routed_all(
            start,
            active,
            outcomes.take(i),
        ) {
            Ok(channels) => step(channels, active, outcomes[i]),
            Err(e) => Err(e),
        }),
{
    assert(outcomes.take(i + 1).drop_last() =~= outcomes.take(i));
    assert(outcomes.take(i + 1).last() == outcomes[i]);
}

/// Once the first `n` outcomes have failed, all of them fail in the same
/// way.
proof fn lemma_routed_all_fails(
    start: Seq<Seq<DataLine>>,
    active: Seq<bool>,
    outcomes: Seq<ChunkOutcome>,
    n: int,
)
    requires
        0 <= n <= outcomes.len(),
        routed_all(start, active, outcomes.take(n)) is Err,
    ensures
        routed_all(start, active, outcomes) == routed_all(start, active, outcomes.take(n)),
    decreases outcomes.len() - n,
{
    if n < outcomes.len() {
        lemma_routed_all_next(start, active, outcomes, n);
        lemma_routed_all_fails(start, active, outcomes, n + 1);
    } else {
        assert(outcomes.take(n) =~= outcomes);
    }
}

} // verus!
