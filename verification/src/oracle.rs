//! The fields of a record read a second way: with a bit cursor over the
//! bytes of the record in reversed order, from the lost flag at the top
//! down to the channel. It gives what shifting and masking the word gives,
//! and serves to check it.

use vstd::prelude::*;
use vstd::arithmetic::power2::{
    lemma2_to64, lemma2_to64_rest, lemma_pow2_adds, lemma_pow2_pos, lemma_pow2_strictly_increases,
    pow2,
};
use vstd::arithmetic::div_mod::{
    lemma_div_denominator, lemma_hoist_over_denominator, lemma_mod_bound, lemma_mod_breakdown,
    lemma_mod_multiples_vanish,
};
use bitreader::BitReader;
use crate::extract::{bits_at, fields_of};
use crate::reader::{
    bit_at, bits_in, msb_value, reader_bits, reader_new, reader_read_bool, reader_read_u16,
    reader_read_u64, reader_read_u8,
};
use crate::record::Fields;
use crate::timepatch::TimepatchBits;
use crate::word::{le_value, lemma_le_value_bound, lemma_le_value_byte};

verus! {

/// The fields that the bits `all` hold under the layout `bits`, from the
/// first bit on: lost, tag, sweep, time, edge, channel.
pub open spec fn fields_in(all: Seq<bool>, bits: TimepatchBits) -> Fields {
    let tag_at = bits.lost_bits as int;
    let sweep_at = tag_at + bits.tag_bits;
    let time_at = sweep_at + bits.sweep_bits;
    let edge_at = time_at + bits.time_bits;
    Fields {
        lost: msb_value(all.subrange(0, tag_at)) == 1,
        tag: msb_value(all.subrange(tag_at, sweep_at)) as u16,
        sweep: msb_value(all.subrange(sweep_at, time_at)) as u16,
        time: msb_value(all.subrange(time_at, edge_at)) as u64,
        edge: all[edge_at],
        channel: msb_value(all.subrange(edge_at + 1, edge_at + 4)) as u8,
    }
}

/// The fields of the record `chunk` under the layout `bits`, read from the
/// reversed bytes, highest bit first.
pub open spec fn fields_read(chunk: Seq<u8>, bits: TimepatchBits) -> Fields {
    fields_in(bits_in(chunk.reverse()), bits)
}

/// Bit `r` of a number is bit `r` of its lowest byte, for `r` below eight.
proof fn lemma_bit_of_low_byte(y: nat, r: nat)
    requires
        r < 8,
    ensures
        (y / pow2(r)) % 2 == ((y % 256) / pow2(r)) % 2,
{
    let weight = pow2(r) as int;
    let half = pow2((7 - r) as nat) as int;
    let low = (y % 256) as int;
    let high = (y / 256) as int;
    lemma2_to64();
    lemma_pow2_pos(r);
    lemma_pow2_adds(r, (7 - r) as nat);
    assert(weight * half == 128);
    assert(256 * high == (2 * (half * high)) * weight) by (nonlinear_arith)
        requires
            weight * half == 128,
    ;
    lemma_hoist_over_denominator(low, 2 * (half * high), weight as nat);
    assert(y / pow2(r) == low / weight + 2 * (half * high));
    lemma_mod_multiples_vanish(half * high, low / weight, 2);
}

/// A bit of the reversed bytes, counted from the highest, is the bit of the
/// little-endian number that stands as far from its top.
proof fn lemma_reversed_bit(bytes: Seq<u8>, i: int)
    requires
        0 <= i < 8 * bytes.len(),
    ensures
        bit_at(bytes.reverse(), i) == (bits_at(
            le_value(bytes),
            (8 * bytes.len() - 1 - i) as nat,
            1,
        ) == 1),
{
    let len = bytes.len() as int;
    let k = len - 1 - i / 8;
    let r = (7 - i % 8) as nat;
    let value = le_value(bytes);
    let above = value / pow2((8 * k) as nat);
    assert(bytes.reverse()[i / 8] == bytes[k]);
    assert(8 * len - 1 - i == 8 * k + r);
    lemma_le_value_byte(bytes, k);
    lemma_pow2_pos((8 * k) as nat);
    lemma_pow2_pos(r);
    lemma_div_denominator(value as int, pow2((8 * k) as nat) as int, pow2(r) as int);
    lemma_pow2_adds((8 * k) as nat, r);
    lemma_bit_of_low_byte(above, r);
    lemma2_to64();
}

/// A run of bits of the reversed bytes, read highest bit first, is the run
/// of bits of the little-endian number that ends as far from its top.
pub proof fn lemma_reversed_bits(bytes: Seq<u8>, pos: int, n: nat)
    requires
        0 <= pos,
        pos + n <= 8 * bytes.len(),
    ensures
        msb_value(bits_in(bytes.reverse()).subrange(pos, pos + n)) == bits_at(
            le_value(bytes),
            (8 * bytes.len() - pos - n) as nat,
            n,
        ),
    decreases n,
{
    let all = bits_in(bytes.reverse());
    let value = le_value(bytes);
    let offset = (8 * bytes.len() - pos - n) as nat;
    if n == 0 {
        lemma2_to64();
    } else {
        let shorter = (n - 1) as nat;
        let above = value / pow2(offset);
        lemma_reversed_bits(bytes, pos, shorter);
        lemma_reversed_bit(bytes, pos + n - 1);
        assert(all.subrange(pos, pos + n).drop_last() =~= all.subrange(pos, pos + shorter));
        assert(all.subrange(pos, pos + n).last() == bit_at(bytes.reverse(), pos + n - 1));
        lemma_mod_bound(above as int, 2);
        lemma2_to64();
        lemma_pow2_pos(offset);
        lemma_pow2_pos(shorter);
        lemma_pow2_adds(1, shorter);
        lemma_pow2_adds(offset, 1);
        lemma_mod_breakdown(above as int, 2, pow2(shorter) as int);
        lemma_div_denominator(value as int, pow2(offset) as int, 2);
        assert(above / 2 == value / pow2(offset + 1));
        assert(above % pow2(n) == 2 * ((above / 2) % pow2(shorter)) + above % 2);
    }
}

/// Reading the fields from the reversed bytes with a bit cursor and taking
/// them out of the little-endian word by shifting and masking give the same
/// fields, for every record and under every layout that a record can hold.
pub proof fn lemma_readers_agree(chunk: Seq<u8>, bits: TimepatchBits)
    requires
        bits.wf(),
        chunk.len() == bits.spec_record_bytes(),
    ensures
        le_value(chunk) <= u64::MAX,
        fields_read(chunk, bits) == fields_of(le_value(chunk) as u64, bits),
{
    let tag_at = bits.lost_bits as int;
    let sweep_at = tag_at + bits.tag_bits;
    let time_at = sweep_at + bits.sweep_bits;
    let edge_at = time_at + bits.time_bits;
    lemma_le_value_bound(chunk);
    lemma2_to64();
    lemma2_to64_rest();
    if 8 * chunk.len() < 64 {
        lemma_pow2_strictly_increases(8 * chunk.len(), 64);
    }
    lemma_reversed_bits(chunk, 0, bits.lost_bits as nat);
    lemma_reversed_bits(chunk, tag_at, bits.tag_bits as nat);
    lemma_reversed_bits(chunk, sweep_at, bits.sweep_bits as nat);
    lemma_reversed_bits(chunk, time_at, bits.time_bits as nat);
    lemma_reversed_bit(chunk, edge_at);
    lemma_reversed_bits(chunk, edge_at + 1, 3);
}

/// What is left of `bits` after `from` of them gives, with its first
/// `to - from`, the bits from `from` to `to`, and without them what is left
/// after `to`.
proof fn lemma_skip_then_take(bits: Seq<bool>, from: int, to: int)
    requires
        0 <= from <= to <= bits.len(),
    ensures
        bits.skip(from).len() == bits.len() - from,
        bits.skip(from).take(to - from) == bits.subrange(from, to),
        bits.skip(from).skip(to - from) == bits.skip(to),
        from < bits.len() ==> bits.skip(from)[0] == bits[from],
{
    assert(bits.skip(from).take(to - from) =~= bits.subrange(from, to));
    assert(bits.skip(from).skip(to - from) =~= bits.skip(to));
}

/// The next `n` bits of a reader that has given the first `pos` bits of
/// `all`, as a number of eight bits at most.
fn next_u8(reader: &mut BitReader, n: u8, Ghost(all): Ghost<Seq<bool>>, Ghost(pos): Ghost<int>) -> (v:
    u8)
    requires
        reader_bits(*old(reader)) == all.skip(pos),
        0 <= pos,
        pos + n <= all.len(),
        n <= 8,
    ensures
        reader_bits(*final(reader)) == all.skip(pos + n),
        v == msb_value(all.subrange(pos, pos + n)),
{
    proof {
        lemma_skip_then_take(all, pos, pos + n);
    }
    reader_read_u8(reader, n).unwrap()
}

/// The next `n` bits of a reader that has given the first `pos` bits of
/// `all`, as a number of sixteen bits at most.
fn next_u16(reader: &mut BitReader, n: u8, Ghost(all): Ghost<Seq<bool>>, Ghost(pos): Ghost<int>) -> (v:
    u16)
    requires
        reader_bits(*old(reader)) == all.skip(pos),
        0 <= pos,
        pos + n <= all.len(),
        n <= 16,
    ensures
        reader_bits(*final(reader)) == all.skip(pos + n),
        v == msb_value(all.subrange(pos, pos + n)),
{
    proof {
        lemma_skip_then_take(all, pos, pos + n);
    }
    reader_read_u16(reader, n).unwrap()
}

/// The next `n` bits of a reader that has given the first `pos` bits of
/// `all`, as a number of 64 bits at most.
fn next_u64(reader: &mut BitReader, n: u8, Ghost(all): Ghost<Seq<bool>>, Ghost(pos): Ghost<int>) -> (v:
    u64)
    requires
        reader_bits(*old(reader)) == all.skip(pos),
        0 <= pos,
        pos + n <= all.len(),
        n <= 64,
    ensures
        reader_bits(*final(reader)) == all.skip(pos + n),
        v == msb_value(all.subrange(pos, pos + n)),
{
    proof {
        lemma_skip_then_take(all, pos, pos + n);
    }
    reader_read_u64(reader, n).unwrap()
}

/// The next bit of a reader that has given the first `pos` bits of `all`.
fn next_bool(reader: &mut BitReader, Ghost(all): Ghost<Seq<bool>>, Ghost(pos): Ghost<int>) -> (v:
    bool)
    requires
        reader_bits(*old(reader)) == all.skip(pos),
        0 <= pos < all.len(),
    ensures
        reader_bits(*final(reader)) == all.skip(pos + 1),
        v == all[pos],
{
    proof {
        lemma_skip_then_take(all, pos, pos + 1);
    }
    reader_read_bool(reader).unwrap()
}

/// The bytes of `chunk` in reversed order.
fn reversed(chunk: &[u8]) -> (bytes: Vec<u8>)
    requires
        chunk@.len() < usize::MAX,
    ensures
        bytes@ == chunk@.reverse(),
{
    let size: usize = chunk.len();
    let mut reversed_vec: Vec<u8> = Vec::with_capacity(size + 1);
    let mut i: usize = 0;
    while i < size
        invariant
            i <= size,
            size == chunk@.len(),
            reversed_vec@.len() == i,
            forall|k: int| 0 <= k < i ==> reversed_vec@[k] == chunk@[size - 1 - k],
        decreases size - i,
    {
        reversed_vec.push(chunk[size - 1 - i]);
        i += 1;
    }
    assert(reversed_vec@ =~= chunk@.reverse());
    reversed_vec
}

/// Reads the fields of a record from a reader that has all its bits to
/// give.
fn read_all(reader: &mut BitReader, bits: &TimepatchBits, Ghost(all): Ghost<Seq<bool>>) -> (fields:
    Fields)
    requires
        bits.lost_bits <= 8,
        bits.tag_bits <= 16,
        bits.sweep_bits <= 16,
        bits.time_bits <= 64,
        all.len() == bits.record_bits(),
        reader_bits(*old(reader)) == all,
    ensures
        fields == fields_in(all, *bits),
{
    let ghost tag_at = bits.lost_bits as int;
    let ghost sweep_at = tag_at + bits.tag_bits;
    let ghost time_at = sweep_at + bits.sweep_bits;
    let ghost edge_at = time_at + bits.time_bits;
    assert(all =~= all.skip(0));
    let lost: bool = next_u8(reader, bits.lost_bits, Ghost(all), Ghost(0)) == 1;
    let tag: u16 = next_u16(reader, bits.tag_bits, Ghost(all), Ghost(tag_at));
    let sweep: u16 = next_u16(reader, bits.sweep_bits, Ghost(all), Ghost(sweep_at));
    let time: u64 = next_u64(reader, bits.time_bits, Ghost(all), Ghost(time_at));
    let edge: bool = next_bool(reader, Ghost(all), Ghost(edge_at));
    let channel: u8 = next_u8(reader, 3, Ghost(all), Ghost(edge_at + 1));
    Fields { channel, edge, lost, tag, sweep, time }
}

/// The fields of the record in `chunk`, read with a bit cursor from its
/// reversed bytes.
pub fn read_fields(chunk: &[u8], bits: &TimepatchBits) -> (fields: Fields)
    requires
        bits.wf(),
        chunk@.len() == bits.spec_record_bytes(),
    ensures
        fields == fields_read(chunk@, *bits),
{
    let reversed_vec: Vec<u8> = reversed(chunk);
    assert(8 * reversed_vec@.len() == bits.record_bits());
    let mut reader = reader_new(reversed_vec.as_slice());
    read_all(&mut reader, bits, Ghost(bits_in(reversed_vec@)))
}

} // verus!
