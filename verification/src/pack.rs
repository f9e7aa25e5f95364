//! Putting the fields of a record into its word: the inverse of taking them
//! out.

use vstd::prelude::*;
use vstd::arithmetic::power2::{
    lemma2_to64, lemma2_to64_rest, lemma_pow2_adds, lemma_pow2_pos, lemma_pow2_strictly_increases,
    pow2,
};
use vstd::arithmetic::div_mod::{lemma_div_denominator, lemma_fundamental_div_mod_converse};
use vstd::arithmetic::mul::lemma_mul_is_commutative;
use vstd::bits::{lemma_u64_pow2_no_overflow, lemma_u64_shl_is_mul};
use crate::extract::{bits_at, fields_of};
use crate::masks::to_bits_u64;
use crate::record::Fields;
use crate::timepatch::TimepatchBits;

verus! {

/// One for a flag that is set, zero for one that is not.
pub open spec fn bit_of(flag: bool) -> nat {
    if flag {
        1
    } else {
        0
    }
}

/// Whether every field is small enough for the width that `bits` gives it.
pub open spec fn fits(fields: Fields, bits: TimepatchBits) -> bool {
    &&& fields.channel < 8
    &&& fields.time < pow2(bits.time_bits as nat)
    &&& fields.sweep < pow2(bits.sweep_bits as nat)
    &&& fields.tag < pow2(bits.tag_bits as nat)
    &&& bit_of(fields.lost) < pow2(bits.lost_bits as nat)
}

/// The word that holds `fields` under the layout `bits`: each field stands
/// at its offset from the low end.
pub open spec fn word_of(fields: Fields, bits: TimepatchBits) -> nat {
    fields.channel as nat + bit_of(fields.edge) * pow2(3) + fields.time as nat * pow2(
        bits.time_offset(),
    ) + fields.sweep as nat * pow2(bits.sweep_offset()) + fields.tag as nat * pow2(
        bits.tag_offset(),
    ) + bit_of(fields.lost) * pow2(bits.lost_offset())
}

/// The same word, built from the top: each field is put below what stands
/// above it.
spec fn stacked(fields: Fields, bits: TimepatchBits) -> nat {
    fields.channel as nat + 8 * above_channel(fields, bits)
}

spec fn above_channel(fields: Fields, bits: TimepatchBits) -> nat {
    bit_of(fields.edge) + 2 * above_edge(fields, bits)
}

spec fn above_edge(fields: Fields, bits: TimepatchBits) -> nat {
    fields.time as nat + pow2(bits.time_bits as nat) * above_time(fields, bits)
}

spec fn above_time(fields: Fields, bits: TimepatchBits) -> nat {
    fields.sweep as nat + pow2(bits.sweep_bits as nat) * above_sweep(fields, bits)
}

spec fn above_sweep(fields: Fields, bits: TimepatchBits) -> nat {
    fields.tag as nat + pow2(bits.tag_bits as nat) * bit_of(fields.lost)
}

/// A value below `2^a` with a field below `2^b` put under it is below
/// `2^(a + b)`.
proof fn lemma_stack_bound(low: nat, high: nat, a: nat, b: nat)
    requires
        high < pow2(a),
        low < pow2(b),
    ensures
        low + pow2(b) * high < pow2(a + b),
{
    lemma_pow2_adds(b, a);
    lemma_pow2_pos(b);
    assert(pow2(b) * high + pow2(b) <= pow2(b) * pow2(a)) by (nonlinear_arith)
        requires
            high + 1 <= pow2(a),
            pow2(b) > 0,
    ;
}

/// Building the word from the top gives the word in which each field stands
/// at its offset.
proof fn lemma_stacked_is_word(fields: Fields, bits: TimepatchBits)
    ensures
        stacked(fields, bits) == word_of(fields, bits),
{
    let t = pow2(bits.time_bits as nat) as int;
    let s = pow2(bits.sweep_bits as nat) as int;
    let g = pow2(bits.tag_bits as nat) as int;
    let time = fields.time as int;
    let sweep = fields.sweep as int;
    let tag = fields.tag as int;
    let lost = bit_of(fields.lost) as int;
    lemma2_to64();
    lemma_pow2_adds(4, bits.time_bits as nat);
    lemma_pow2_adds(bits.sweep_offset(), bits.sweep_bits as nat);
    lemma_pow2_adds(bits.tag_offset(), bits.tag_bits as nat);
    let so = pow2(bits.sweep_offset()) as int;
    let go = pow2(bits.tag_offset()) as int;
    let lo = pow2(bits.lost_offset()) as int;
    assert(so == 16 * t);
    assert(go == so * s);
    assert(lo == go * g);
    let over_sweep = tag + g * lost;
    let over_time = sweep + s * over_sweep;
    assert(go * over_sweep == tag * go + lost * lo) by (nonlinear_arith)
        requires
            over_sweep == tag + g * lost,
            lo == go * g,
    ;
    assert(so * over_time == sweep * so + go * over_sweep) by (nonlinear_arith)
        requires
            over_time == sweep + s * over_sweep,
            go == so * s,
    ;
    assert(16 * (time + t * over_time) == time * 16 + so * over_time) by (nonlinear_arith)
        requires
            so == 16 * t,
    ;
}

/// The word of fields that fit is below `2^n`, where `n` is the number of
/// bits of a record.
pub proof fn lemma_word_fits_record(fields: Fields, bits: TimepatchBits)
    requires
        fits(fields, bits),
    ensures
        word_of(fields, bits) < pow2(bits.record_bits()),
{
    lemma_stacked_is_word(fields, bits);
    lemma2_to64();
    let lb = bits.lost_bits as nat;
    let gb = bits.tag_bits as nat;
    let sb = bits.sweep_bits as nat;
    let tb = bits.time_bits as nat;
    lemma_stack_bound(fields.tag as nat, bit_of(fields.lost), lb, gb);
    lemma_stack_bound(fields.sweep as nat, above_sweep(fields, bits), lb + gb, sb);
    lemma_stack_bound(fields.time as nat, above_time(fields, bits), lb + gb + sb, tb);
    lemma_stack_bound(bit_of(fields.edge), above_edge(fields, bits), lb + gb + sb + tb, 1);
    lemma_stack_bound(fields.channel as nat, above_channel(fields, bits), lb + gb + sb + tb + 1, 3);
    assert(lb + gb + sb + tb + 1 + 3 == bits.record_bits());
}

/// Where what stands above `offset` in `word` is `low + 2^width * high`
/// with `low` below `2^width`, the field of `width` bits at `offset` is
/// `low` and what stands above it is `high`.
proof fn lemma_peel(word: nat, offset: nat, width: nat, low: nat, high: nat)
    requires
        word / pow2(offset) == low + pow2(width) * high,
        low < pow2(width),
    ensures
        bits_at(word, offset, width) == low,
        word / pow2(offset + width) == high,
{
    let rest = (word / pow2(offset)) as int;
    lemma_pow2_pos(offset);
    lemma_pow2_pos(width);
    lemma_mul_is_commutative(pow2(width) as int, high as int);
    lemma_fundamental_div_mod_converse(rest, pow2(width) as int, high as int, low as int);
    lemma_div_denominator(word as int, pow2(offset) as int, pow2(width) as int);
    lemma_pow2_adds(offset, width);
}

/// Putting fields into a word and taking them out again gives the fields
/// back, under every layout that a record can hold, the fourteen of the
/// catalog among them, and for all fields that fit their widths.
pub proof fn lemma_round_trip(fields: Fields, bits: TimepatchBits)
    requires
        bits.wf(),
        fits(fields, bits),
    ensures
        word_of(fields, bits) <= u64::MAX,
        fields_of(word_of(fields, bits) as u64, bits) == fields,
{
    let word = word_of(fields, bits);
    lemma_word_fits_record(fields, bits);
    lemma2_to64();
    lemma2_to64_rest();
    if bits.record_bits() < 64 {
        lemma_pow2_strictly_increases(bits.record_bits(), 64);
    }
    lemma_stacked_is_word(fields, bits);
    assert(word / pow2(0) == word);
    lemma_peel(word, 0, 3, fields.channel as nat, above_channel(fields, bits));
    lemma_peel(word, 3, 1, bit_of(fields.edge), above_edge(fields, bits));
    lemma_peel(word, 4, bits.time_bits as nat, fields.time as nat, above_time(fields, bits));
    lemma_peel(
        word,
        bits.sweep_offset(),
        bits.sweep_bits as nat,
        fields.sweep as nat,
        above_sweep(fields, bits),
    );
    lemma_peel(
        word,
        bits.tag_offset(),
        bits.tag_bits as nat,
        fields.tag as nat,
        bit_of(fields.lost),
    );
    assert(bits_at(word, bits.lost_offset(), bits.lost_bits as nat) == bit_of(fields.lost)) by {
        lemma_peel(word, bits.lost_offset(), bits.lost_bits as nat, bit_of(fields.lost), 0);
    }
}

/// Whether every field fits the width that the layout gives it.
pub fn fields_fit(fields: &Fields, bits: &TimepatchBits) -> (fit: bool)
    requires
        bits.wf(),
    ensures
        fit == fits(*fields, *bits),
{
    let bitmap: [u64; 4] = to_bits_u64(&bits.to_array());
    proof {
        lemma2_to64();
        lemma_pow2_pos(bits.lost_bits as nat);
        lemma_pow2_pos(bits.tag_bits as nat);
        lemma_pow2_pos(bits.sweep_bits as nat);
        lemma_pow2_pos(bits.time_bits as nat);
    }
    let lost: u64 = if fields.lost {
        1
    } else {
        0
    };
    fields.channel <= 7 && fields.time <= bitmap[3] && fields.sweep as u64 <= bitmap[2]
        && fields.tag as u64 <= bitmap[1] && lost <= bitmap[0]
}

/// Puts a field of `width` bits under what stands above it.
fn stack_field(high: u64, low: u64, width: u8) -> (word: u64)
    requires
        width < 64,
        low + pow2(width as nat) * high <= u64::MAX,
    ensures
        word == low + pow2(width as nat) * high,
{
    proof {
        lemma_u64_pow2_no_overflow(width as nat);
        lemma_u64_shl_is_mul(1u64, width as u64);
        lemma_mul_is_commutative(pow2(width as nat) as int, high as int);
    }
    let weight: u64 = 1u64 << (width as u64);
    high * weight + low
}

/// While a word is built from the top, it stays within 64 bits.
proof fn lemma_stack_stays_in_word(fields: Fields, bits: TimepatchBits)
    requires
        bits.wf(),
        fits(fields, bits),
    ensures
        above_sweep(fields, bits) <= u64::MAX,
        above_time(fields, bits) <= u64::MAX,
        above_edge(fields, bits) <= u64::MAX,
        above_channel(fields, bits) <= u64::MAX,
        stacked(fields, bits) <= u64::MAX,
{
    let lb = bits.lost_bits as nat;
    let gb = bits.tag_bits as nat;
    let sb = bits.sweep_bits as nat;
    let tb = bits.time_bits as nat;
    lemma2_to64();
    lemma_stack_bound(fields.tag as nat, bit_of(fields.lost), lb, gb);
    lemma_stack_bound(fields.sweep as nat, above_sweep(fields, bits), lb + gb, sb);
    lemma_stack_bound(fields.time as nat, above_time(fields, bits), lb + gb + sb, tb);
    lemma_stack_bound(bit_of(fields.edge), above_edge(fields, bits), lb + gb + sb + tb, 1);
    lemma_stack_bound(fields.channel as nat, above_channel(fields, bits), lb + gb + sb + tb + 1, 3);
    lemma_below_word_limit(lb + gb);
    lemma_below_word_limit(lb + gb + sb);
    lemma_below_word_limit(lb + gb + sb + tb);
    lemma_below_word_limit(lb + gb + sb + tb + 1);
    lemma_below_word_limit(lb + gb + sb + tb + 1 + 3);
}

/// The word that holds `fields` under the layout `bits`, where every field
/// fits the width that the layout gives it, and nothing where one does not.
pub fn pack_fields(fields: &Fields, bits: &TimepatchBits) -> (word: Option<u64>)
    requires
        bits.wf(),
    ensures
        match word {
            Some(w) => fits(*fields, *bits) && w == word_of(*fields, *bits),
            None => !fits(*fields, *bits),
        },
{
    if !fields_fit(fields, bits) {
        return None;
    }
    proof {
        lemma2_to64();
        lemma_stacked_is_word(*fields, *bits);
        lemma_stack_stays_in_word(*fields, *bits);
    }
    let lost: u64 = if fields.lost {
        1
    } else {
        0
    };
    let edge: u64 = if fields.edge {
        1
    } else {
        0
    };
    let over_sweep: u64 = stack_field(lost, fields.tag as u64, bits.tag_bits);
    let over_time: u64 = stack_field(over_sweep, fields.sweep as u64, bits.sweep_bits);
    let over_edge: u64 = stack_field(over_time, fields.time, bits.time_bits);
    let over_channel: u64 = stack_field(over_edge, edge, 1);
    Some(stack_field(over_channel, fields.channel as u64, 3))
}

/// A power of two with an exponent of 64 at most is no more than `2^64`.
proof fn lemma_below_word_limit(n: nat)
    requires
        n <= 64,
    ensures
        pow2(n) <= 0x1_0000_0000_0000_0000,
{
    lemma2_to64_rest();
    if n < 64 {
        lemma_pow2_strictly_increases(n, 64);
    }
}

} // verus!
