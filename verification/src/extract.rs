//! Taking the fields of a record out of its word, by shifting and masking.
//!
//! A word is packed from its low end: three bits of channel, one of edge,
//! then the time, the sweep, the tag and, at the top, the lost flag, each as
//! wide as the layout says.

use vstd::prelude::*;
use vstd::arithmetic::power2::{
    lemma2_to64, lemma_pow2_adds, lemma_pow2_pos, lemma_pow2_strictly_increases, pow2,
};
use vstd::arithmetic::div_mod::{lemma_div_denominator, lemma_mod_bound};
use vstd::bits::{
    lemma_u64_low_bits_mask_is_mod, lemma_u64_pow2_no_overflow, lemma_u64_shr_is_div,
    low_bits_mask,
};
use crate::masks::to_bits_u64;
use crate::record::Fields;
use crate::timepatch::TimepatchBits;

verus! {

/// The `width` bits of `word` that start `offset` bits above its low end.
pub open spec fn bits_at(word: nat, offset: nat, width: nat) -> nat {
    (word / pow2(offset)) % pow2(width)
}

impl TimepatchBits {
    /// Where the time field starts, counted from the low end of the word.
    pub open spec fn time_offset(self) -> nat {
        4
    }

    /// Where the sweep field starts.
    pub open spec fn sweep_offset(self) -> nat {
        self.time_offset() + self.time_bits as nat
    }

    /// Where the tag field starts.
    pub open spec fn tag_offset(self) -> nat {
        self.sweep_offset() + self.sweep_bits as nat
    }

    /// Where the lost flag stands.
    pub open spec fn lost_offset(self) -> nat {
        self.tag_offset() + self.tag_bits as nat
    }
}

/// The fields that a record of layout `bits` holds in `word`. A field of
/// width zero reads as zero, or `false`.
pub open spec fn fields_of(word: u64, bits: TimepatchBits) -> Fields {
    Fields {
        channel: bits_at(word as nat, 0, 3) as u8,
        edge: bits_at(word as nat, 3, 1) == 1,
        time: bits_at(word as nat, bits.time_offset(), bits.time_bits as nat) as u64,
        sweep: bits_at(word as nat, bits.sweep_offset(), bits.sweep_bits as nat) as u16,
        tag: bits_at(word as nat, bits.tag_offset(), bits.tag_bits as nat) as u16,
        lost: bits_at(word as nat, bits.lost_offset(), bits.lost_bits as nat) == 1,
    }
}

/// One step of the extraction: with the `offset` low bits of `word` already
/// shifted away, masking gives the next field and shifting by its width
/// gives what is left above it.
proof fn lemma_take_field(word: u64, line: u64, offset: nat, width: nat)
    requires
        line == word as nat / pow2(offset),
        width < 64,
    ensures
        line & (low_bits_mask(width) as u64) == bits_at(word as nat, offset, width),
        bits_at(word as nat, offset, width) < pow2(width),
        line >> (width as u64) == word as nat / pow2(offset + width),
{
    lemma_pow2_pos(offset);
    lemma_pow2_pos(width);
    lemma_u64_pow2_no_overflow(width);
    lemma_u64_low_bits_mask_is_mod(line, width);
    lemma_mod_bound(line as int, pow2(width) as int);
    lemma_u64_shr_is_div(line, width as u64);
    lemma_div_denominator(word as int, pow2(offset) as int, pow2(width) as int);
    lemma_pow2_adds(offset, width);
}

/// The fields of the record that `word` holds under the layout `bits`.
pub fn parse_word(word: u64, bits: &TimepatchBits) -> (fields: Fields)
    requires
        bits.wf(),
    ensures
        fields == fields_of(word, *bits),
{
    let bitmap: [u64; 4] = to_bits_u64(&bits.to_array());
    let mut line: u64 = word;
    proof {
        lemma2_to64();
        lemma_take_field(word, line, 0, 3);
        lemma_take_field(word, line >> 3, 3, 1);
        lemma_take_field(word, (line >> 3) >> 1, 4, bits.time_bits as nat);
        lemma_take_field(
            word,
            ((line >> 3) >> 1) >> (bits.time_bits as u64),
            bits.sweep_offset(),
            bits.sweep_bits as nat,
        );
        lemma_take_field(
            word,
            (((line >> 3) >> 1) >> (bits.time_bits as u64)) >> (bits.sweep_bits as u64),
            bits.tag_offset(),
            bits.tag_bits as nat,
        );
        lemma_take_field(
            word,
            ((((line >> 3) >> 1) >> (bits.time_bits as u64)) >> (bits.sweep_bits as u64)) >> (
            bits.tag_bits as u64),
            bits.lost_offset(),
            bits.lost_bits as nat,
        );
        lemma_pow2_strictly_increases(bits.sweep_bits as nat, 17);
        lemma_pow2_strictly_increases(bits.tag_bits as nat, 17);
    }
    let channel: u8 = (line & 0b111) as u8;
    line = line >> 3;
    let edge: bool = (line & 0b1) == 1;
    line = line >> 1;
    let time: u64 = line & bitmap[3];
    line = line >> (bits.time_bits as u64);
    let sweep: u16 = (line & bitmap[2]) as u16;
    line = line >> (bits.sweep_bits as u64);
    let tag: u16 = (line & bitmap[1]) as u16;
    line = line >> (bits.tag_bits as u64);
    let lost: bool = (line & bitmap[0]) == 1;
    Fields { channel, edge, lost, tag, sweep, time }
}

} // verus!
