//! Masks that keep the low bits of a word, one per field of a layout.

use vstd::prelude::*;
use vstd::arithmetic::power2::{lemma2_to64, lemma2_to64_rest};
use vstd::bits::{
    low_bits_mask, lemma_u16_pow2_no_overflow, lemma_u16_shl_is_mul, lemma_u32_pow2_no_overflow,
    lemma_u32_shl_is_mul, lemma_u64_pow2_no_overflow, lemma_u64_shl_is_mul,
};

verus! {

/// The mask of a field of `n` bits in a word of `width` bits: the low `n`
/// bits set, that is `2^n - 1`. A field wider than the word has no mask,
/// which is written as zero.
pub open spec fn field_mask(n: nat, width: nat) -> nat {
    if n <= width {
        low_bits_mask(n)
    } else {
        0
    }
}

fn mask_u16(n: u8) -> (m: u16)
    ensures
        m == field_mask(n as nat, 16),
{
    if n == 0 || n > 16 {
        proof {
            lemma2_to64();
        }
        0
    } else if n == 16 {
        proof {
            lemma2_to64();
        }
        u16::MAX
    } else {
        proof {
            lemma_u16_pow2_no_overflow(n as nat);
            lemma_u16_shl_is_mul(1u16, n as u16);
        }
        (1u16 << (n as u16)) - 1
    }
}

fn mask_u32(n: u8) -> (m: u32)
    ensures
        m == field_mask(n as nat, 32),
{
    if n == 0 || n > 32 {
        proof {
            lemma2_to64();
        }
        0
    } else if n == 32 {
        proof {
            lemma2_to64();
        }
        u32::MAX
    } else {
        proof {
            lemma_u32_pow2_no_overflow(n as nat);
            lemma_u32_shl_is_mul(1u32, n as u32);
        }
        (1u32 << (n as u32)) - 1
    }
}

fn mask_u64(n: u8) -> (m: u64)
    ensures
        m == field_mask(n as nat, 64),
{
    if n == 0 || n > 64 {
        proof {
            lemma2_to64();
        }
        0
    } else if n == 64 {
        proof {
            lemma2_to64_rest();
        }
        u64::MAX
    } else {
        proof {
            lemma_u64_pow2_no_overflow(n as nat);
            lemma_u64_shl_is_mul(1u64, n as u64);
        }
        (1u64 << (n as u64)) - 1
    }
}

/// The masks of the four fields of a layout in a 16-bit word, in the order
/// of `bitarray`: lost, tag, sweep, time. A layout without a time field, or
/// with one wider than the word, has no masks.
pub fn to_bits_u16(bitarray: &[u8; 4]) -> (bitmap: [u16; 4])
    requires
        1 <= bitarray[3] <= 16,
    ensures
        forall|i: int| 0 <= i < 4 ==> #[trigger] bitmap[i] == field_mask(bitarray[i] as nat, 16),
{
    let time_bits: u16 = mask_u16(bitarray[3]);
    let sweep_bits: u16 = mask_u16(bitarray[2]);
    let tag_bits: u16 = mask_u16(bitarray[1]);
    let lost_bit: u16 = mask_u16(bitarray[0]);
    [lost_bit, tag_bits, sweep_bits, time_bits]
}

/// The masks of the four fields of a layout in a 32-bit word, in the order
/// of `bitarray`: lost, tag, sweep, time. A layout without a time field, or
/// with one wider than the word, has no masks.
pub fn to_bits_u32(bitarray: &[u8; 4]) -> (bitmap: [u32; 4])
    requires
        1 <= bitarray[3] <= 32,
    ensures
        forall|i: int| 0 <= i < 4 ==> #[trigger] bitmap[i] == field_mask(bitarray[i] as nat, 32),
{
    let time_bits: u32 = mask_u32(bitarray[3]);
    let sweep_bits: u32 = mask_u32(bitarray[2]);
    let tag_bits: u32 = mask_u32(bitarray[1]);
    let lost_bit: u32 = mask_u32(bitarray[0]);
    [lost_bit, tag_bits, sweep_bits, time_bits]
}

/// The masks of the four fields of a layout in a 64-bit word, in the order
/// of `bitarray`: lost, tag, sweep, time. A layout without a time field, or
/// with one wider than the word, has no masks.
pub fn to_bits_u64(bitarray: &[u8; 4]) -> (bitmap: [u64; 4])
    requires
        1 <= bitarray[3] <= 64,
    ensures
        forall|i: int| 0 <= i < 4 ==> #[trigger] bitmap[i] == field_mask(bitarray[i] as nat, 64),
{
    let time_bits: u64 = mask_u64(bitarray[3]);
    let sweep_bits: u64 = mask_u64(bitarray[2]);
    let tag_bits: u64 = mask_u64(bitarray[1]);
    let lost_bit: u64 = mask_u64(bitarray[0]);
    [lost_bit, tag_bits, sweep_bits, time_bits]
}

/// How many records a data section of `data_size` bytes can hold at most,
/// plus one: the room to set aside for a channel before decoding.
pub fn calc_num_of_lines(data_size: usize, bytes: u8) -> (lines: usize)
    requires
        bytes > 0,
        data_size / (bytes as usize) + 1 <= usize::MAX,
    ensures
        lines == data_size / (bytes as usize) + 1,
{
    data_size / (bytes as usize) + 1
}

} // verus!
