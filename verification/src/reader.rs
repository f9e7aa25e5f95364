//! A cursor that reads a run of bytes bit by bit, highest bit first.

use vstd::prelude::*;
use vstd::arithmetic::power2::pow2;
use bitreader::BitReader;

verus! {

/// `BitReader` of bitreader: a cursor over the bits of a run of bytes.
#[verifier::external_type_specification]
#[verifier::external_body]
pub struct ExBitReader<'a>(BitReader<'a>);

/// The bits that a reader has still to give, the next one first.
pub uninterp spec fn reader_bits(reader: BitReader) -> Seq<bool>;

/// Whether bit `i` of `bytes` is set, where the bits of each byte are
/// counted from its highest.
pub open spec fn bit_at(bytes: Seq<u8>, i: int) -> bool {
    (bytes[i / 8] as nat / pow2((7 - i % 8) as nat)) % 2 == 1
}

/// The bits of `bytes`, byte after byte, the highest bit of each first.
pub open spec fn bits_in(bytes: Seq<u8>) -> Seq<bool> {
    Seq::new(8 * bytes.len(), |i: int| bit_at(bytes, i))
}

/// The number that `bits` spell, the first of them counting most.
pub open spec fn msb_value(bits: Seq<bool>) -> nat
    decreases bits.len(),
{
    if bits.len() == 0 {
        0
    } else {
        2 * msb_value(bits.drop_last()) + if bits.last() {
            1nat
        } else {
            0nat
        }
    }
}

/// Whether `reader` gives `n` more bits to a type of `width` bits: none are
/// always given, more than the type holds or than are left never.
pub open spec fn gives(reader: BitReader, n: u8, width: u8) -> bool {
    n == 0 || (n <= width && n <= reader_bits(reader).len())
}

/// What `reader` is after an attempt to read `n` bits into a type of
/// `width` bits: without the bits that were given, or as it was where none
/// were.
pub open spec fn after_read(before: BitReader, after: BitReader, n: u8, width: u8) -> bool {
    reader_bits(after) == if gives(before, n, width) {
        reader_bits(before).skip(n as int)
    } else {
        reader_bits(before)
    }
}

/// `BitReader::new` of bitreader: a reader that has all the bits of
/// `bytes` to give. The crate counts bits in 64 bits, so `bytes` must be
/// shorter than `2^61`.
#[verifier::external_body]
pub(crate) fn reader_new<'a>(bytes: &'a [u8]) -> (reader: BitReader<'a>)
    requires
        bytes@.len() < 0x2000_0000_0000_0000,
    ensures
        reader_bits(reader) == bits_in(bytes@),
{
    BitReader::new(bytes)
}

/// `BitReader::read_u8` of bitreader: the next `bit_count` bits as a
/// number, highest bit first, or nothing, with the reader left as it was,
/// where there are more than eight or than are left.
#[verifier::external_body]
pub(crate) fn reader_read_u8(reader: &mut BitReader, bit_count: u8) -> (value: Option<u8>)
    ensures
        after_read(*old(reader), *final(reader), bit_count, 8),
        value is Some == gives(*old(reader), bit_count, 8),
        value matches Some(v) ==> v == msb_value(reader_bits(*old(reader)).take(bit_count as int)),
{
    reader.read_u8(bit_count).ok()
}

/// `BitReader::read_u16` of bitreader: as `read_u8`, for sixteen bits at
/// most.
#[verifier::external_body]
pub(crate) fn reader_read_u16(reader: &mut BitReader, bit_count: u8) -> (value: Option<u16>)
    ensures
        after_read(*old(reader), *final(reader), bit_count, 16),
        value is Some == gives(*old(reader), bit_count, 16),
        value matches Some(v) ==> v == msb_value(reader_bits(*old(reader)).take(bit_count as int)),
{
    reader.read_u16(bit_count).ok()
}

/// `BitReader::read_u64` of bitreader: as `read_u8`, for 64 bits at most.
#[verifier::external_body]
pub(crate) fn reader_read_u64(reader: &mut BitReader, bit_count: u8) -> (value: Option<u64>)
    ensures
        after_read(*old(reader), *final(reader), bit_count, 64),
        value is Some == gives(*old(reader), bit_count, 64),
        value matches Some(v) ==> v == msb_value(reader_bits(*old(reader)).take(bit_count as int)),
{
    reader.read_u64(bit_count).ok()
}

/// `BitReader::read_bool` of bitreader: whether the next bit is set, or
/// nothing, with the reader left as it was, where no bit is left.
#[verifier::external_body]
pub(crate) fn reader_read_bool(reader: &mut BitReader) -> (value: Option<bool>)
    ensures
        after_read(*old(reader), *final(reader), 1, 1),
        value is Some == gives(*old(reader), 1, 1),
        value matches Some(v) ==> v == reader_bits(*old(reader))[0],
{
    reader.read_bool().ok()
}

} // verus!
