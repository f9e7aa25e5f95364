//! A record as one unsigned integer: its bytes read in little-endian order.

use vstd::prelude::*;
use vstd::arithmetic::power2::{lemma2_to64, lemma_pow2_adds, lemma_pow2_pos, pow2};
use vstd::arithmetic::div_mod::{lemma_div_denominator, lemma_fundamental_div_mod_converse};
use byteorder::{ByteOrder, LittleEndian};

verus! {

/// The number that `bytes` spell in little-endian order: the first byte
/// counts ones, the next one 256s, and so on.
pub open spec fn le_value(bytes: Seq<u8>) -> nat
    decreases bytes.len(),
{
    if bytes.len() == 0 {
        0
    } else {
        bytes[0] as nat + 256 * le_value(bytes.skip(1))
    }
}

/// A record that holds no event but fills space: all its bytes are zero.
pub open spec fn is_padding(bytes: Seq<u8>) -> bool {
    forall|i: int| 0 <= i < bytes.len() ==> bytes[i] == 0
}

/// `LittleEndian::read_uint` of byteorder: the unsigned integer that the
/// first `nbytes` bytes of `buf` spell in little-endian order. The call
/// panics unless `nbytes` is between one and eight and `buf` is that long.
#[verifier::external_body]
pub(crate) fn read_le_uint(buf: &[u8], nbytes: usize) -> (word: u64)
    requires
        1 <= nbytes <= 8,
        nbytes <= buf@.len(),
    ensures
        word == le_value(buf@.subrange(0, nbytes as int)),
{
    LittleEndian::read_uint(buf, nbytes)
}

/// A little-endian number of `n` bytes is below `2^(8n)`.
pub proof fn lemma_le_value_bound(bytes: Seq<u8>)
    ensures
        le_value(bytes) < pow2(8 * bytes.len()),
    decreases bytes.len(),
{
    if bytes.len() == 0 {
        lemma2_to64();
    } else {
        let rest = bytes.skip(1);
        lemma_le_value_bound(rest);
        lemma_pow2_adds(8, 8 * rest.len());
        lemma2_to64();
        assert(8 * bytes.len() == 8 + 8 * rest.len());
        assert(pow2(8 * bytes.len()) == 256 * pow2(8 * rest.len()));
    }
}

/// A little-endian number is zero exactly when all its bytes are.
pub proof fn lemma_le_value_zero(bytes: Seq<u8>)
    ensures
        le_value(bytes) == 0 <==> is_padding(bytes),
    decreases bytes.len(),
{
    if bytes.len() > 0 {
        let rest = bytes.skip(1);
        lemma_le_value_zero(rest);
        if is_padding(bytes) {
            assert forall|i: int| 0 <= i < rest.len() implies rest[i] == 0 by {
                assert(rest[i] == bytes[i + 1]);
            }
        }
        if le_value(bytes) == 0 {
            assert forall|i: int| 0 <= i < bytes.len() implies bytes[i] == 0 by {
                if i > 0 {
                    assert(bytes[i] == rest[i - 1]);
                }
            }
        }
    }
}

/// The byte at place `k` of a little-endian number is its digit of weight
/// `256^k`.
pub proof fn lemma_le_value_byte(bytes: Seq<u8>, k: int)
    requires
        0 <= k < bytes.len(),
    ensures
        (le_value(bytes) / pow2((8 * k) as nat)) % 256 == bytes[k],
    decreases k,
{
    let rest = bytes.skip(1);
    let v = le_value(bytes);
    lemma_fundamental_div_mod_converse(v as int, 256, le_value(rest) as int, bytes[0] as int);
    if k == 0 {
        lemma2_to64();
    } else {
        lemma_le_value_byte(rest, k - 1);
        let low = pow2((8 * (k - 1)) as nat);
        lemma_pow2_pos((8 * (k - 1)) as nat);
        lemma_pow2_adds(8, (8 * (k - 1)) as nat);
        lemma2_to64();
        assert(8 + 8 * (k - 1) == 8 * k);
        assert(pow2((8 * k) as nat) == 256 * low);
        lemma_div_denominator(v as int, 256, low as int);
        assert(v / pow2((8 * k) as nat) == le_value(rest) / low);
        assert(rest[k - 1] == bytes[k]);
    }
}

} // verus!
