//! Facts about single bits of a 64-bit word, on which the set view of a
//! bitboard rests.

use vstd::prelude::*;

verus! {

/// Whether bit `i` of `bits` is set, for `i` from 0 to 63.
pub open spec fn has_bit(bits: u64, i: u64) -> bool {
    (bits >> i) & 1 == 1
}

/// The word with bit `i` alone set.
pub open spec fn single_bit(i: u64) -> u64 {
    1u64 << i
}

/// A single-bit word holds exactly its own bit.
pub proof fn lemma_single_bit(i: u64, j: u64)
    by (bit_vector)
    requires
        i < 64,
        j < 64,
    ensures
        has_bit(single_bit(i), j) == (i == j),
{
}

/// The zero word holds no bit.
pub proof fn lemma_zero_bits(j: u64)
    by (bit_vector)
    requires
        j < 64,
    ensures
        !has_bit(0, j),
{
}

/// Testing a word against a single-bit mask reads that bit.
pub proof fn lemma_test_bit(bits: u64, i: u64)
    by (bit_vector)
    requires
        i < 64,
    ensures
        (bits & single_bit(i) != 0) == has_bit(bits, i),
{
}

/// `|` holds the bits of either operand.
pub proof fn lemma_or_bits(a: u64, b: u64, j: u64)
    by (bit_vector)
    requires
        j < 64,
    ensures
        has_bit(a | b, j) == (has_bit(a, j) || has_bit(b, j)),
{
}

/// `^` holds the bits of exactly one operand.
pub proof fn lemma_xor_bits(a: u64, b: u64, j: u64)
    by (bit_vector)
    requires
        j < 64,
    ensures
        has_bit(a ^ b, j) == (has_bit(a, j) != has_bit(b, j)),
{
}

/// `&` with the complement of `b` holds the bits of `a` that `b` lacks.
pub proof fn lemma_and_not_bits(a: u64, b: u64, j: u64)
    by (bit_vector)
    requires
        j < 64,
    ensures
        has_bit(a & !b, j) == (has_bit(a, j) && !has_bit(b, j)),
{
}

/// Two words whose `^` is zero are equal.
pub proof fn lemma_xor_zero(a: u64, b: u64)
    by (bit_vector)
    requires
        a ^ b == 0,
    ensures
        a == b,
{
}

/// A word that is not zero holds a bit: after its lowest bit is shifted
/// out, either that bit was set or what remains is not zero and smaller.
pub proof fn lemma_shift_out(bits: u64)
    by (bit_vector)
    requires
        bits != 0,
        !has_bit(bits, 0),
    ensures
        bits >> 1 != 0,
        bits >> 1 < bits,
{
}

/// Bit `j` of a word shifted right by one is bit `j + 1` of the word.
pub proof fn lemma_shifted_bit(bits: u64, j: u64)
    by (bit_vector)
    requires
        j < 63,
    ensures
        has_bit(bits >> 1, j) == has_bit(bits, (j + 1) as u64),
{
}

/// The top bit of a word shifted right by one is clear.
pub proof fn lemma_shifted_top(bits: u64)
    by (bit_vector)
    ensures
        !has_bit(bits >> 1, 63),
{
}

/// The position of the lowest set bit of a word that is not zero.
pub open spec fn lowest_bit(bits: u64) -> u64
    decreases bits,
{
    if bits == 0 || has_bit(bits, 0) {
        0
    } else if bits >> 1 < bits {
        (1 + lowest_bit(bits >> 1)) as u64
    } else {
        0
    }
}

/// A word that is not zero holds the bit at [`lowest_bit`].
pub proof fn lemma_lowest_bit(bits: u64)
    requires
        bits != 0,
    ensures
        lowest_bit(bits) < 64,
        has_bit(bits, lowest_bit(bits)),
    decreases bits,
{
    if !has_bit(bits, 0) {
        lemma_shift_out(bits);
        let rest = bits >> 1;
        lemma_lowest_bit(rest);
        let j = lowest_bit(rest);
        lemma_shifted_top(bits);
        assert(j < 63);
        lemma_shifted_bit(bits, j);
    }
}

/// Packing two six-bit fields and a four-bit field into sixteen bits with
/// shifts gives the same word as weighting them by 1, 64 and 4096.
pub proof fn lemma_pack_fields(low: u16, mid: u16, high: u16)
    by (bit_vector)
    requires
        low < 64,
        mid < 64,
    ensures
        (low | (mid << 6)) | ((high & 0xF) << 12) == low + 64 * mid + 4096 * (high % 16),
{
}

/// Masking and shifting a sixteen-bit word reads the same fields as
/// dividing it by 64 and by 4096.
pub proof fn lemma_unpack_fields(raw: u16)
    by (bit_vector)
    ensures
        raw & 0x3F == raw % 64,
        (raw & 0xFC0) >> 6 == (raw / 64) % 64,
        (raw & 0xF000) >> 12 == raw / 4096,
        raw / 4096 < 16,
{
}

/// The two low bits and bit 3 of a four-bit code.
pub proof fn lemma_code_bits(code: u16)
    by (bit_vector)
    requires
        code < 16,
    ensures
        (code & 0x8 != 0) == (code >= 8),
        code & 0x3 == code % 4,
{
}

/// Testing one of the four low bits of a byte with a mask reads the same
/// bit as dividing the byte by the weight of the bit.
pub proof fn lemma_low_bits(byte: u8)
    by (bit_vector)
    ensures
        (byte & 1 != 0) == (byte % 2 == 1),
        (byte & 2 != 0) == ((byte / 2) % 2 == 1),
        (byte & 4 != 0) == ((byte / 4) % 2 == 1),
        (byte & 8 != 0) == ((byte / 8) % 2 == 1),
{
}

} // verus!
