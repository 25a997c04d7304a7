//! The two cyclic redundancy checks of the FLAC format.
//!
//! A check is the remainder of a bit string, read as a polynomial over the
//! two-element field, after long division by the generator polynomial. The
//! division is done one bit at a time by a shift register.
use crate::bits;
use vstd::arithmetic::power2::*;
use vstd::prelude::*;

verus! {

/// One step of the division by `x^8 + x^2 + x + 1`.
pub open spec fn crc8_shift(register: u8, bit: bool) -> u8 {
    if (register & 0x80 != 0) != bit {
        (register << 1) ^ 0x07
    } else {
        register << 1
    }
}

/// The remainder that is left after all of `bits`, from an empty register.
pub open spec fn crc8_bits(bits: Seq<bool>) -> u8
    decreases bits.len(),
{
    if bits.len() == 0 {
        0
    } else {
        crc8_shift(crc8_bits(bits.drop_last()), bits.last())
    }
}

/// One step of the division by `x^16 + x^15 + x^2 + 1`.
pub open spec fn crc16_shift(register: u16, bit: bool) -> u16 {
    if (register & 0x8000 != 0) != bit {
        (register << 1) ^ 0x8005
    } else {
        register << 1
    }
}

/// The remainder that is left after all of `bits`, from an empty register.
pub open spec fn crc16_bits(bits: Seq<bool>) -> u16
    decreases bits.len(),
{
    if bits.len() == 0 {
        0
    } else {
        crc16_shift(crc16_bits(bits.drop_last()), bits.last())
    }
}

proof fn lemma_byte_bit(b: u8, j: u8)
    requires
        j < 8,
    ensures
        bits::uint_bits(b as nat, 8)[j as int] == ((b << j) & 0x80 != 0),
{
    reveal_with_fuel(bits::uint_bits, 9);
    assert(((b << 0u8) & 0x80 != 0) == (b / 128 % 2 == 1) && ((b << 1u8) & 0x80 != 0) == (b / 64 % 2
        == 1) && ((b << 2u8) & 0x80 != 0) == (b / 32 % 2 == 1) && ((b << 3u8) & 0x80 != 0) == (b
        / 16 % 2 == 1) && ((b << 4u8) & 0x80 != 0) == (b / 8 % 2 == 1) && ((b << 5u8) & 0x80 != 0)
        == (b / 4 % 2 == 1) && ((b << 6u8) & 0x80 != 0) == (b / 2 % 2 == 1) && ((b << 7u8) & 0x80
        != 0) == (b % 2 == 1)) by (bit_vector);
}

proof fn lemma_word_bit(w: u16, j: u16)
    requires
        j < 16,
    ensures
        bits::uint_bits(w as nat, 16)[j as int] == ((w << j) & 0x8000 != 0),
{
    let high = (w / 256) as u8;
    let low = (w % 256) as u8;
    assert(bits::uint_bits(w as nat, 16) == bits::uint_bits(high as nat, 8) + bits::uint_bits(low as nat, 8)) by {
        lemma2_to64();
        bits::lemma_uint_bits_split(w as nat, 8, 8);
        bits::lemma_uint_bits_mod(w as nat, low as nat, 8);
    }
    bits::lemma_uint_bits_len(high as nat, 8);
    bits::lemma_uint_bits_len(low as nat, 8);
    if j < 8 {
        lemma_byte_bit(high, j as u8);
        assert(((w << j) & 0x8000 != 0) == ((((w / 256) as u8) << (j as u8)) & 0x80 != 0))
            by (bit_vector)
            requires
                j < 8,
        ;
    } else {
        lemma_byte_bit(low, (j - 8) as u8);
        assert(((w << j) & 0x8000 != 0) == ((((w % 256) as u8) << ((j - 8) as u8)) & 0x80 != 0))
            by (bit_vector)
            requires
                8 <= j < 16,
        ;
    }
}

/// CRC-8 with polynomial `0x07`, from an empty register.
pub fn crc8(data: &[u8]) -> (crc: u8)
    ensures
        crc == crc8_bits(bits::byte_bits(data@)),
{
    let mut crc: u8 = 0;
    let mut i: usize = 0;
    while i < data.len()
        invariant
            i <= data.len(),
            crc == crc8_bits(bits::byte_bits(data@.take(i as int))),
        decreases data.len() - i,
    {
        let b: u8 = data[i];
        let ghost prefix = bits::byte_bits(data@.take(i as int));
        let ghost word = bits::uint_bits(b as nat, 8);
        proof {
            bits::lemma_uint_bits_len(b as nat, 8);
            assert(data@.take(i + 1).drop_last() =~= data@.take(i as int));
            assert(prefix + word.take(0) =~= prefix);
            assert(b << 0u8 == b) by (bit_vector);
        }
        crc = crc ^ b;
        let mut j: u8 = 0;
        while j < 8
            invariant
                j <= 8,
                word == bits::uint_bits(b as nat, 8),
                word.len() == 8,
                crc == crc8_bits(prefix + word.take(j as int)) ^ (b << j),
            decreases 8 - j,
        {
            proof {
                let r = crc8_bits(prefix + word.take(j as int));
                lemma_byte_bit(b, j);
                assert((prefix + word.take(j + 1)).drop_last() =~= prefix + word.take(j as int));
                assert((prefix + word.take(j + 1)).last() == word[j as int]);
                assert(crc8_shift(r ^ (b << j), false) == crc8_shift(r, (b << j) & 0x80 != 0) ^ (b
                    << ((j + 1) as u8))) by (bit_vector)
                    requires
                        j < 8,
                ;
            }
            crc = if crc & 0x80 != 0 {
                (crc << 1) ^ 0x07
            } else {
                crc << 1
            };
            j = j + 1;
        }
        proof {
            assert(b << 8u8 == 0) by (bit_vector);
            let r = crc8_bits(prefix + word);
            assert(word.take(8) =~= word);
            assert(r ^ 0u8 == r) by (bit_vector);
            assert(bits::byte_bits(data@.take(i + 1)) == prefix + word);
        }
        i = i + 1;
    }
    assert(data@.take(data@.len() as int) =~= data@);
    crc
}

/// CRC-16 with polynomial `0x8005`, from an empty register.
pub fn crc16(data: &[u8]) -> (crc: u16)
    ensures
        crc == crc16_bits(bits::byte_bits(data@)),
{
    let mut crc: u16 = 0;
    let mut i: usize = 0;
    while i < data.len()
        invariant
            i <= data.len(),
            crc == crc16_bits(bits::byte_bits(data@.take(i as int))),
        decreases data.len() - i,
    {
        let b: u8 = data[i];
        let ghost prefix = bits::byte_bits(data@.take(i as int));
        let ghost word = bits::uint_bits(b as nat, 8);
        let high: u16 = (b as u16) << 8;
        proof {
            bits::lemma_uint_bits_len(b as nat, 8);
            assert(data@.take(i + 1).drop_last() =~= data@.take(i as int));
            assert(prefix + word.take(0) =~= prefix);
            assert(high << 0u16 == high) by (bit_vector);
        }
        crc = crc ^ high;
        let mut j: u16 = 0;
        while j < 8
            invariant
                j <= 8,
                word == bits::uint_bits(b as nat, 8),
                word.len() == 8,
                high == (b as u16) << 8,
                crc == crc16_bits(prefix + word.take(j as int)) ^ (high << j),
            decreases 8 - j,
        {
            proof {
                let r = crc16_bits(prefix + word.take(j as int));
                lemma_byte_bit(b, j as u8);
                assert((prefix + word.take(j + 1)).drop_last() =~= prefix + word.take(j as int));
                assert((prefix + word.take(j + 1)).last() == word[j as int]);
                assert((high << j) & 0x8000 != 0 <==> (b << (j as u8)) & 0x80 != 0) by (bit_vector)
                    requires
                        j < 8,
                        high == (b as u16) << 8,
                ;
                assert(crc16_shift(r ^ (high << j), false) == crc16_shift(
                    r,
                    (high << j) & 0x8000 != 0,
                ) ^ (high << ((j + 1) as u16))) by (bit_vector)
                    requires
                        j < 8,
                ;
            }
            crc = if crc & 0x8000 != 0 {
                (crc << 1) ^ 0x8005
            } else {
                crc << 1
            };
            j = j + 1;
        }
        proof {
            assert(high << 8u16 == 0) by (bit_vector)
                requires
                    high == (b as u16) << 8,
            ;
            let r = crc16_bits(prefix + word);
            assert(word.take(8) =~= word);
            assert(r ^ 0u16 == r) by (bit_vector);
            assert(bits::byte_bits(data@.take(i + 1)) == prefix + word);
        }
        i = i + 1;
    }
    assert(data@.take(data@.len() as int) =~= data@);
    crc
}

/// A bit string followed by its own CRC-8 leaves no remainder, which is how a
/// reader recognises an undamaged header.
pub proof fn crc8_of_checked_string_is_zero(bits: Seq<bool>)
    ensures
        crc8_bits(bits + bits::uint_bits(crc8_bits(bits) as nat, 8)) == 0,
{
    let r = crc8_bits(bits);
    lemma_crc8_shifts_out(bits, r, 8);
    bits::lemma_uint_bits_len(r as nat, 8);
    assert(bits::uint_bits(r as nat, 8).take(8) =~= bits::uint_bits(r as nat, 8));
    assert(r << 8u8 == 0) by (bit_vector);
}

proof fn lemma_crc8_shifts_out(bits: Seq<bool>, r: u8, j: u8)
    requires
        j <= 8,
        r == crc8_bits(bits),
    ensures
        crc8_bits(bits + bits::uint_bits(r as nat, 8).take(j as int)) == r << j,
    decreases j,
{
    let word = bits::uint_bits(r as nat, 8);
    bits::lemma_uint_bits_len(r as nat, 8);
    if j == 0 {
        assert(bits + word.take(0) =~= bits);
        assert(r << 0u8 == r) by (bit_vector);
    } else {
        let k = (j - 1) as u8;
        lemma_crc8_shifts_out(bits, r, k);
        lemma_byte_bit(r, k);
        assert((bits + word.take(j as int)).drop_last() =~= bits + word.take(k as int));
        assert((bits + word.take(j as int)).last() == word[k as int]);
        assert(crc8_shift(r << k, (r << k) & 0x80 != 0) == r << ((k + 1) as u8)) by (bit_vector)
            requires
                k < 8,
        ;
    }
}

/// A bit string followed by its own CRC-16 leaves no remainder, which is how a
/// reader recognises an undamaged frame.
pub proof fn crc16_of_checked_string_is_zero(bits: Seq<bool>)
    ensures
        crc16_bits(bits + bits::uint_bits(crc16_bits(bits) as nat, 16)) == 0,
{
    let r = crc16_bits(bits);
    lemma_crc16_shifts_out(bits, r, 16);
    bits::lemma_uint_bits_len(r as nat, 16);
    assert(bits::uint_bits(r as nat, 16).take(16) =~= bits::uint_bits(r as nat, 16));
    assert(r << 16u16 == 0) by (bit_vector);
}

proof fn lemma_crc16_shifts_out(bits: Seq<bool>, r: u16, j: u16)
    requires
        j <= 16,
        r == crc16_bits(bits),
    ensures
        crc16_bits(bits + bits::uint_bits(r as nat, 16).take(j as int)) == r << j,
    decreases j,
{
    let word = bits::uint_bits(r as nat, 16);
    bits::lemma_uint_bits_len(r as nat, 16);
    if j == 0 {
        assert(bits + word.take(0) =~= bits);
        assert(r << 0u16 == r) by (bit_vector);
    } else {
        let k = (j - 1) as u16;
        lemma_crc16_shifts_out(bits, r, k);
        lemma_word_bit(r, k);
        assert((bits + word.take(j as int)).drop_last() =~= bits + word.take(k as int));
        assert((bits + word.take(j as int)).last() == word[k as int]);
        assert(crc16_shift(r << k, (r << k) & 0x8000 != 0) == r << ((k + 1) as u16))
            by (bit_vector)
            requires
                k < 16,
        ;
    }
}

} // verus!
