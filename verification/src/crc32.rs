//! The CRC-32 checksum of the archive format.

use vstd::prelude::*;

verus! {

/// The generator polynomial, bit-reversed.
pub const CRC32_POLYNOMIAL: u32 = 0xEDB8_8320;

/// One step of the division: the register moves one bit to the right and
/// the polynomial is taken off where a one fell out.
pub open spec fn crc_shift(c: u32) -> u32 {
    if c & 1 == 1 {
        (c >> 1) ^ CRC32_POLYNOMIAL
    } else {
        c >> 1
    }
}

/// `n` steps of the division.
pub open spec fn crc_shifts(c: u32, n: nat) -> u32
    decreases n,
{
    if n == 0 {
        c
    } else {
        crc_shift(crc_shifts(c, (n - 1) as nat))
    }
}

/// The register after one more byte has been fed in.
pub open spec fn crc_update(c: u32, b: u8) -> u32 {
    crc_shifts(c ^ (b as u32), 8)
}

/// The register after all of `bytes` has been fed in, starting from all ones.
pub open spec fn crc_register(bytes: Seq<u8>) -> u32
    decreases bytes.len(),
{
    if bytes.len() == 0 {
        0xFFFF_FFFF
    } else {
        crc_update(crc_register(bytes.drop_last()), bytes.last())
    }
}

/// The CRC-32 of `bytes`: the final register, inverted.
pub open spec fn spec_crc32(bytes: Seq<u8>) -> u32 {
    crc_register(bytes) ^ 0xFFFF_FFFF
}

/// The checksum of no bytes is zero.
pub proof fn lemma_crc32_empty()
    ensures
        spec_crc32(Seq::<u8>::empty()) == 0,
{
    assert(0xFFFF_FFFFu32 ^ 0xFFFF_FFFFu32 == 0u32) by (bit_vector);
}

/// Computes the CRC-32 of `bytes`.
pub fn crc32(bytes: &[u8]) -> (r: u32)
    ensures
        r == spec_crc32(bytes@),
        bytes@.len() == 0 ==> r == 0,
{
    let mut c: u32 = 0xFFFF_FFFF;
    let mut i: usize = 0;
    assert(bytes@.subrange(0, 0) =~= Seq::<u8>::empty());
    while i < bytes.len()
        invariant
            i <= bytes.len(),
            c == crc_register(bytes@.subrange(0, i as int)),
        decreases bytes.len() - i,
    {
        let ghost before: u32 = c;
        c = c ^ (bytes[i] as u32);
        let mut k: u8 = 0;
        while k < 8
            invariant
                k <= 8,
                c == crc_shifts(before ^ (bytes[i as int] as u32), k as nat),
            decreases 8 - k,
        {
            if c & 1 == 1 {
                c = (c >> 1) ^ CRC32_POLYNOMIAL;
            } else {
                c = c >> 1;
            }
            k += 1;
        }
        proof {
            let next = bytes@.subrange(0, i + 1);
            assert(next.drop_last() =~= bytes@.subrange(0, i as int));
            assert(next.last() == bytes[i as int]);
        }
        i += 1;
    }
    proof {
        assert(bytes@.subrange(0, i as int) =~= bytes@);
        lemma_crc32_empty();
    }
    c ^ 0xFFFF_FFFF
}

} // verus!
