//! CRC-32 (IEEE 802.3, reflected form) over byte sequences.
//!
//! The gossip wire format closes every frame with this checksum, and the
//! rumor merge uses it as the body hash for its tie-break. The checksum is
//! defined here as a specification function and the executable computation
//! is proved equal to it.

use vstd::prelude::*;

verus! {

/// The reflected IEEE polynomial.
pub const CRC32_POLY: u32 = 0xEDB88320;

/// One bit step: shift right, folding the polynomial in when the low bit
/// was set.
pub open spec fn crc32_bit(c: u32) -> u32 {
    if c & 1 == 1 {
        (c >> 1u32) ^ CRC32_POLY
    } else {
        c >> 1u32
    }
}

/// `k` bit steps applied to `c`.
pub open spec fn crc32_bits(c: u32, k: nat) -> u32
    decreases k,
{
    if k == 0 {
        c
    } else {
        crc32_bit(crc32_bits(c, (k - 1) as nat))
    }
}

/// Fold one byte into the running state: xor it in, then eight bit steps.
pub open spec fn crc32_byte(c: u32, b: u8) -> u32 {
    crc32_bits(c ^ (b as u32), 8)
}

/// The running state after the first `n` bytes of `s`, starting from the
/// all-ones initial state.
pub open spec fn crc32_state(s: Seq<u8>, n: int) -> u32
    decreases n,
{
    if n <= 0 {
        0xFFFFFFFFu32
    } else {
        crc32_byte(crc32_state(s, n - 1), s[n - 1])
    }
}

/// The CRC-32 of a byte sequence: the final state, complemented.
pub open spec fn crc32_of(s: Seq<u8>) -> u32 {
    crc32_state(s, s.len() as int) ^ 0xFFFFFFFFu32
}

/// The CRC-32 of `data`.
pub fn crc32(data: &[u8]) -> (r: u32)
    ensures
        r == crc32_of(data@),
{
    let mut c: u32 = 0xFFFFFFFF;
    let mut i: usize = 0;
    while i < data.len()
        invariant
            0 <= i <= data@.len(),
            c == crc32_state(data@, i as int),
        decreases data@.len() - i,
    {
        let b = data[i];
        c = c ^ (b as u32);
        let mut k: usize = 0;
        while k < 8
            invariant
                0 <= k <= 8,
                c == crc32_bits(crc32_state(data@, i as int) ^ (b as u32), k as nat),
        decreases 8 - k,
        {
            if c & 1 == 1 {
                c = (c >> 1u32) ^ CRC32_POLY;
            } else {
                c = c >> 1u32;
            }
            k = k + 1;
        }
        assert(c == crc32_byte(crc32_state(data@, i as int), b));
        i = i + 1;
    }
    c ^ 0xFFFFFFFF
}

} // verus!
