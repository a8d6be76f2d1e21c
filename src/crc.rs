//! CRC-32C (Castagnoli), bit by bit with the reflected polynomial.
use vstd::prelude::*;

use crate::wire::{le_bytes32, le_u32, lemma_le_u32_round_trip};

verus! {

pub const CRC32C_POLY: u32 = 0x82F6_3B78;

/// One shift of the register: the low bit decides whether the polynomial
/// is folded in.
pub open spec fn crc_shift(c: u32) -> u32 {
    if c & 1 != 0 {
        (c >> 1) ^ CRC32C_POLY
    } else {
        c >> 1
    }
}

pub open spec fn crc_shifts(c: u32, n: nat) -> u32
    decreases n,
{
    if n == 0 {
        c
    } else {
        crc_shift(crc_shifts(c, (n - 1) as nat))
    }
}

/// The register after feeding `data`, starting from all ones.
pub open spec fn crc_register(data: Seq<u8>) -> u32
    decreases data.len(),
{
    if data.len() == 0 {
        0xFFFF_FFFF
    } else {
        crc_shifts(crc_register(data.drop_last()) ^ (data.last() as u32), 8)
    }
}

/// CRC-32C of `data`: the register with every bit inverted.
pub open spec fn crc32c(data: Seq<u8>) -> u32 {
    crc_register(data) ^ 0xFFFF_FFFF
}

/// Compute the CRC-32C of a byte stream.
pub fn compute_crc(data_stream: &[u8]) -> (r: u32)
    ensures
        r == crc32c(data_stream@),
{
    let mut crc: u32 = 0xFFFF_FFFF;
    let mut i: usize = 0;
    while i < data_stream.len()
        invariant
            i <= data_stream@.len(),
            crc == crc_register(data_stream@.subrange(0, i as int)),
        decreases data_stream@.len() - i,
    {
        let ghost start: u32 = crc ^ (data_stream@[i as int] as u32);
        crc = crc ^ (data_stream[i] as u32);
        let mut k: u32 = 0;
        while k < 8
            invariant
                k <= 8,
                crc == crc_shifts(start, k as nat),
            decreases 8 - k,
        {
            if crc & 1 != 0 {
                crc = (crc >> 1) ^ CRC32C_POLY;
            } else {
                crc = crc >> 1;
            }
            k = k + 1;
        }
        assert(data_stream@.subrange(0, i + 1).drop_last() =~= data_stream@.subrange(0, i as int));
        i = i + 1;
    }
    assert(data_stream@.subrange(0, i as int) =~= data_stream@);
    crc ^ 0xFFFF_FFFF
}

/// Check `data_stream` against a CRC stored little-endian in the first
/// four bytes of `crc`.
pub fn validate_crc(data_stream: &[u8], crc: &[u8]) -> (r: bool)
    requires
        crc@.len() >= 4,
    ensures
        r == (le_u32(crc@) == crc32c(data_stream@)),
{
    crate::wire::read_u32_le(crc, 0) == compute_crc(data_stream)
}

/// A CRC written little-endian validates the data it was computed from.
pub proof fn law_crc_validates(data: Seq<u8>)
    ensures
        le_u32(le_bytes32(crc32c(data))) == crc32c(data),
{
    lemma_le_u32_round_trip(crc32c(data));
}

} // verus!
