//! The CRC-32 that guards each chunk.

use vstd::prelude::*;

verus! {

/// The CRC-32 (IEEE 802.3) checksum of `data`.
pub uninterp spec fn crc32_ieee(data: Seq<u8>) -> u32;

/// Calls `crc::crc32::checksum_ieee`; its result is what `crc32_ieee` names.
#[verifier::external_body]
fn checksum_ieee(bytes: &[u8]) -> (r: u32)
    ensures
        r == crc32_ieee(bytes@),
{
    crc::crc32::checksum_ieee(bytes)
}

/// The checksum that a chunk with this tag and payload carries: the CRC-32
/// of the tag bytes followed by the payload bytes.
pub open spec fn chunk_crc(tag: Seq<u8>, data: Seq<u8>) -> u32 {
    crc32_ieee(tag + data)
}

/// Computes the checksum of a chunk from its tag and payload.
pub fn chunk_checksum(tag: &[u8], data: &[u8]) -> (r: u32)
    ensures
        r == chunk_crc(tag@, data@),
{
    let mut covered: Vec<u8> = Vec::new();
    covered.extend_from_slice(tag);
    covered.extend_from_slice(data);
    assert(covered@ =~= tag@ + data@);
    checksum_ieee(covered.as_slice())
}

} // verus!
