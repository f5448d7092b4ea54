//! The CRC-32 checksum that guards each chunk.
use vstd::prelude::*;

verus! {

/// The CRC-32/ISO-HDLC checksum of `bytes`, as the `crc` crate computes it.
pub uninterp spec fn crc32_iso_hdlc(bytes: Seq<u8>) -> u32;

/// Calls `crc::Crc::<u32>::checksum` on a `Crc` built for the algorithm
/// `crc::CRC_32_ISO_HDLC`. The contract claims only that the result is the
/// checksum of these bytes, the same for the same bytes; nothing is proved
/// of its value.
#[verifier::external_body]
pub(crate) fn checksum(bytes: &[u8]) -> (sum: u32)
    ensures
        sum == crc32_iso_hdlc(bytes@),
{
    crc::Crc::<u32>::new(&crc::CRC_32_ISO_HDLC).checksum(bytes)
}

} // verus!
