//! The CRC-32 checksum that protects each chunk.

use crc::{Crc, CRC_32_ISO_HDLC};
use vstd::prelude::*;

verus! {

/// The CRC-32/ISO-HDLC checksum of a byte sequence, as the `crc` crate
/// computes it.  Nothing is stated about its value beyond its being a
/// function of the bytes.
pub uninterp spec fn crc32_iso_hdlc(bytes: Seq<u8>) -> u32;

/// Calls `crc::Crc::<u32>::checksum` on an instance that
/// `crc::Crc::<u32>::new` makes for the `CRC_32_ISO_HDLC` algorithm.
///
/// Trusted: the result is the checksum of exactly the bytes given.  The call
/// reads nothing but its argument and the algorithm's constants and does not
/// panic.
#[verifier::external_body]
pub(crate) fn crc32(bytes: &[u8]) -> (sum: u32)
    ensures
        sum == crc32_iso_hdlc(bytes@),
{
    Crc::<u32>::new(&CRC_32_ISO_HDLC).checksum(bytes)
}

} // verus!
