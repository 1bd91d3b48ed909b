//! The CRC-32 checksum that guards a chunk's type code and payload.

use vstd::prelude::*;
use crc::{Crc, CRC_32_ISO_HDLC};

verus! {

/// The CRC-32/ISO-HDLC checksum of a byte sequence, the one that PNG uses.
pub uninterp spec fn crc32_iso_hdlc(bytes: Seq<u8>) -> u32;

/// `Crc::<u32>::checksum` of the `crc` crate, on an instance made by
/// `Crc::<u32>::new` for the catalogued algorithm `CRC_32_ISO_HDLC`. The
/// result depends on the bytes alone; it is what `crc32_iso_hdlc` names.
#[verifier::external_body]
pub(crate) fn checksum(bytes: &[u8]) -> (sum: u32)
    ensures
        sum == crc32_iso_hdlc(bytes@),
{
    Crc::<u32>::new(&CRC_32_ISO_HDLC).checksum(bytes)
}

} // verus!
