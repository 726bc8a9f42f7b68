//! CRC-16/X.25 (IBM-SDLC) checksum over the unescaped payload.

use vstd::prelude::*;

verus! {

/// The CRC-16/X.25 value of a byte sequence, as the `crc` crate computes it.
/// The value is a pure function of the bytes; it is not written out here,
/// since nothing in this crate recomputes it.
pub uninterp spec fn crc16_x25_of(data: Seq<u8>) -> u16;

/// Relies on `crc::Crc::<u16>::checksum` with the `CRC_16_IBM_SDLC` algorithm:
/// the checksum depends on the input bytes alone.
#[verifier::external_body]
pub fn crc16_x25(data: &Vec<u8>) -> (r: u16)
    ensures
        r == crc16_x25_of(data@),
{
    crc::Crc::<u16>::new(&crc::CRC_16_IBM_SDLC).checksum(data)
}

} // verus!
