use vstd::prelude::*;

verus! {

/// The CRC-8/DVB-S2 checksum of a byte sequence (polynomial 0xD5, initial
/// value 0, no reflection, no final XOR), as the `crc` crate computes it.
pub uninterp spec fn crc8_of(data: Seq<u8>) -> u8;

/// Relies on `crc::Crc::<u8>::checksum` with the `CRC_8_DVB_S2` catalogue
/// entry: the checksum depends on the bytes alone.
#[verifier::external_body]
fn crc8_dvb_s2(data: &[u8]) -> (r: u8)
    ensures
        r == crc8_of(data@),
{
    crc::Crc::<u8>::new(&crc::CRC_8_DVB_S2).checksum(data)
}

/// CRC-8/DVB-S2 over `data`.
pub fn calc_crc8(data: &[u8]) -> (r: u8)
    ensures
        r == crc8_of(data@),
{
    crc8_dvb_s2(data)
}

} // verus!
