//! Content fingerprints for drift detection: the CRC-32 (IEEE / ISO-HDLC
//! polynomial) of a script's UTF-8 bytes, stored as a signed 32-bit value.

use vstd::prelude::*;

verus! {

/// The CRC-32 fingerprint of a script, as a function of its characters alone:
/// byte-identical content yields the identical value on every run, every
/// process and every platform.
pub uninterp spec fn crc32_of(s: Seq<char>) -> i32;

/// Relies on the crc crate's CRC-32/ISO-HDLC (the classic IEEE polynomial)
/// checksum of the string's UTF-8 bytes: a pure function of the characters,
/// reinterpreted as a signed 32-bit value.
#[verifier::external_body]
pub fn checksum_of(s: &str) -> (r: i32)
    ensures
        r == crc32_of(s@),
{
    crc::Crc::<u32>::new(&crc::CRC_32_ISO_HDLC).checksum(s.as_bytes()) as i32
}

} // verus!
