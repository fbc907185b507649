//! The integrity layer: an Adler-32 checksum over the exact text written
//! to a data file, stored as four big-endian bytes in the paired hash
//! file.  It detects corruption and truncation; it is no cryptographic
//! protection.

use vstd::prelude::*;

verus! {

/// The Adler-32 checksum of the UTF-8 bytes of a text.
pub uninterp spec fn adler32_of(s: Seq<char>) -> u32;

/// Relies on `RollingAdler32::from_buffer` and `hash` of the adler32
/// crate: the Adler-32 checksum of the given bytes, a pure function of
/// the text alone.
#[verifier::external_body]
pub fn checksum_of(data: &str) -> (r: u32)
    ensures
        r == adler32_of(data@),
{
    adler32::RollingAdler32::from_buffer(data.as_bytes()).hash()
}

/// The four big-endian bytes of a 32-bit word.
pub open spec fn spec_be_bytes(n: u32) -> Seq<u8> {
    seq![
        (n as int / 0x1000000) as u8,
        ((n as int / 0x10000) % 0x100) as u8,
        ((n as int / 0x100) % 0x100) as u8,
        (n as int % 0x100) as u8,
    ]
}

/// The 32-bit word of four big-endian bytes.
pub open spec fn spec_be_u32(b: Seq<u8>) -> u32 {
    (((b[0] as int) * 0x1000000) + ((b[1] as int) * 0x10000) + ((b[2] as int) * 0x100) + (
    b[3] as int)) as u32
}

/// Writing a word as big-endian bytes and reading it back is the
/// identity.
pub proof fn lemma_be_roundtrip(n: u32)
    ensures
        spec_be_u32(spec_be_bytes(n)) == n,
{
    let b = spec_be_bytes(n);
    assert(b[0] as int == n as int / 0x1000000);
    assert(b[1] as int == (n as int / 0x10000) % 0x100);
    assert(b[2] as int == (n as int / 0x100) % 0x100);
    assert(b[3] as int == n as int % 0x100);
    assert((b[0] as int) * 0x1000000 + (b[1] as int) * 0x10000 + (b[2] as int) * 0x100 + (
    b[3] as int) == n as int) by (nonlinear_arith)
        requires
            b[0] as int == n as int / 0x1000000,
            b[1] as int == (n as int / 0x10000) % 0x100,
            b[2] as int == (n as int / 0x100) % 0x100,
            b[3] as int == n as int % 0x100,
            0 <= (n as int) && (n as int) < 0x100000000;
}

/// The big-endian bytes of a 32-bit word.
pub fn u32_to_be_bytes(n: u32) -> (r: Vec<u8>)
    ensures
        r@ == spec_be_bytes(n),
{
    let mut r: Vec<u8> = Vec::new();
    r.push((n / 0x1000000) as u8);
    r.push(((n / 0x10000) % 0x100) as u8);
    r.push(((n / 0x100) % 0x100) as u8);
    r.push((n % 0x100) as u8);
    proof {
        assert(r@ =~= spec_be_bytes(n));
    }
    r
}

/// Verify stored checksum bytes against the checksum of a text: the
/// bytes must be exactly four, and name the text's Adler-32 checksum.  A
/// stored checksum of the wrong length is a failure, never a pass.
pub fn verify_checksum(data: &str, stored: &Vec<u8>) -> (r: bool)
    ensures
        r == (stored@.len() == 4 && spec_be_u32(stored@) == adler32_of(data@)),
{
    if stored.len() != 4 {
        return false;
    }
    be_bytes_to_u32(stored) == checksum_of(data)
}

/// The 32-bit word of four big-endian bytes.
pub fn be_bytes_to_u32(b: &Vec<u8>) -> (r: u32)
    requires
        b@.len() == 4,
    ensures
        r == spec_be_u32(b@),
{
    (b[0] as u32) * 0x1000000 + (b[1] as u32) * 0x10000 + (b[2] as u32) * 0x100 + (b[3] as u32)
}

} // verus!
