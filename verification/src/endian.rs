//! Big-endian integers, read and written by the `byteorder` crate.

use byteorder::{BigEndian, ByteOrder};
use vstd::prelude::*;

verus! {

/// The two bytes of `n`, the high one first.
pub open spec fn be16(n: u16) -> Seq<u8> {
    seq![(n / 256) as u8, (n % 256) as u8]
}

/// The four bytes of `n`, the highest first.
pub open spec fn be32(n: u32) -> Seq<u8> {
    seq![
        (n / 0x100_0000) as u8,
        (n / 0x1_0000 % 256) as u8,
        (n / 0x100 % 256) as u8,
        (n % 256) as u8,
    ]
}

/// `BigEndian::read_u16`: the number whose high byte is `buf[0]` and whose
/// low byte is `buf[1]`. The call panics on fewer than two bytes.
#[verifier::external_body]
pub(crate) fn read_u16_be(buf: &[u8]) -> (n: u16)
    requires
        buf@.len() >= 2,
    ensures
        n == buf@[0] * 256 + buf@[1],
{
    BigEndian::read_u16(buf)
}

/// `BigEndian::write_u16` into a buffer of two bytes.
#[verifier::external_body]
pub(crate) fn u16_be(n: u16) -> (out: [u8; 2])
    ensures
        out@ == be16(n),
{
    let mut out = [0u8; 2];
    BigEndian::write_u16(&mut out, n);
    out
}

/// `BigEndian::read_u32`: the number spelled by the first four bytes, the
/// highest first. The call panics on fewer than four bytes.
#[verifier::external_body]
pub(crate) fn read_u32_be(buf: &[u8]) -> (n: u32)
    requires
        buf@.len() >= 4,
    ensures
        n == buf@[0] * 0x100_0000 + buf@[1] * 0x1_0000 + buf@[2] * 0x100 + buf@[3],
{
    BigEndian::read_u32(buf)
}

/// `BigEndian::write_u32` into a buffer of four bytes.
#[verifier::external_body]
pub(crate) fn u32_be(n: u32) -> (out: [u8; 4])
    ensures
        out@ == be32(n),
{
    let mut out = [0u8; 4];
    BigEndian::write_u32(&mut out, n);
    out
}

} // verus!
