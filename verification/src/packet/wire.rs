//! Big-endian encoding of the header's integers.

use byteorder::{BigEndian, ByteOrder, WriteBytesExt};
use vstd::prelude::*;

verus! {

/// The two bytes of `n`, most significant first.
pub open spec fn u16_be_bytes(n: u16) -> Seq<u8> {
    seq![(n / 0x100) as u8, (n % 0x100) as u8]
}

/// The four bytes of `n`, most significant first.
pub open spec fn u32_be_bytes(n: u32) -> Seq<u8> {
    seq![
        (n / 0x100_0000) as u8,
        ((n / 0x1_0000) % 0x100) as u8,
        ((n / 0x100) % 0x100) as u8,
        (n % 0x100) as u8,
    ]
}

/// The integer whose big-endian bytes are the first two bytes of `bytes`.
pub open spec fn u16_from_be_bytes(bytes: Seq<u8>) -> u16
    recommends
        bytes.len() >= 2,
{
    (bytes[0] * 0x100 + bytes[1]) as u16
}

/// The integer whose big-endian bytes are the first four bytes of `bytes`.
pub open spec fn u32_from_be_bytes(bytes: Seq<u8>) -> u32
    recommends
        bytes.len() >= 4,
{
    (bytes[0] * 0x100_0000 + bytes[1] * 0x1_0000 + bytes[2] * 0x100 + bytes[3]) as u32
}

/// Reading back the big-endian bytes of an integer gives the integer.
pub proof fn lemma_be_bytes_round_trip(a: u16, b: u32)
    ensures
        u16_from_be_bytes(u16_be_bytes(a)) == a,
        u32_from_be_bytes(u32_be_bytes(b)) == b,
{
}

/// Writing out the integer read from two or four bytes gives those bytes.
pub proof fn lemma_be_bytes_of_read(bytes: Seq<u8>)
    ensures
        bytes.len() == 2 ==> u16_be_bytes(u16_from_be_bytes(bytes)) == bytes,
        bytes.len() == 4 ==> u32_be_bytes(u32_from_be_bytes(bytes)) == bytes,
{
    if bytes.len() == 2 {
        assert(u16_be_bytes(u16_from_be_bytes(bytes)) =~= bytes);
    }
    if bytes.len() == 4 {
        assert(u32_be_bytes(u32_from_be_bytes(bytes)) =~= bytes);
    }
}

/// `byteorder::WriteBytesExt::write_u16` with `BigEndian`, on a vector: the
/// two bytes of `n`, most significant first, are appended to `wtr`. Writing
/// to a vector does not fail.
#[verifier::external_body]
pub(crate) fn write_u16_be(wtr: &mut Vec<u8>, n: u16)
    ensures
        final(wtr)@ == old(wtr)@ + u16_be_bytes(n),
{
    wtr.write_u16::<BigEndian>(n).unwrap();
}

/// `byteorder::WriteBytesExt::write_u32` with `BigEndian`, on a vector: the
/// four bytes of `n`, most significant first, are appended to `wtr`. Writing
/// to a vector does not fail.
#[verifier::external_body]
pub(crate) fn write_u32_be(wtr: &mut Vec<u8>, n: u32)
    ensures
        final(wtr)@ == old(wtr)@ + u32_be_bytes(n),
{
    wtr.write_u32::<BigEndian>(n).unwrap();
}

/// `byteorder::ByteOrder::read_u16` of `BigEndian`: the integer that the
/// first two bytes of `buf` spell, most significant first. The outside
/// function panics on a shorter buffer.
#[verifier::external_body]
pub(crate) fn read_u16_be(buf: &[u8]) -> (n: u16)
    requires
        buf@.len() >= 2,
    ensures
        n == u16_from_be_bytes(buf@),
{
    BigEndian::read_u16(buf)
}

/// `byteorder::ByteOrder::read_u32` of `BigEndian`: the integer that the
/// first four bytes of `buf` spell, most significant first. The outside
/// function panics on a shorter buffer.
#[verifier::external_body]
pub(crate) fn read_u32_be(buf: &[u8]) -> (n: u32)
    requires
        buf@.len() >= 4,
    ensures
        n == u32_from_be_bytes(buf@),
{
    BigEndian::read_u32(buf)
}

} // verus!
