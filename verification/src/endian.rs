//! Big-endian integers as they appear on the wire.

use byteorder::{BigEndian, ReadBytesExt, WriteBytesExt};
use vstd::prelude::*;

verus! {

/// The four bytes that stand for `n`, most significant first.
pub open spec fn u32_be(n: u32) -> Seq<u8> {
    seq![
        (n / 0x100_0000) as u8,
        (n / 0x1_0000 % 0x100) as u8,
        (n / 0x100 % 0x100) as u8,
        (n % 0x100) as u8,
    ]
}

/// The number whose big-endian form is the first four bytes of `bytes`.
pub open spec fn u32_from_be(bytes: Seq<u8>) -> u32
    recommends
        bytes.len() >= 4,
{
    (bytes[0] * 0x100_0000 + bytes[1] * 0x1_0000 + bytes[2] * 0x100 + bytes[3]) as u32
}

/// The number whose big-endian form is the first two bytes of `bytes`.
pub open spec fn u16_from_be(bytes: Seq<u8>) -> u16
    recommends
        bytes.len() >= 2,
{
    (bytes[0] * 0x100 + bytes[1]) as u16
}

/// Decoding the big-endian form of a number gives the number back.
pub proof fn lemma_u32_be_decodes(n: u32)
    ensures
        u32_be(n).len() == 4,
        u32_from_be(u32_be(n)) == n,
        forall|rest: Seq<u8>| u32_from_be(#[trigger] (u32_be(n) + rest)) == n,
{
    assert forall|rest: Seq<u8>| u32_from_be(#[trigger] (u32_be(n) + rest)) == n by {
        let all = u32_be(n) + rest;
        assert(all[0] == u32_be(n)[0]);
        assert(all[1] == u32_be(n)[1]);
        assert(all[2] == u32_be(n)[2]);
        assert(all[3] == u32_be(n)[3]);
    }
}

/// Whether two byte strings are the same.
pub(crate) fn same_bytes(a: &Vec<u8>, b: &Vec<u8>) -> (same: bool)
    ensures
        same == (a@ == b@),
{
    let same: bool = *a == *b;
    proof {
        if same {
            assert(a@ =~= b@);
        }
    }
    same
}

/// `byteorder::WriteBytesExt::write_u32` with `BigEndian`, on a `Vec<u8>`:
/// the four bytes of `n`, most significant first, are appended to `buf`.
/// Writing to a vector cannot fail.
#[verifier::external_body]
pub(crate) fn write_u32_be(buf: &mut Vec<u8>, n: u32)
    ensures
        final(buf)@ == old(buf)@ + u32_be(n),
{
    buf.write_u32::<BigEndian>(n).unwrap();
}

/// `byteorder::ReadBytesExt::read_u32` with `BigEndian`, on a cursor over
/// `bytes`: the number that the first four bytes stand for. With fewer than
/// four bytes the read fails, so they are required.
#[verifier::external_body]
pub(crate) fn read_u32_be(bytes: &[u8]) -> (n: u32)
    requires
        bytes@.len() >= 4,
    ensures
        n == u32_from_be(bytes@),
{
    let mut cursor = std::io::Cursor::new(bytes);
    cursor.read_u32::<BigEndian>().unwrap()
}

/// `byteorder::ReadBytesExt::read_u16` with `BigEndian`, on a cursor over
/// `bytes`: the number that the first two bytes stand for. With fewer than
/// two bytes the read fails, so they are required.
#[verifier::external_body]
pub(crate) fn read_u16_be(bytes: &[u8]) -> (n: u16)
    requires
        bytes@.len() >= 2,
    ensures
        n == u16_from_be(bytes@),
{
    let mut cursor = std::io::Cursor::new(bytes);
    cursor.read_u16::<BigEndian>().unwrap()
}

} // verus!
