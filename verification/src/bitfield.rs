//! Byte-packed set of piece indices, most significant bit first.

use vstd::prelude::*;

verus! {

/// The pieces a peer claims to have: bit `i` lives in byte `i / 8`, at bit
/// position `7 - i % 8`.
pub type Bitfield = Vec<u8>;

/// Whether the bit at `offset` (0 is the most significant) is set in `byte`.
pub open spec fn bit_of(byte: u8, offset: int) -> bool
    recommends
        0 <= offset < 8,
{
    (byte >> ((7 - offset) as u8)) & 1u8 != 0
}

/// `byte` with the bit at `offset` (0 is the most significant) set.
pub open spec fn with_bit(byte: u8, offset: int) -> u8
    recommends
        0 <= offset < 8,
{
    byte | (1u8 << ((7 - offset) as u8))
}

/// Whether `index` is a member of the set that `bits` packs. An index past the
/// last byte is not a member.
pub open spec fn has_bit(bits: Seq<u8>, index: int) -> bool {
    0 <= index < 8 * bits.len() && bit_of(bits[index / 8], index % 8)
}

/// The packed set `bits` after `index` has been added. An index past the last
/// byte leaves the set as it is.
pub open spec fn set_bit(bits: Seq<u8>, index: int) -> Seq<u8> {
    if 0 <= index < 8 * bits.len() {
        bits.update(index / 8, with_bit(bits[index / 8], index % 8))
    } else {
        bits
    }
}

proof fn lemma_with_bit(byte: u8, set: u8, read: u8)
    requires
        set < 8,
        read < 8,
    ensures
        bit_of(with_bit(byte, set as int), read as int) == (set == read || bit_of(
            byte,
            read as int,
        )),
{
    let s: u8 = (7 - set) as u8;
    let r: u8 = (7 - read) as u8;
    assert(((byte | (1u8 << s)) >> r) & 1u8 != 0 <==> (s == r || (byte >> r) & 1u8 != 0))
        by (bit_vector)
        requires
            s < 8,
            r < 8,
    ;
}

/// Adding `index` to a packed set makes `index` a member, if it lies within
/// the set's bytes, and changes the membership of no other index.
pub proof fn lemma_set_then_has(bits: Seq<u8>, index: int, other: int)
    ensures
        set_bit(bits, index).len() == bits.len(),
        0 <= index < 8 * bits.len() ==> has_bit(set_bit(bits, index), index),
        other != index ==> has_bit(set_bit(bits, index), other) == has_bit(bits, other),
        has_bit(bits, other) ==> has_bit(set_bit(bits, index), other),
{
    if 0 <= index < 8 * bits.len() {
        let byte = bits[index / 8];
        lemma_with_bit(byte, (index % 8) as u8, (index % 8) as u8);
        if 0 <= other < 8 * bits.len() && other / 8 == index / 8 {
            lemma_with_bit(byte, (index % 8) as u8, (other % 8) as u8);
        }
    }
}

/// Whether the peer has piece `index`. Reading past the end of the bitfield
/// answers `false`; the bitfield is left as it was.
pub fn has_piece(bf: &mut Bitfield, index: usize) -> (present: bool)
    ensures
        final(bf)@ == old(bf)@,
        present == has_bit(old(bf)@, index as int),
        index >= 8 * old(bf)@.len() ==> !present,
{
    let byte_index: usize = index / 8;
    let offset: usize = index % 8;
    if byte_index >= bf.len() {
        false
    } else {
        let shift: u8 = (7 - offset) as u8;
        (bf[byte_index] >> shift) & 1u8 != 0
    }
}

/// A copy of `bf` in which piece `index` is marked as present. An index past
/// the end of the bitfield is ignored.
pub fn set_piece(bf: &Bitfield, index: usize) -> (newbf: Bitfield)
    ensures
        newbf@ == set_bit(bf@, index as int),
        newbf@.len() == bf@.len(),
        forall|i: int|
            has_bit(newbf@, i) == (has_bit(bf@, i) || (i == index && i < 8 * bf@.len())),
{
    let byte_index: usize = index / 8;
    let offset: usize = index % 8;
    let mut newbf: Vec<u8> = bf.clone();
    if byte_index < newbf.len() {
        let shift: u8 = (7 - offset) as u8;
        assert(shift < 8);
        let byte: u8 = newbf[byte_index] | (1u8 << shift);
        newbf.set(byte_index, byte);
    }
    assert forall|i: int|
        has_bit(newbf@, i) == (has_bit(bf@, i) || (i == index && i < 8 * bf@.len())) by {
        lemma_set_then_has(bf@, index as int, i);
    }
    newbf
}

} // verus!
