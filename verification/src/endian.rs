//! Big-endian 32-bit words stored in byte buffers: the specification of the
//! encoding, proofs that encoding and decoding invert each other, and the
//! executable read and write routines that every other module builds on.

use vstd::prelude::*;

verus! {

/// The 32-bit word formed by four bytes, most significant byte first.
pub open spec fn be_word(b0: u8, b1: u8, b2: u8, b3: u8) -> u32 {
    ((b0 as u32) << 24) | ((b1 as u32) << 16) | ((b2 as u32) << 8) | (b3 as u32)
}

/// Byte `k` (0 = most significant) of the big-endian encoding of `v`.
pub open spec fn be_byte(v: u32, k: int) -> u8 {
    if k == 0 {
        ((v >> 24) & 0xff) as u8
    } else if k == 1 {
        ((v >> 16) & 0xff) as u8
    } else if k == 2 {
        ((v >> 8) & 0xff) as u8
    } else {
        (v & 0xff) as u8
    }
}

/// The four-byte big-endian encoding of `v`.
pub open spec fn be_bytes(v: u32) -> Seq<u8> {
    seq![be_byte(v, 0), be_byte(v, 1), be_byte(v, 2), be_byte(v, 3)]
}

/// The word stored big-endian at offset `off` of `data`.
pub open spec fn be_at(data: Seq<u8>, off: int) -> u32
    recommends
        0 <= off,
        off + 4 <= data.len(),
{
    be_word(data[off], data[off + 1], data[off + 2], data[off + 3])
}

/// Reassembling the four encoded bytes of a word gives the word back.
pub proof fn lemma_be_word_of_bytes(v: u32)
    ensures
        be_word(be_byte(v, 0), be_byte(v, 1), be_byte(v, 2), be_byte(v, 3)) == v,
{
    assert(((((((v >> 24) & 0xff) as u8) as u32) << 24) | (((((v >> 16) & 0xff) as u8) as u32)
        << 16) | (((((v >> 8) & 0xff) as u8) as u32) << 8) | (((v & 0xff) as u8) as u32)) == v)
        by (bit_vector);
}

/// `data` with the four bytes at `off` replaced by the big-endian encoding
/// of `v`, every other byte kept.
pub open spec fn spec_write_u32(data: Seq<u8>, off: int, v: u32) -> Seq<u8> {
    Seq::new(
        data.len(),
        |i: int|
            if off <= i < off + 4 {
                be_byte(v, i - off)
            } else {
                data[i]
            },
    )
}

/// Reads the word stored big-endian at `offset`.
pub fn read_u32(data: &[u8], offset: usize) -> (r: u32)
    requires
        offset + 4 <= data@.len(),
    ensures
        r == be_at(data@, offset as int),
{
    let b0 = data[offset];
    let b1 = data[offset + 1];
    let b2 = data[offset + 2];
    let b3 = data[offset + 3];
    ((b0 as u32) << 24) | ((b1 as u32) << 16) | ((b2 as u32) << 8) | (b3 as u32)
}

/// Overwrites the four bytes at `offset` with the big-endian encoding of
/// `value`, leaving every other byte unchanged.
pub fn write_u32(data: &mut Vec<u8>, offset: usize, value: u32)
    requires
        offset + 4 <= old(data)@.len(),
    ensures
        final(data)@ == spec_write_u32(old(data)@, offset as int, value),
        final(data)@.len() == old(data)@.len(),
        be_at(final(data)@, offset as int) == value,
        forall|j: int|
            0 <= j < old(data)@.len() && !(offset <= j < offset + 4)
                ==> #[trigger] final(data)@[j] == old(data)@[j],
        forall|o: int|
            0 <= o && o + 4 <= old(data)@.len() && (o + 4 <= offset || offset + 4 <= o)
                ==> #[trigger] be_at(final(data)@, o) == be_at(old(data)@, o),
{
    let n = data.len();
    assert(offset + 4 <= n);
    data[offset] = ((value >> 24) & 0xff) as u8;
    data[offset + 1] = ((value >> 16) & 0xff) as u8;
    data[offset + 2] = ((value >> 8) & 0xff) as u8;
    data[offset + 3] = (value & 0xff) as u8;
    proof {
        assert(data@ =~= spec_write_u32(old(data)@, offset as int, value));
        lemma_write_read(old(data)@, offset as int, value);
    }
}

/// Writing a word and reading it back at the same offset gives the word,
/// and no byte outside the written span changes.
pub proof fn lemma_write_read(data: Seq<u8>, off: int, v: u32)
    requires
        0 <= off,
        off + 4 <= data.len(),
    ensures
        spec_write_u32(data, off, v).len() == data.len(),
        be_at(spec_write_u32(data, off, v), off) == v,
        forall|i: int|
            0 <= i < data.len() && !(off <= i < off + 4) ==> #[trigger] spec_write_u32(
                data,
                off,
                v,
            )[i] == data[i],
{
    lemma_be_word_of_bytes(v);
}

} // verus!
