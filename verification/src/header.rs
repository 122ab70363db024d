//! The on-disk header: a fixed 256-byte table holding, for every section
//! slot, a file offset, a load address and a size, plus the BSS descriptor
//! and the entry address. A header is a pure encoding artifact, produced
//! from an image at serialization time.

use vstd::prelude::*;

use crate::endian::{be_at, lemma_write_read, spec_write_u32, write_u32};
use crate::layout::{
    BSS_ADDRESS_OFFSET, BSS_SIZE_OFFSET, DATA_ADDRESSES_BASE, DATA_OFFSETS_BASE, DATA_SIZES_BASE,
    ENTRY_POINT_OFFSET, HEADER_FIELDS_END, HEADER_SIZE, MAX_DATA_SECTIONS, MAX_TEXT_SECTIONS,
    TEXT_ADDRESSES_BASE, TEXT_OFFSETS_BASE, TEXT_SIZES_BASE,
};

verus! {

/// The header's field tables. Each offsets, addresses and sizes vector
/// holds one entry per slot of its table, unused slots zero.
#[derive(Debug)]
pub struct DolHeader {
    pub text_section_offsets: Vec<u32>,
    pub data_section_offsets: Vec<u32>,
    pub text_section_addresses: Vec<u32>,
    pub data_section_addresses: Vec<u32>,
    pub text_section_sizes: Vec<u32>,
    pub data_section_sizes: Vec<u32>,
    pub bss_address: u32,
    pub bss_size: u32,
    pub entry_point: u32,
}

/// The mathematical value of a [`DolHeader`].
#[verifier::ext_equal]
pub ghost struct DolHeaderView {
    pub text_section_offsets: Seq<u32>,
    pub data_section_offsets: Seq<u32>,
    pub text_section_addresses: Seq<u32>,
    pub data_section_addresses: Seq<u32>,
    pub text_section_sizes: Seq<u32>,
    pub data_section_sizes: Seq<u32>,
    pub bss_address: u32,
    pub bss_size: u32,
    pub entry_point: u32,
}

impl View for DolHeader {
    type V = DolHeaderView;

    open spec fn view(&self) -> DolHeaderView {
        DolHeaderView {
            text_section_offsets: self.text_section_offsets@,
            data_section_offsets: self.data_section_offsets@,
            text_section_addresses: self.text_section_addresses@,
            data_section_addresses: self.data_section_addresses@,
            text_section_sizes: self.text_section_sizes@,
            data_section_sizes: self.data_section_sizes@,
            bss_address: self.bss_address,
            bss_size: self.bss_size,
            entry_point: self.entry_point,
        }
    }
}

impl DolHeaderView {
    /// Every table holds exactly one entry per slot of its on-disk table.
    pub open spec fn wf(self) -> bool {
        &&& self.text_section_offsets.len() == MAX_TEXT_SECTIONS
        &&& self.data_section_offsets.len() == MAX_DATA_SECTIONS
        &&& self.text_section_addresses.len() == MAX_TEXT_SECTIONS
        &&& self.data_section_addresses.len() == MAX_DATA_SECTIONS
        &&& self.text_section_sizes.len() == MAX_TEXT_SECTIONS
        &&& self.data_section_sizes.len() == MAX_DATA_SECTIONS
    }
}

/// All zero words, one per slot.
pub open spec fn zero_table(n: int) -> Seq<u32> {
    Seq::new(n as nat, |i: int| 0u32)
}

/// The bytes `b` hold every field of the header `h` at its fixed position,
/// big-endian, and zeros from the end of the fields to the end of the
/// header region. `b` may extend past the header; payload bytes are not
/// constrained.
pub open spec fn header_fields_match(h: DolHeaderView, b: Seq<u8>) -> bool {
    &&& b.len() >= HEADER_SIZE
    &&& forall|i: int|
        0 <= i < MAX_TEXT_SECTIONS ==> be_at(b, TEXT_OFFSETS_BASE + 4 * i)
            == #[trigger] h.text_section_offsets[i]
    &&& forall|i: int|
        0 <= i < MAX_DATA_SECTIONS ==> be_at(b, DATA_OFFSETS_BASE + 4 * i)
            == #[trigger] h.data_section_offsets[i]
    &&& forall|i: int|
        0 <= i < MAX_TEXT_SECTIONS ==> be_at(b, TEXT_ADDRESSES_BASE + 4 * i)
            == #[trigger] h.text_section_addresses[i]
    &&& forall|i: int|
        0 <= i < MAX_DATA_SECTIONS ==> be_at(b, DATA_ADDRESSES_BASE + 4 * i)
            == #[trigger] h.data_section_addresses[i]
    &&& forall|i: int|
        0 <= i < MAX_TEXT_SECTIONS ==> be_at(b, TEXT_SIZES_BASE + 4 * i)
            == #[trigger] h.text_section_sizes[i]
    &&& forall|i: int|
        0 <= i < MAX_DATA_SECTIONS ==> be_at(b, DATA_SIZES_BASE + 4 * i)
            == #[trigger] h.data_section_sizes[i]
    &&& be_at(b, BSS_ADDRESS_OFFSET as int) == h.bss_address
    &&& be_at(b, BSS_SIZE_OFFSET as int) == h.bss_size
    &&& be_at(b, ENTRY_POINT_OFFSET as int) == h.entry_point
    &&& forall|j: int| HEADER_FIELDS_END <= j < HEADER_SIZE ==> #[trigger] b[j] == 0u8
}

/// Bytes appended after a full header leave every header field in place.
pub proof fn lemma_fields_match_extend(h: DolHeaderView, hb: Seq<u8>, tail: Seq<u8>)
    requires
        hb.len() == HEADER_SIZE,
        header_fields_match(h, hb),
    ensures
        header_fields_match(h, hb + tail),
{
    assert forall|o: int| 0 <= o && o + 4 <= HEADER_SIZE implies be_at(hb + tail, o) == be_at(
        hb,
        o,
    ) by {
        assert((hb + tail)[o] == hb[o]);
        assert((hb + tail)[o + 1] == hb[o + 1]);
        assert((hb + tail)[o + 2] == hb[o + 2]);
        assert((hb + tail)[o + 3] == hb[o + 3]);
    }
    assert forall|j: int| HEADER_FIELDS_END <= j < HEADER_SIZE implies (hb + tail)[j] == 0u8 by {
        assert((hb + tail)[j] == hb[j]);
    }
}

/// A vector of `n` zero bytes.
fn zero_bytes(n: usize) -> (r: Vec<u8>)
    ensures
        r@ == Seq::new(n as nat, |i: int| 0u8),
{
    let mut v: Vec<u8> = Vec::new();
    let mut k: usize = 0;
    while k < n
        invariant
            k <= n,
            v@ == Seq::new(k as nat, |i: int| 0u8),
        decreases n - k,
    {
        v.push(0);
        k = k + 1;
        proof {
            assert(v@ =~= Seq::new(k as nat, |i: int| 0u8));
        }
    }
    v
}

/// A vector of `n` zero words.
fn zero_words(n: usize) -> (r: Vec<u32>)
    ensures
        r@ == zero_table(n as int),
{
    let mut v: Vec<u32> = Vec::new();
    let mut k: usize = 0;
    while k < n
        invariant
            k <= n,
            v@ == zero_table(k as int),
        decreases n - k,
    {
        v.push(0);
        k = k + 1;
        proof {
            assert(v@ =~= zero_table(k as int));
        }
    }
    v
}

/// Writes the words of `values` big-endian into `buf`, one after another
/// starting at `base`; bytes outside the written span keep their value.
fn write_table(buf: &mut Vec<u8>, base: usize, values: &Vec<u32>)
    requires
        base + 4 * values@.len() <= old(buf)@.len(),
    ensures
        final(buf)@.len() == old(buf)@.len(),
        forall|i: int|
            0 <= i < values@.len() ==> be_at(final(buf)@, base + 4 * i) == #[trigger] values@[i],
        forall|j: int|
            0 <= j < old(buf)@.len() && !(base <= j < base + 4 * values@.len())
                ==> #[trigger] final(buf)@[j] == old(buf)@[j],
        forall|o: int|
            0 <= o && o + 4 <= old(buf)@.len() && (o + 4 <= base || base + 4 * values@.len() <= o)
                ==> #[trigger] be_at(final(buf)@, o) == be_at(old(buf)@, o),
{
    let n = values.len();
    let bn = buf.len();
    let mut k: usize = 0;
    while k < n
        invariant
            k <= n,
            n == values@.len(),
            base + 4 * n <= bn,
            buf@.len() == bn,
            bn == old(buf)@.len(),
            forall|i: int| 0 <= i < k ==> be_at(buf@, base + 4 * i) == #[trigger] values@[i],
            forall|j: int|
                0 <= j < old(buf)@.len() && !(base <= j < base + 4 * k) ==> #[trigger] buf@[j]
                    == old(buf)@[j],
        decreases n - k,
    {
        let ghost prev = buf@;
        write_u32(buf, base + 4 * k, values[k]);
        proof {
            lemma_write_read(prev, base + 4 * k as int, values@[k as int]);
            assert forall|i: int| 0 <= i < k + 1 implies be_at(buf@, base + 4 * i)
                == values@[i] by {
                if i < k {
                    assert(buf@[base + 4 * i] == prev[base + 4 * i]);
                    assert(buf@[base + 4 * i + 1] == prev[base + 4 * i + 1]);
                    assert(buf@[base + 4 * i + 2] == prev[base + 4 * i + 2]);
                    assert(buf@[base + 4 * i + 3] == prev[base + 4 * i + 3]);
                    assert(be_at(prev, base + 4 * i) == values@[i]);
                }
            }
        }
        k = k + 1;
    }
    proof {
        assert forall|o: int|
            0 <= o && o + 4 <= old(buf)@.len() && (o + 4 <= base || base + 4 * values@.len()
                <= o) implies #[trigger] be_at(buf@, o) == be_at(old(buf)@, o) by {
            assert(buf@[o] == old(buf)@[o]);
            assert(buf@[o + 1] == old(buf)@[o + 1]);
            assert(buf@[o + 2] == old(buf)@[o + 2]);
            assert(buf@[o + 3] == old(buf)@[o + 3]);
        }
    }
}

impl DolHeader {
    /// An all-zero header: every slot of every table zero, BSS and entry
    /// fields zero.
    pub fn new() -> (r: DolHeader)
        ensures
            r@.wf(),
            r@.text_section_offsets == zero_table(MAX_TEXT_SECTIONS as int),
            r@.data_section_offsets == zero_table(MAX_DATA_SECTIONS as int),
            r@.text_section_addresses == zero_table(MAX_TEXT_SECTIONS as int),
            r@.data_section_addresses == zero_table(MAX_DATA_SECTIONS as int),
            r@.text_section_sizes == zero_table(MAX_TEXT_SECTIONS as int),
            r@.data_section_sizes == zero_table(MAX_DATA_SECTIONS as int),
            r@.bss_address == 0,
            r@.bss_size == 0,
            r@.entry_point == 0,
    {
        DolHeader {
            text_section_offsets: zero_words(MAX_TEXT_SECTIONS),
            data_section_offsets: zero_words(MAX_DATA_SECTIONS),
            text_section_addresses: zero_words(MAX_TEXT_SECTIONS),
            data_section_addresses: zero_words(MAX_DATA_SECTIONS),
            text_section_sizes: zero_words(MAX_TEXT_SECTIONS),
            data_section_sizes: zero_words(MAX_DATA_SECTIONS),
            bss_address: 0,
            bss_size: 0,
            entry_point: 0,
        }
    }

    /// Serializes the header into its fixed 256-byte on-disk form: the six
    /// field tables one after another, then the BSS address, BSS size and
    /// entry address, then zeros to the end of the header.
    pub fn to_bytes(&self) -> (r: Vec<u8>)
        requires
            self@.wf(),
        ensures
            r@.len() == HEADER_SIZE,
            header_fields_match(self@, r@),
    {
        let mut data = zero_bytes(HEADER_SIZE);
        let ghost b0 = data@;
        write_table(&mut data, TEXT_OFFSETS_BASE, &self.text_section_offsets);
        let ghost b1 = data@;
        write_table(&mut data, DATA_OFFSETS_BASE, &self.data_section_offsets);
        let ghost b2 = data@;
        write_table(&mut data, TEXT_ADDRESSES_BASE, &self.text_section_addresses);
        let ghost b3 = data@;
        write_table(&mut data, DATA_ADDRESSES_BASE, &self.data_section_addresses);
        let ghost b4 = data@;
        write_table(&mut data, TEXT_SIZES_BASE, &self.text_section_sizes);
        let ghost b5 = data@;
        write_table(&mut data, DATA_SIZES_BASE, &self.data_section_sizes);
        let ghost b6 = data@;
        write_u32(&mut data, BSS_ADDRESS_OFFSET, self.bss_address);
        write_u32(&mut data, BSS_SIZE_OFFSET, self.bss_size);
        write_u32(&mut data, ENTRY_POINT_OFFSET, self.entry_point);
        proof {
            assert forall|i: int| 0 <= i < MAX_TEXT_SECTIONS implies be_at(
                data@,
                TEXT_OFFSETS_BASE + 4 * i,
            ) == self@.text_section_offsets[i] by {
                assert(be_at(b1, TEXT_OFFSETS_BASE + 4 * i) == self@.text_section_offsets[i]);
            }
            assert forall|i: int| 0 <= i < MAX_DATA_SECTIONS implies be_at(
                data@,
                DATA_OFFSETS_BASE + 4 * i,
            ) == self@.data_section_offsets[i] by {
                assert(be_at(b2, DATA_OFFSETS_BASE + 4 * i) == self@.data_section_offsets[i]);
            }
            assert forall|i: int| 0 <= i < MAX_TEXT_SECTIONS implies be_at(
                data@,
                TEXT_ADDRESSES_BASE + 4 * i,
            ) == self@.text_section_addresses[i] by {
                assert(be_at(b3, TEXT_ADDRESSES_BASE + 4 * i) == self@.text_section_addresses[i]);
            }
            assert forall|i: int| 0 <= i < MAX_DATA_SECTIONS implies be_at(
                data@,
                DATA_ADDRESSES_BASE + 4 * i,
            ) == self@.data_section_addresses[i] by {
                assert(be_at(b4, DATA_ADDRESSES_BASE + 4 * i) == self@.data_section_addresses[i]);
            }
            assert forall|i: int| 0 <= i < MAX_TEXT_SECTIONS implies be_at(
                data@,
                TEXT_SIZES_BASE + 4 * i,
            ) == self@.text_section_sizes[i] by {
                assert(be_at(b5, TEXT_SIZES_BASE + 4 * i) == self@.text_section_sizes[i]);
            }
            assert forall|i: int| 0 <= i < MAX_DATA_SECTIONS implies be_at(
                data@,
                DATA_SIZES_BASE + 4 * i,
            ) == self@.data_section_sizes[i] by {
                assert(be_at(b6, DATA_SIZES_BASE + 4 * i) == self@.data_section_sizes[i]);
            }
            assert forall|j: int| HEADER_FIELDS_END <= j < HEADER_SIZE implies data@[j]
                == 0u8 by {
                assert(b0[j] == 0u8);
                assert(data@[j] == b0[j]);
            }
        }
        data
    }
}

} // verus!
