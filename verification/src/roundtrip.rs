//! The central law of the codec: decoding an encoded image yields the
//! image back — same section addresses, same section bytes, same order,
//! same BSS descriptor, same entry address.

use vstd::prelude::*;

use crate::codec::{
    encoded_len, encodes, header_of, parse_matches, parse_ok, slot_addresses, slot_in_bounds,
    slot_matches, slot_offsets, slot_sizes, table_count_from, table_ok_from,
};
use crate::endian::be_at;
use crate::header::header_fields_match;
use crate::image::{
    lemma_payload_len, lemma_payload_slice, lemma_total_len_take_le, lemma_total_len_take_succ,
    payload_of, total_len, DolFileView, SectionView,
};
use crate::layout::{
    BSS_ADDRESS_OFFSET, BSS_SIZE_OFFSET, DATA_ADDRESSES_BASE, DATA_OFFSETS_BASE, DATA_SIZES_BASE,
    ENTRY_POINT_OFFSET, HEADER_SIZE, MAX_DATA_SECTIONS, MAX_TEXT_SECTIONS, TEXT_ADDRESSES_BASE,
    TEXT_OFFSETS_BASE, TEXT_SIZES_BASE,
};

verus! {

/// A table whose size fields are nonzero up to slot `n` and zero at slot
/// `n` scans to exactly `n` sections.
proof fn lemma_table_count_pins(data: Seq<u8>, sizes: int, k: int, max: int, n: int)
    requires
        0 <= k <= n <= max,
        forall|j: int| k <= j < n ==> #[trigger] be_at(data, sizes + 4 * j) != 0,
        n < max ==> be_at(data, sizes + 4 * n) == 0,
    ensures
        table_count_from(data, sizes, k, max) == n,
    decreases n - k,
{
    if k < n {
        assert(be_at(data, sizes + 4 * k) != 0);
        lemma_table_count_pins(data, sizes, k + 1, max, n);
    }
}

/// A table whose reachable slots all declare in-bounds ranges scans
/// without falling off the buffer.
proof fn lemma_table_ok_pins(data: Seq<u8>, offs: int, sizes: int, k: int, max: int, n: int)
    requires
        0 <= k <= n <= max,
        forall|j: int| k <= j < n ==> #[trigger] be_at(data, sizes + 4 * j) != 0,
        n < max ==> be_at(data, sizes + 4 * n) == 0,
        forall|j: int| k <= j < n ==> #[trigger] slot_in_bounds(data, offs, sizes, j),
    ensures
        table_ok_from(data, offs, sizes, k, max),
    decreases n - k,
{
    if k < n {
        assert(be_at(data, sizes + 4 * k) != 0);
        assert(slot_in_bounds(data, offs, sizes, k));
        lemma_table_ok_pins(data, offs, sizes, k + 1, max, n);
    }
}

/// A table whose header fields describe the sections of `ss` — encoder
/// offsets from `base` on, the sections' addresses and sizes — over a
/// buffer that holds the payload of `ss` at `base`, decodes back to `ss`.
proof fn lemma_table_decodes(
    b: Seq<u8>,
    ss: Seq<SectionView>,
    offs: int,
    addrs: int,
    sizes: int,
    cap: int,
    base: int,
)
    requires
        0 <= ss.len() <= cap,
        forall|i: int| 0 <= i < ss.len() ==> 0 < #[trigger] ss[i].data.len(),
        0 <= base,
        base + total_len(ss) <= b.len(),
        base + total_len(ss) <= u32::MAX,
        forall|i: int|
            0 <= i < cap ==> be_at(b, offs + 4 * i) == #[trigger] slot_offsets(ss, base, cap)[i],
        forall|i: int|
            0 <= i < cap ==> be_at(b, addrs + 4 * i) == #[trigger] slot_addresses(ss, cap)[i],
        forall|i: int|
            0 <= i < cap ==> be_at(b, sizes + 4 * i) == #[trigger] slot_sizes(ss, cap)[i],
        b.subrange(base, base + total_len(ss)) == payload_of(ss),
    ensures
        table_ok_from(b, offs, sizes, 0, cap),
        table_count_from(b, sizes, 0, cap) == ss.len(),
        forall|j: int| 0 <= j < ss.len() ==> slot_matches(b, offs, addrs, sizes, j, #[trigger] ss[j]),
{
    let n = ss.len() as int;
    lemma_payload_len(ss);
    assert forall|i: int|
        #![trigger be_at(b, sizes + 4 * i)]
        0 <= i < n implies {
        &&& be_at(b, sizes + 4 * i) == ss[i].data.len()
        &&& be_at(b, sizes + 4 * i) != 0
        &&& be_at(b, offs + 4 * i) == base + total_len(ss.take(i))
        &&& slot_in_bounds(b, offs, sizes, i)
    } by {
        lemma_total_len_take_succ(ss, i);
        lemma_total_len_take_le(ss, i + 1);
        assert(slot_sizes(ss, cap)[i] == ss[i].data.len() as u32);
        assert(ss[i].data.len() <= u32::MAX);
        assert(slot_offsets(ss, base, cap)[i] == (base + total_len(ss.take(i))) as u32);
        assert(base + total_len(ss.take(i)) <= u32::MAX);
    }
    if n < cap {
        assert(slot_sizes(ss, cap)[n] == 0u32);
    }
    lemma_table_count_pins(b, sizes, 0, cap, n);
    lemma_table_ok_pins(b, offs, sizes, 0, cap, n);
    assert forall|j: int| 0 <= j < n implies slot_matches(b, offs, addrs, sizes, j, ss[j]) by {
        lemma_total_len_take_succ(ss, j);
        lemma_total_len_take_le(ss, j + 1);
        assert(slot_addresses(ss, cap)[j] == ss[j].address);
        let x = total_len(ss.take(j)) as int;
        let lj = ss[j].data.len() as int;
        lemma_payload_slice(ss, j);
        assert(b.subrange(base + x, base + x + lj) =~= b.subrange(base, base + total_len(ss)).subrange(
            x,
            x + lj,
        ));
        assert(b.subrange(base + x, base + x + lj) == ss[j].data);
    }
}

impl DolFileView {
    /// The inputs on which encoding succeeds and decoding is its inverse:
    /// section counts within the tables' capacity, no empty section (a
    /// zero size field would end the table scan early), and a total size
    /// that fits the 32-bit offset fields.
    pub open spec fn round_trip_ready(self) -> bool {
        &&& self.text_sections.len() <= MAX_TEXT_SECTIONS
        &&& self.data_sections.len() <= MAX_DATA_SECTIONS
        &&& forall|i: int|
            0 <= i < self.text_sections.len() ==> 0 < #[trigger] self.text_sections[i].data.len()
        &&& forall|i: int|
            0 <= i < self.data_sections.len() ==> 0 < #[trigger] self.data_sections[i].data.len()
        &&& encoded_len(self) <= u32::MAX
    }
}

/// Law: decoding an encoding of an image yields an image with the same
/// section addresses, the same section bytes in the same order, the same
/// BSS address and size, and the same entry address. It holds for every
/// image with at most 7 code and 11 data sections, none of them empty,
/// whose encoding fits the 32-bit offset fields.
pub proof fn lemma_round_trip(im: DolFileView, b: Seq<u8>)
    requires
        im.round_trip_ready(),
        encodes(im, b),
    ensures
        parse_ok(b),
        parse_matches(b, im),
{
    let tv = im.text_sections;
    let dv = im.data_sections;
    let h = header_of(im);
    lemma_payload_len(tv);
    lemma_payload_len(dv);
    let ptv = payload_of(tv);
    let pdv = payload_of(dv);
    assert(b.subrange(HEADER_SIZE as int, HEADER_SIZE + total_len(tv)) =~= ptv) by {
        assert(b.skip(HEADER_SIZE as int) == ptv + pdv);
        assert forall|q: int| 0 <= q < total_len(tv) implies b[HEADER_SIZE + q] == ptv[q] by {
            assert(b.skip(HEADER_SIZE as int)[q] == (ptv + pdv)[q]);
        }
    }
    let base2 = HEADER_SIZE + total_len(tv) as int;
    assert(b.subrange(base2, base2 + total_len(dv)) =~= pdv) by {
        assert(b.skip(HEADER_SIZE as int) == ptv + pdv);
        assert forall|q: int| 0 <= q < total_len(dv) implies b[base2 + q] == pdv[q] by {
            assert(b.skip(HEADER_SIZE as int)[total_len(tv) + q] == (ptv + pdv)[total_len(tv)
                + q]);
        }
    }
    assert forall|i: int|
        #![trigger slot_offsets(tv, HEADER_SIZE as int, MAX_TEXT_SECTIONS as int)[i]]
        #![trigger slot_addresses(tv, MAX_TEXT_SECTIONS as int)[i]]
        #![trigger slot_sizes(tv, MAX_TEXT_SECTIONS as int)[i]]
        0 <= i < MAX_TEXT_SECTIONS implies {
        &&& be_at(b, TEXT_OFFSETS_BASE + 4 * i) == slot_offsets(
            tv,
            HEADER_SIZE as int,
            MAX_TEXT_SECTIONS as int,
        )[i]
        &&& be_at(b, TEXT_ADDRESSES_BASE + 4 * i) == slot_addresses(tv, MAX_TEXT_SECTIONS as int)[i]
        &&& be_at(b, TEXT_SIZES_BASE + 4 * i) == slot_sizes(tv, MAX_TEXT_SECTIONS as int)[i]
    } by {
        assert(be_at(b, TEXT_OFFSETS_BASE + 4 * i) == h.text_section_offsets[i]);
        assert(be_at(b, TEXT_ADDRESSES_BASE + 4 * i) == h.text_section_addresses[i]);
        assert(be_at(b, TEXT_SIZES_BASE + 4 * i) == h.text_section_sizes[i]);
    }
    assert forall|i: int|
        #![trigger slot_offsets(dv, base2, MAX_DATA_SECTIONS as int)[i]]
        #![trigger slot_addresses(dv, MAX_DATA_SECTIONS as int)[i]]
        #![trigger slot_sizes(dv, MAX_DATA_SECTIONS as int)[i]]
        0 <= i < MAX_DATA_SECTIONS implies {
        &&& be_at(b, DATA_OFFSETS_BASE + 4 * i) == slot_offsets(
            dv,
            base2,
            MAX_DATA_SECTIONS as int,
        )[i]
        &&& be_at(b, DATA_ADDRESSES_BASE + 4 * i) == slot_addresses(dv, MAX_DATA_SECTIONS as int)[i]
        &&& be_at(b, DATA_SIZES_BASE + 4 * i) == slot_sizes(dv, MAX_DATA_SECTIONS as int)[i]
    } by {
        assert(be_at(b, DATA_OFFSETS_BASE + 4 * i) == h.data_section_offsets[i]);
        assert(be_at(b, DATA_ADDRESSES_BASE + 4 * i) == h.data_section_addresses[i]);
        assert(be_at(b, DATA_SIZES_BASE + 4 * i) == h.data_section_sizes[i]);
    }
    lemma_table_decodes(
        b,
        tv,
        TEXT_OFFSETS_BASE as int,
        TEXT_ADDRESSES_BASE as int,
        TEXT_SIZES_BASE as int,
        MAX_TEXT_SECTIONS as int,
        HEADER_SIZE as int,
    );
    lemma_table_decodes(
        b,
        dv,
        DATA_OFFSETS_BASE as int,
        DATA_ADDRESSES_BASE as int,
        DATA_SIZES_BASE as int,
        MAX_DATA_SECTIONS as int,
        base2,
    );
}

/// Law: what [`parse_matches`] describes is one image and one image only;
/// together with [`lemma_round_trip`], decoding an encoded image yields
/// exactly the image that was encoded.
pub proof fn lemma_parse_unique(data: Seq<u8>, a: DolFileView, b: DolFileView)
    requires
        parse_matches(data, a),
        parse_matches(data, b),
    ensures
        a == b,
{
    assert forall|j: int|
        0 <= j < a.text_sections.len() implies #[trigger] a.text_sections[j]
        == b.text_sections[j] by {
        assert(a.text_sections[j] =~= b.text_sections[j]);
    }
    assert forall|j: int|
        0 <= j < a.data_sections.len() implies #[trigger] a.data_sections[j]
        == b.data_sections[j] by {
        assert(a.data_sections[j] =~= b.data_sections[j]);
    }
    assert(a.text_sections =~= b.text_sections);
    assert(a.data_sections =~= b.data_sections);
    assert(a =~= b);
}

} // verus!
