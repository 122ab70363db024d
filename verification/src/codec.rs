//! Decoding a raw byte buffer into an image and encoding an image back
//! into the on-disk layout, with the mathematical model both directions
//! share: how a section table is scanned, when a buffer is well-formed,
//! and what bytes an encoded image consists of.

use vstd::prelude::*;

use crate::endian::{be_at, read_u32};
use crate::error::DolError;
use crate::header::{header_fields_match, lemma_fields_match_extend, DolHeader, DolHeaderView};
use crate::image::{
    lemma_payload_len, lemma_payload_take_succ, lemma_total_len_take_le, lemma_total_len_take_succ,
    payload_of, total_len, DolFile, DolFileView, Section, SectionView,
};
use crate::layout::{
    BSS_ADDRESS_OFFSET, BSS_SIZE_OFFSET, DATA_ADDRESSES_BASE, DATA_OFFSETS_BASE, DATA_SIZES_BASE,
    ENTRY_POINT_OFFSET, HEADER_SIZE, MAX_DATA_SECTIONS, MAX_TEXT_SECTIONS, TEXT_ADDRESSES_BASE,
    TEXT_OFFSETS_BASE, TEXT_SIZES_BASE,
};
use vstd::slice::{slice_subrange, slice_to_vec};

verus! {

/// The number of sections a table scan yields when the scan has already
/// passed the first `k` slots: the scan stops at the first slot whose size
/// field is zero, and at `max` slots at the latest.
pub open spec fn table_count_from(data: Seq<u8>, sizes: int, k: int, max: int) -> int
    decreases max - k,
{
    if k >= max {
        max
    } else if be_at(data, sizes + 4 * k) == 0 {
        k
    } else {
        table_count_from(data, sizes, k + 1, max)
    }
}

/// The number of sections a full scan of a table yields.
pub open spec fn table_count(data: Seq<u8>, sizes: int, max: int) -> int {
    table_count_from(data, sizes, 0, max)
}

/// Slot `j`'s declared byte range lies inside the buffer.
pub open spec fn slot_in_bounds(data: Seq<u8>, offs: int, sizes: int, j: int) -> bool {
    be_at(data, offs + 4 * j) + be_at(data, sizes + 4 * j) <= data.len()
}

/// Every slot the scan reaches from `k` on declares an in-bounds range.
pub open spec fn table_ok_from(data: Seq<u8>, offs: int, sizes: int, k: int, max: int) -> bool
    decreases max - k,
{
    if k >= max {
        true
    } else if be_at(data, sizes + 4 * k) == 0 {
        true
    } else {
        slot_in_bounds(data, offs, sizes, k) && table_ok_from(data, offs, sizes, k + 1, max)
    }
}

/// Every slot a full scan of the table reaches declares an in-bounds range.
pub open spec fn table_ok(data: Seq<u8>, offs: int, sizes: int, max: int) -> bool {
    table_ok_from(data, offs, sizes, 0, max)
}

/// The section decoded from slot `j`: the address field names its load
/// address, and its bytes are the `size` bytes at file position `offset`.
pub open spec fn slot_matches(
    data: Seq<u8>,
    offs: int,
    addrs: int,
    sizes: int,
    j: int,
    s: SectionView,
) -> bool {
    &&& s.address == be_at(data, addrs + 4 * j)
    &&& s.data == data.subrange(
        be_at(data, offs + 4 * j) as int,
        be_at(data, offs + 4 * j) + be_at(data, sizes + 4 * j),
    )
}

/// `ss` is exactly the section sequence a scan of this table yields.
pub open spec fn table_matches(
    data: Seq<u8>,
    offs: int,
    addrs: int,
    sizes: int,
    max: int,
    ss: Seq<SectionView>,
) -> bool {
    &&& ss.len() == table_count(data, sizes, max)
    &&& forall|j: int|
        #![trigger ss[j]]
        0 <= j < ss.len() ==> slot_matches(data, offs, addrs, sizes, j, ss[j])
}

/// The buffer can be decoded: it holds a full header, and every section
/// slot the two table scans reach declares a byte range inside the buffer.
pub open spec fn parse_ok(data: Seq<u8>) -> bool {
    &&& data.len() >= HEADER_SIZE
    &&& table_ok(data, TEXT_OFFSETS_BASE as int, TEXT_SIZES_BASE as int, MAX_TEXT_SECTIONS as int)
    &&& table_ok(data, DATA_OFFSETS_BASE as int, DATA_SIZES_BASE as int, MAX_DATA_SECTIONS as int)
}

/// `im` is exactly the image decoded from `data`: both section tables, the
/// BSS descriptor and the entry address.
pub open spec fn parse_matches(data: Seq<u8>, im: DolFileView) -> bool {
    &&& table_matches(
        data,
        TEXT_OFFSETS_BASE as int,
        TEXT_ADDRESSES_BASE as int,
        TEXT_SIZES_BASE as int,
        MAX_TEXT_SECTIONS as int,
        im.text_sections,
    )
    &&& table_matches(
        data,
        DATA_OFFSETS_BASE as int,
        DATA_ADDRESSES_BASE as int,
        DATA_SIZES_BASE as int,
        MAX_DATA_SECTIONS as int,
        im.data_sections,
    )
    &&& im.bss_address == be_at(data, BSS_ADDRESS_OFFSET as int)
    &&& im.bss_size == be_at(data, BSS_SIZE_OFFSET as int)
    &&& im.entry_point == be_at(data, ENTRY_POINT_OFFSET as int)
}

/// The file offsets the encoder assigns to the sections of `ss`, one per
/// slot of a table of `cap` slots: sections are packed one after another
/// from `start` on, and unused slots are zero.
pub open spec fn slot_offsets(ss: Seq<SectionView>, start: int, cap: int) -> Seq<u32> {
    Seq::new(
        cap as nat,
        |i: int|
            if 0 <= i < ss.len() {
                (start + total_len(ss.take(i))) as u32
            } else {
                0u32
            },
    )
}

/// The load addresses of the sections of `ss`, unused slots zero.
pub open spec fn slot_addresses(ss: Seq<SectionView>, cap: int) -> Seq<u32> {
    Seq::new(
        cap as nat,
        |i: int|
            if 0 <= i < ss.len() {
                ss[i].address
            } else {
                0u32
            },
    )
}

/// The buffer lengths of the sections of `ss`, unused slots zero.
pub open spec fn slot_sizes(ss: Seq<SectionView>, cap: int) -> Seq<u32> {
    Seq::new(
        cap as nat,
        |i: int|
            if 0 <= i < ss.len() {
                ss[i].data.len() as u32
            } else {
                0u32
            },
    )
}

/// The header the encoder derives from an image: recomputed file offsets,
/// the sections' own addresses and sizes, and the image's BSS and entry
/// fields.
pub open spec fn header_of(im: DolFileView) -> DolHeaderView {
    DolHeaderView {
        text_section_offsets: slot_offsets(im.text_sections, HEADER_SIZE as int, MAX_TEXT_SECTIONS as int),
        data_section_offsets: slot_offsets(
            im.data_sections,
            HEADER_SIZE + total_len(im.text_sections),
            MAX_DATA_SECTIONS as int,
        ),
        text_section_addresses: slot_addresses(im.text_sections, MAX_TEXT_SECTIONS as int),
        data_section_addresses: slot_addresses(im.data_sections, MAX_DATA_SECTIONS as int),
        text_section_sizes: slot_sizes(im.text_sections, MAX_TEXT_SECTIONS as int),
        data_section_sizes: slot_sizes(im.data_sections, MAX_DATA_SECTIONS as int),
        bss_address: im.bss_address,
        bss_size: im.bss_size,
        entry_point: im.entry_point,
    }
}

/// How many bytes the encoding of `im` occupies: the header plus every
/// section's bytes.
pub open spec fn encoded_len(im: DolFileView) -> int {
    HEADER_SIZE + total_len(im.text_sections) + total_len(im.data_sections)
}

/// `b` is the encoding of `im`: the derived header in its 256-byte on-disk
/// form, followed by the code sections' bytes in order, followed by the
/// data sections' bytes in order, with no padding between sections.
pub open spec fn encodes(im: DolFileView, b: Seq<u8>) -> bool {
    &&& b.len() == encoded_len(im)
    &&& header_fields_match(header_of(im), b)
    &&& b.skip(HEADER_SIZE as int) == payload_of(im.text_sections) + payload_of(im.data_sections)
}

/// Appends a copy of `src`'s bytes to `dst`.
fn push_bytes(dst: &mut Vec<u8>, src: &Vec<u8>)
    ensures
        final(dst)@ == old(dst)@ + src@,
{
    let n = src.len();
    let mut k: usize = 0;
    proof {
        assert(dst@ =~= old(dst)@ + src@.take(0));
    }
    while k < n
        invariant
            k <= n,
            n == src@.len(),
            dst@ == old(dst)@ + src@.take(k as int),
        decreases n - k,
    {
        let b = src[k];
        dst.push(b);
        k = k + 1;
        proof {
            assert(dst@ =~= old(dst)@ + src@.take(k as int));
        }
    }
    proof {
        assert(src@.take(n as int) =~= src@);
    }
}

/// Appends zero words until `v` holds `n` entries.
fn pad_words(v: &mut Vec<u32>, n: usize)
    requires
        old(v)@.len() <= n,
    ensures
        final(v)@.len() == n,
        forall|k: int| 0 <= k < old(v)@.len() ==> #[trigger] final(v)@[k] == old(v)@[k],
        forall|k: int| old(v)@.len() <= k < n ==> #[trigger] final(v)@[k] == 0u32,
{
    while v.len() < n
        invariant
            old(v)@.len() <= v@.len() <= n,
            forall|k: int| 0 <= k < old(v)@.len() ==> #[trigger] v@[k] == old(v)@[k],
            forall|k: int| old(v)@.len() <= k < v@.len() ==> #[trigger] v@[k] == 0u32,
        decreases n - v.len(),
    {
        v.push(0);
    }
}

/// Scans one section table: reads slot fields in table order, stops at the
/// first zero size, and copies each remaining slot's declared byte range
/// into an owned section buffer.
fn read_sections(
    data: &[u8],
    offsets_offset: usize,
    addresses_offset: usize,
    lengths_offset: usize,
    max: usize,
) -> (r: Result<Vec<Section>, DolError>)
    requires
        offsets_offset + 4 * max <= data@.len(),
        addresses_offset + 4 * max <= data@.len(),
        lengths_offset + 4 * max <= data@.len(),
    ensures
        (r is Ok) <==> table_ok(
            data@,
            offsets_offset as int,
            lengths_offset as int,
            max as int,
        ),
        (r matches Ok(sections) ==> table_matches(
            data@,
            offsets_offset as int,
            addresses_offset as int,
            lengths_offset as int,
            max as int,
            sections@.map_values(|s: Section| s@),
        )),
        (r matches Ok(sections) ==> forall|j: int|
            0 <= j < sections@.len() ==> #[trigger] sections@[j]@.data.len() <= u32::MAX),
        (r matches Err(e) ==> e is Truncated),
{
    let dlen = data.len();
    let ghost offs = offsets_offset as int;
    let ghost addrs = addresses_offset as int;
    let ghost sizes = lengths_offset as int;
    let mut sections: Vec<Section> = Vec::new();
    let mut i: usize = 0;
    while i < max
        invariant
            i <= max,
            offs == offsets_offset as int,
            addrs == addresses_offset as int,
            sizes == lengths_offset as int,
            dlen == data@.len(),
            offsets_offset + 4 * max <= dlen,
            addresses_offset + 4 * max <= dlen,
            lengths_offset + 4 * max <= dlen,
            sections@.len() == i,
            table_count_from(data@, sizes, 0, max as int) == table_count_from(
                data@,
                sizes,
                i as int,
                max as int,
            ),
            table_ok_from(data@, offs, sizes, 0, max as int) == table_ok_from(
                data@,
                offs,
                sizes,
                i as int,
                max as int,
            ),
            forall|j: int|
                #![trigger sections@[j]]
                0 <= j < i ==> slot_matches(data@, offs, addrs, sizes, j, sections@[j]@),
            forall|j: int| 0 <= j < i ==> #[trigger] sections@[j]@.data.len() <= u32::MAX,
        decreases max - i,
    {
        let offset = read_u32(data, offsets_offset + 4 * i);
        let address = read_u32(data, addresses_offset + 4 * i);
        let length = read_u32(data, lengths_offset + 4 * i);
        if length == 0 {
            proof {
                assert(be_at(data@, sizes + 4 * i) == 0);
                assert(table_count_from(data@, sizes, i as int, max as int) == i);
                assert(table_ok_from(data@, offs, sizes, i as int, max as int));
                let mapped = sections@.map_values(|s: Section| s@);
                assert forall|j: int| #![trigger mapped[j]] 0 <= j < mapped.len() implies
                    slot_matches(data@, offs, addrs, sizes, j, mapped[j]) by {
                    assert(mapped[j] == sections@[j]@);
                }
            }
            return Ok(sections);
        }
        let needed: u64 = offset as u64 + length as u64;
        if needed > dlen as u64 {
            proof {
                assert(!slot_in_bounds(data@, offs, sizes, i as int));
                assert(!table_ok_from(data@, offs, sizes, i as int, max as int));
            }
            return Err(DolError::Truncated { needed, available: dlen as u64 });
        }
        let start = offset as usize;
        let end = start + length as usize;
        let section_data = slice_to_vec(slice_subrange(data, start, end));
        let section = Section { address, data: section_data };
        sections.push(section);
        proof {
            assert(table_count_from(data@, sizes, i as int, max as int) == table_count_from(
                data@,
                sizes,
                i as int + 1,
                max as int,
            ));
            assert(table_ok_from(data@, offs, sizes, i as int, max as int) == table_ok_from(
                data@,
                offs,
                sizes,
                i as int + 1,
                max as int,
            ));
        }
        i = i + 1;
    }
    proof {
        assert(table_count_from(data@, sizes, max as int, max as int) == max);
        assert(table_ok_from(data@, offs, sizes, max as int, max as int));
        let mapped = sections@.map_values(|s: Section| s@);
        assert forall|j: int| #![trigger mapped[j]] 0 <= j < mapped.len() implies
            slot_matches(data@, offs, addrs, sizes, j, mapped[j]) by {
            assert(mapped[j] == sections@[j]@);
        }
    }
    Ok(sections)
}

impl DolFile {
    /// Decodes a raw container. Succeeds exactly when the buffer holds a
    /// full 256-byte header and every section slot reached by the two
    /// table scans declares a byte range inside the buffer; the decoded
    /// image is then exactly what [`parse_matches`] describes. A buffer
    /// that is too short or refers past its end is reported as truncated.
    pub fn parse(data: &[u8]) -> (r: Result<DolFile, DolError>)
        ensures
            (r is Ok) <==> parse_ok(data@),
            (r matches Ok(im) ==> parse_matches(data@, im@)),
            (r matches Ok(im) ==> im@.wf()),
            (r matches Err(e) ==> e is Truncated),
    {
        let n = data.len();
        if n < HEADER_SIZE {
            return Err(
                DolError::Truncated { needed: HEADER_SIZE as u64, available: n as u64 },
            );
        }
        let text_sections = match read_sections(
            data,
            TEXT_OFFSETS_BASE,
            TEXT_ADDRESSES_BASE,
            TEXT_SIZES_BASE,
            MAX_TEXT_SECTIONS,
        ) {
            Ok(v) => v,
            Err(e) => {
                return Err(e);
            },
        };
        let data_sections = match read_sections(
            data,
            DATA_OFFSETS_BASE,
            DATA_ADDRESSES_BASE,
            DATA_SIZES_BASE,
            MAX_DATA_SECTIONS,
        ) {
            Ok(v) => v,
            Err(e) => {
                return Err(e);
            },
        };
        let bss_address = read_u32(data, BSS_ADDRESS_OFFSET);
        let bss_size = read_u32(data, BSS_SIZE_OFFSET);
        let entry_point = read_u32(data, ENTRY_POINT_OFFSET);
        let image = DolFile { text_sections, data_sections, bss_address, bss_size, entry_point };
        proof {
            assert forall|i: int|
                0 <= i < image@.text_sections.len() implies #[trigger] image@.text_sections[i].data.len()
                <= u32::MAX by {
                assert(image@.text_sections[i] == image.text_sections@[i]@);
            }
            assert forall|i: int|
                0 <= i < image@.data_sections.len() implies #[trigger] image@.data_sections[i].data.len()
                <= u32::MAX by {
                assert(image@.data_sections[i] == image.data_sections@[i]@);
            }
        }
        Ok(image)
    }

    /// Serializes the image: a 256-byte header derived from the sections,
    /// then every code section's bytes, then every data section's bytes,
    /// packed with no padding. Succeeds exactly when both section counts
    /// fit their tables; more sections than slots is a capacity overflow.
    /// The encoding must fit 32-bit offset fields, which bounds the total
    /// size.
    pub fn to_bytes(&self) -> (r: Result<Vec<u8>, DolError>)
        requires
            encoded_len(self@) <= u32::MAX,
        ensures
            (r is Ok) <==> (self@.text_sections.len() <= MAX_TEXT_SECTIONS
                && self@.data_sections.len() <= MAX_DATA_SECTIONS),
            (r matches Ok(bytes) ==> encodes(self@, bytes@)),
            (r matches Err(e) ==> e is CapacityOverflow),
    {
        let ghost tv = self@.text_sections;
        let ghost dv = self@.data_sections;
        let tn = self.text_sections.len();
        if tn > MAX_TEXT_SECTIONS {
            return Err(DolError::CapacityOverflow { count: tn, capacity: MAX_TEXT_SECTIONS });
        }
        let dn = self.data_sections.len();
        if dn > MAX_DATA_SECTIONS {
            return Err(DolError::CapacityOverflow { count: dn, capacity: MAX_DATA_SECTIONS });
        }
        let mut text_offsets: Vec<u32> = Vec::new();
        let mut text_addresses: Vec<u32> = Vec::new();
        let mut text_sizes: Vec<u32> = Vec::new();
        let mut data_offsets: Vec<u32> = Vec::new();
        let mut data_addresses: Vec<u32> = Vec::new();
        let mut data_sizes: Vec<u32> = Vec::new();
        let mut payload: Vec<u8> = Vec::new();
        let mut offset: u32 = HEADER_SIZE as u32;
        let mut i: usize = 0;
        proof {
            assert(tv.take(0) =~= Seq::<SectionView>::empty());
            assert(payload@ =~= payload_of(tv.take(0)));
        }
        while i < tn
            invariant
                i <= tn,
                tn == tv.len(),
                tn <= MAX_TEXT_SECTIONS,
                tv == self@.text_sections,
                dv == self@.data_sections,
                encoded_len(self@) <= u32::MAX,
                text_offsets@.len() == i,
                text_addresses@.len() == i,
                text_sizes@.len() == i,
                offset == HEADER_SIZE + total_len(tv.take(i as int)),
                payload@ == payload_of(tv.take(i as int)),
                forall|k: int|
                    0 <= k < i ==> #[trigger] text_offsets@[k] == (HEADER_SIZE + total_len(
                        tv.take(k),
                    )) as u32,
                forall|k: int| 0 <= k < i ==> #[trigger] text_addresses@[k] == tv[k].address,
                forall|k: int|
                    0 <= k < i ==> #[trigger] text_sizes@[k] == tv[k].data.len() as u32,
            decreases tn - i,
        {
            let section = &self.text_sections[i];
            let slen = section.data.len();
            proof {
                lemma_total_len_take_succ(tv, i as int);
                lemma_total_len_take_le(tv, i as int + 1);
            }
            text_offsets.push(offset);
            text_addresses.push(section.address);
            text_sizes.push(slen as u32);
            push_bytes(&mut payload, &section.data);
            proof {
                lemma_payload_take_succ(tv, i as int);
            }
            offset = offset + slen as u32;
            i = i + 1;
        }
        proof {
            assert(tv.take(tn as int) =~= tv);
            assert(dv.take(0) =~= Seq::<SectionView>::empty());
            assert(payload_of(dv.take(0)) =~= Seq::<u8>::empty());
            assert(payload@ =~= payload_of(tv) + payload_of(dv.take(0)));
        }
        let mut j: usize = 0;
        while j < dn
            invariant
                j <= dn,
                dn == dv.len(),
                dn <= MAX_DATA_SECTIONS,
                tv == self@.text_sections,
                dv == self@.data_sections,
                encoded_len(self@) <= u32::MAX,
                data_offsets@.len() == j,
                data_addresses@.len() == j,
                data_sizes@.len() == j,
                offset == HEADER_SIZE + total_len(tv) + total_len(dv.take(j as int)),
                payload@ == payload_of(tv) + payload_of(dv.take(j as int)),
                forall|k: int|
                    0 <= k < j ==> #[trigger] data_offsets@[k] == (HEADER_SIZE + total_len(tv)
                        + total_len(dv.take(k))) as u32,
                forall|k: int| 0 <= k < j ==> #[trigger] data_addresses@[k] == dv[k].address,
                forall|k: int|
                    0 <= k < j ==> #[trigger] data_sizes@[k] == dv[k].data.len() as u32,
            decreases dn - j,
        {
            let section = &self.data_sections[j];
            let slen = section.data.len();
            proof {
                lemma_total_len_take_succ(dv, j as int);
                lemma_total_len_take_le(dv, j as int + 1);
            }
            data_offsets.push(offset);
            data_addresses.push(section.address);
            data_sizes.push(slen as u32);
            push_bytes(&mut payload, &section.data);
            proof {
                lemma_payload_take_succ(dv, j as int);
            }
            offset = offset + slen as u32;
            j = j + 1;
        }
        pad_words(&mut text_offsets, MAX_TEXT_SECTIONS);
        pad_words(&mut text_addresses, MAX_TEXT_SECTIONS);
        pad_words(&mut text_sizes, MAX_TEXT_SECTIONS);
        pad_words(&mut data_offsets, MAX_DATA_SECTIONS);
        pad_words(&mut data_addresses, MAX_DATA_SECTIONS);
        pad_words(&mut data_sizes, MAX_DATA_SECTIONS);
        let header = DolHeader {
            text_section_offsets: text_offsets,
            data_section_offsets: data_offsets,
            text_section_addresses: text_addresses,
            data_section_addresses: data_addresses,
            text_section_sizes: text_sizes,
            data_section_sizes: data_sizes,
            bss_address: self.bss_address,
            bss_size: self.bss_size,
            entry_point: self.entry_point,
        };
        proof {
            assert(dv.take(dn as int) =~= dv);
            assert(header@.text_section_offsets =~= header_of(self@).text_section_offsets);
            assert(header@.data_section_offsets =~= header_of(self@).data_section_offsets);
            assert(header@.text_section_addresses =~= header_of(self@).text_section_addresses);
            assert(header@.data_section_addresses =~= header_of(self@).data_section_addresses);
            assert(header@.text_section_sizes =~= header_of(self@).text_section_sizes);
            assert(header@.data_section_sizes =~= header_of(self@).data_section_sizes);
            assert(header@ =~= header_of(self@));
        }
        let mut bytes = header.to_bytes();
        let ghost hb = bytes@;
        push_bytes(&mut bytes, &payload);
        proof {
            lemma_fields_match_extend(header_of(self@), hb, payload@);
            lemma_payload_len(tv);
            lemma_payload_len(dv);
            assert(bytes@.skip(HEADER_SIZE as int) =~= payload_of(tv) + payload_of(dv));
        }
        Ok(bytes)
    }
}

} // verus!
