//! The in-memory representation of a program image: loaded sections with
//! their addresses, the BSS descriptor, and the entry address, together with
//! the mathematical view of an image and the merge operation.

use vstd::prelude::*;

verus! {

/// One loaded section: an owned byte buffer and the address it loads at.
/// It occupies the half-open address range
/// `[address, address + data.len())`.
#[derive(Debug)]
pub struct Section {
    pub address: u32,
    pub data: Vec<u8>,
}

/// The mathematical value of a [`Section`].
#[verifier::ext_equal]
pub ghost struct SectionView {
    pub address: u32,
    pub data: Seq<u8>,
}

impl View for Section {
    type V = SectionView;

    open spec fn view(&self) -> SectionView {
        SectionView { address: self.address, data: self.data@ }
    }
}

/// A decoded image: code sections and data sections in table order, the BSS
/// region (address and size only, never backed by bytes), and the entry
/// address.
#[derive(Debug)]
pub struct DolFile {
    pub text_sections: Vec<Section>,
    pub data_sections: Vec<Section>,
    pub bss_address: u32,
    pub bss_size: u32,
    pub entry_point: u32,
}

/// The mathematical value of a [`DolFile`].
#[verifier::ext_equal]
pub ghost struct DolFileView {
    pub text_sections: Seq<SectionView>,
    pub data_sections: Seq<SectionView>,
    pub bss_address: u32,
    pub bss_size: u32,
    pub entry_point: u32,
}

impl View for DolFile {
    type V = DolFileView;

    open spec fn view(&self) -> DolFileView {
        DolFileView {
            text_sections: self.text_sections@.map_values(|s: Section| s@),
            data_sections: self.data_sections@.map_values(|s: Section| s@),
            bss_address: self.bss_address,
            bss_size: self.bss_size,
            entry_point: self.entry_point,
        }
    }
}

/// Every section's buffer length fits the 32-bit size field of the header.
pub open spec fn sections_wf(ss: Seq<SectionView>) -> bool {
    forall|i: int| 0 <= i < ss.len() ==> #[trigger] ss[i].data.len() <= u32::MAX
}

impl DolFileView {
    /// The section invariant of the format: every buffer length fits a
    /// 32-bit size field.
    pub open spec fn wf(self) -> bool {
        &&& sections_wf(self.text_sections)
        &&& sections_wf(self.data_sections)
    }
}

/// The number of payload bytes the sections of `ss` contribute.
pub open spec fn total_len(ss: Seq<SectionView>) -> nat
    decreases ss.len(),
{
    if ss.len() == 0 {
        0
    } else {
        ss[0].data.len() + total_len(ss.drop_first())
    }
}

/// The payload bytes of `ss`: every section's buffer, concatenated in
/// order.
pub open spec fn payload_of(ss: Seq<SectionView>) -> Seq<u8>
    decreases ss.len(),
{
    if ss.len() == 0 {
        Seq::empty()
    } else {
        ss[0].data + payload_of(ss.drop_first())
    }
}

/// Appending one section adds its length to the payload length.
pub proof fn lemma_total_len_push(ss: Seq<SectionView>, s: SectionView)
    ensures
        total_len(ss.push(s)) == total_len(ss) + s.data.len(),
    decreases ss.len(),
{
    if ss.len() == 0 {
        assert(ss.push(s).drop_first() =~= ss);
    } else {
        assert(ss.push(s).drop_first() =~= ss.drop_first().push(s));
        lemma_total_len_push(ss.drop_first(), s);
    }
}

/// Appending one section appends its bytes to the payload.
pub proof fn lemma_payload_push(ss: Seq<SectionView>, s: SectionView)
    ensures
        payload_of(ss.push(s)) == payload_of(ss) + s.data,
    decreases ss.len(),
{
    if ss.len() == 0 {
        assert(ss.push(s).drop_first() =~= ss);
        assert(payload_of(ss.push(s)) =~= payload_of(ss) + s.data);
    } else {
        assert(ss.push(s).drop_first() =~= ss.drop_first().push(s));
        lemma_payload_push(ss.drop_first(), s);
        assert(payload_of(ss.push(s)) =~= payload_of(ss) + s.data);
    }
}

/// The payload holds exactly `total_len` bytes.
pub proof fn lemma_payload_len(ss: Seq<SectionView>)
    ensures
        payload_of(ss).len() == total_len(ss),
    decreases ss.len(),
{
    if ss.len() > 0 {
        lemma_payload_len(ss.drop_first());
    }
}

/// Extending a prefix by one section grows its payload length by that
/// section's length.
pub proof fn lemma_total_len_take_succ(ss: Seq<SectionView>, k: int)
    requires
        0 <= k < ss.len(),
    ensures
        total_len(ss.take(k + 1)) == total_len(ss.take(k)) + ss[k].data.len(),
{
    assert(ss.take(k + 1) =~= ss.take(k).push(ss[k]));
    lemma_total_len_push(ss.take(k), ss[k]);
}

/// Extending a prefix by one section appends that section's bytes to its
/// payload.
pub proof fn lemma_payload_take_succ(ss: Seq<SectionView>, k: int)
    requires
        0 <= k < ss.len(),
    ensures
        payload_of(ss.take(k + 1)) == payload_of(ss.take(k)) + ss[k].data,
{
    assert(ss.take(k + 1) =~= ss.take(k).push(ss[k]));
    lemma_payload_push(ss.take(k), ss[k]);
}

/// A prefix never contributes more payload than the whole sequence.
pub proof fn lemma_total_len_take_le(ss: Seq<SectionView>, k: int)
    requires
        0 <= k <= ss.len(),
    ensures
        total_len(ss.take(k)) <= total_len(ss),
    decreases ss.len() - k,
{
    if k == ss.len() {
        assert(ss.take(k) =~= ss);
    } else {
        lemma_total_len_take_succ(ss, k);
        lemma_total_len_take_le(ss, k + 1);
    }
}

/// Within the payload, section `j`'s bytes lie exactly after the bytes of
/// the sections before it.
pub proof fn lemma_payload_slice(ss: Seq<SectionView>, j: int)
    requires
        0 <= j < ss.len(),
    ensures
        payload_of(ss).subrange(
            total_len(ss.take(j)) as int,
            total_len(ss.take(j)) + ss[j].data.len() as int,
        ) == ss[j].data,
    decreases j,
{
    lemma_payload_len(ss);
    lemma_total_len_take_succ(ss, j);
    lemma_total_len_take_le(ss, j + 1);
    if j == 0 {
        assert(ss.take(0) =~= Seq::<SectionView>::empty());
        assert(payload_of(ss).subrange(0, ss[0].data.len() as int) =~= ss[0].data);
    } else {
        let tail = ss.drop_first();
        lemma_payload_slice(tail, j - 1);
        lemma_payload_len(tail);
        lemma_total_len_take_succ(tail, j - 1);
        lemma_total_len_take_le(tail, j);
        assert(ss.take(j).drop_first() =~= tail.take(j - 1));
        assert(ss.take(j)[0] == ss[0]);
        assert(total_len(ss.take(j)) == ss[0].data.len() + total_len(tail.take(j - 1)));
        let x = total_len(tail.take(j - 1)) as int;
        let l0 = ss[0].data.len() as int;
        let lj = ss[j].data.len() as int;
        assert(tail[j - 1] == ss[j]);
        assert(payload_of(ss).subrange(l0 + x, l0 + x + lj) =~= payload_of(tail).subrange(
            x,
            x + lj,
        ));
    }
}

impl Default for DolFile {
    /// The empty image: no sections, BSS and entry fields zero.
    fn default() -> (r: DolFile)
        ensures
            r@.text_sections.len() == 0,
            r@.data_sections.len() == 0,
            r@.bss_address == 0,
            r@.bss_size == 0,
            r@.entry_point == 0,
    {
        DolFile {
            text_sections: Vec::new(),
            data_sections: Vec::new(),
            bss_address: 0,
            bss_size: 0,
            entry_point: 0,
        }
    }
}

impl DolFile {
    /// Concatenates `other`'s code sections onto this image's, and likewise
    /// its data sections, preserving relative order within each group. The
    /// BSS fields and the entry address of this image are left unchanged.
    pub fn append(&mut self, other: DolFile)
        ensures
            final(self)@.text_sections == old(self)@.text_sections + other@.text_sections,
            final(self)@.data_sections == old(self)@.data_sections + other@.data_sections,
            final(self)@.bss_address == old(self)@.bss_address,
            final(self)@.bss_size == old(self)@.bss_size,
            final(self)@.entry_point == old(self)@.entry_point,
    {
        let mut other = other;
        let ghost incoming = other@;
        self.text_sections.append(&mut other.text_sections);
        self.data_sections.append(&mut other.data_sections);
        proof {
            assert(self@.text_sections =~= old(self)@.text_sections + incoming.text_sections);
            assert(self@.data_sections =~= old(self)@.data_sections + incoming.data_sections);
        }
    }
}

} // verus!
