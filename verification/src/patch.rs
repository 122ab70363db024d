//! Applying word-sized edits to an image: each edit names an absolute
//! address and a 32-bit value; the patcher resolves the address to the
//! owning section — code sections first, then data sections, in table
//! order — and overwrites four bytes in place, big-endian. A batch is
//! processed in order and aborts at the first edit that cannot be placed;
//! earlier edits of the batch stay applied.

use vstd::prelude::*;

use crate::endian::{spec_write_u32, write_u32};
use crate::error::DolError;
use crate::image::{DolFile, DolFileView, Section, SectionView};

verus! {

/// One patch request: write `data` at absolute address `address`,
/// big-endian.
#[derive(Debug)]
pub struct Instruction {
    pub address: u32,
    pub data: u32,
}

/// The mathematical value of an [`Instruction`].
#[verifier::ext_equal]
pub ghost struct InstructionView {
    pub address: u32,
    pub data: u32,
}

impl View for Instruction {
    type V = InstructionView;

    open spec fn view(&self) -> InstructionView {
        InstructionView { address: self.address, data: self.data }
    }
}

/// The section's half-open address range contains `a`.
pub open spec fn section_contains(s: SectionView, a: u32) -> bool {
    s.address <= a && a < s.address + s.data.len()
}

/// All sections of the image in search order: code sections first, then
/// data sections, each group in table order.
pub open spec fn all_sections(im: DolFileView) -> Seq<SectionView> {
    im.text_sections + im.data_sections
}

/// The index of the first section at position `k` or later whose address
/// range contains `a`; `ss.len()` when none does.
pub open spec fn find_section_from(ss: Seq<SectionView>, a: u32, k: int) -> int
    decreases ss.len() - k,
{
    if k < 0 || k >= ss.len() {
        ss.len() as int
    } else if section_contains(ss[k], a) {
        k
    } else {
        find_section_from(ss, a, k + 1)
    }
}

/// The index of the first section whose address range contains `a`.
pub open spec fn find_section(ss: Seq<SectionView>, a: u32) -> int {
    find_section_from(ss, a, 0)
}

/// The image after one section's buffer is rewritten.
pub open spec fn update_section(im: DolFileView, idx: int, data: Seq<u8>) -> DolFileView {
    if idx < im.text_sections.len() {
        DolFileView {
            text_sections: im.text_sections.update(
                idx,
                SectionView { address: im.text_sections[idx].address, data },
            ),
            ..im
        }
    } else {
        DolFileView {
            data_sections: im.data_sections.update(
                idx - im.text_sections.len(),
                SectionView { address: im.data_sections[idx - im.text_sections.len()].address, data },
            ),
            ..im
        }
    }
}

/// What one edit does to an image: the new image when the edit can be
/// placed, or the error that aborts the batch. An address no section
/// contains is unresolvable; a write that starts inside a section but
/// runs past its end is a span overrun.
pub open spec fn apply_one(im: DolFileView, e: InstructionView) -> Result<DolFileView, DolError> {
    let ss = all_sections(im);
    let idx = find_section(ss, e.address);
    if idx == ss.len() {
        Err(DolError::UnresolvedAddress { address: e.address })
    } else {
        let s = ss[idx];
        let off = e.address - s.address;
        if off + 4 > s.data.len() {
            Err(
                DolError::SpanOverrun {
                    address: e.address,
                    section_address: s.address,
                    section_size: s.data.len() as u32,
                },
            )
        } else {
            Ok(update_section(im, idx, spec_write_u32(s.data, off as int, e.data)))
        }
    }
}

/// The image after a batch: edits are applied in order, and the batch
/// stops at the first edit that fails, leaving earlier edits in place.
pub open spec fn apply_edits(im: DolFileView, es: Seq<InstructionView>) -> DolFileView
    decreases es.len(),
{
    if es.len() == 0 {
        im
    } else {
        match apply_one(im, es[0]) {
            Ok(next) => apply_edits(next, es.drop_first()),
            Err(_) => im,
        }
    }
}

/// What a batch reports: `Ok` when every edit can be placed, otherwise
/// the error of the first edit that cannot.
pub open spec fn patch_result(im: DolFileView, es: Seq<InstructionView>) -> Result<
    (),
    DolError,
>
    decreases es.len(),
{
    if es.len() == 0 {
        Ok(())
    } else {
        match apply_one(im, es[0]) {
            Ok(next) => patch_result(next, es.drop_first()),
            Err(e) => Err(e),
        }
    }
}

/// The combined search-order index a table flag and a position within
/// that table name: positions in the code table come first.
pub open spec fn combined_index(im: DolFileView, in_text: bool, pos: int) -> int {
    if in_text {
        pos
    } else {
        im.text_sections.len() + pos
    }
}

/// Finds the first section — code first, then data, in table order —
/// whose address range contains `address`. `Some((true, p))` names the
/// code section at position `p`, `Some((false, p))` the data section at
/// position `p`.
fn find_containing(image: &DolFile, address: u32) -> (r: Option<(bool, usize)>)
    ensures
        (match r {
            Some(loc) => {
                &&& loc.0 ==> loc.1 < image@.text_sections.len()
                &&& !loc.0 ==> loc.1 < image@.data_sections.len()
                &&& combined_index(image@, loc.0, loc.1 as int) == find_section(
                    all_sections(image@),
                    address,
                )
                &&& section_contains(
                    all_sections(image@)[combined_index(image@, loc.0, loc.1 as int)],
                    address,
                )
            },
            None => find_section(all_sections(image@), address) == all_sections(image@).len(),
        }),
{
    let ghost ss = all_sections(image@);
    let tn = image.text_sections.len();
    let mut k: usize = 0;
    while k < tn
        invariant
            k <= tn,
            ss == all_sections(image@),
            tn == image@.text_sections.len(),
            find_section_from(ss, address, 0) == find_section_from(ss, address, k as int),
        decreases tn - k,
    {
        let s = &image.text_sections[k];
        if s.address <= address && ((address - s.address) as usize) < s.data.len() {
            proof {
                assert(section_contains(ss[k as int], address));
                assert(find_section_from(ss, address, k as int) == k);
            }
            return Some((true, k));
        }
        proof {
            assert(!section_contains(ss[k as int], address));
        }
        k = k + 1;
    }
    let dn = image.data_sections.len();
    let mut j: usize = 0;
    while j < dn
        invariant
            j <= dn,
            ss == all_sections(image@),
            tn == image@.text_sections.len(),
            dn == image@.data_sections.len(),
            find_section_from(ss, address, 0) == find_section_from(ss, address, tn + j as int),
        decreases dn - j,
    {
        let s = &image.data_sections[j];
        if s.address <= address && ((address - s.address) as usize) < s.data.len() {
            proof {
                assert(ss[tn + j as int] == image@.data_sections[j as int]);
                assert(section_contains(ss[tn + j as int], address));
                assert(find_section_from(ss, address, tn + j as int) == tn + j);
            }
            return Some((false, j));
        }
        proof {
            assert(ss[tn + j as int] == image@.data_sections[j as int]);
            assert(!section_contains(ss[tn + j as int], address));
        }
        j = j + 1;
    }
    proof {
        assert(find_section_from(ss, address, tn + dn as int) == ss.len());
    }
    None
}

impl DolFile {
    /// Applies a batch of edits in the order given. Each edit's address is
    /// resolved to the first section containing it — code sections first,
    /// then data sections, in table order — and the edit's value is
    /// written big-endian over the four bytes at that position. The first
    /// edit that resolves to no section, or whose four-byte span runs past
    /// its section's end, aborts the batch with its error; edits already
    /// applied stay in place and are not rolled back.
    pub fn patch(&mut self, instructions: &[Instruction]) -> (r: Result<(), DolError>)
        ensures
            final(self)@ == apply_edits(
                old(self)@,
                instructions@.map_values(|x: Instruction| x@),
            ),
            r == patch_result(old(self)@, instructions@.map_values(|x: Instruction| x@)),
    {
        let ghost es = instructions@.map_values(|x: Instruction| x@);
        let n = instructions.len();
        let mut k: usize = 0;
        proof {
            assert(es.skip(0) =~= es);
        }
        while k < n
            invariant
                k <= n,
                n == es.len(),
                es == instructions@.map_values(|x: Instruction| x@),
                apply_edits(old(self)@, es) == apply_edits(self@, es.skip(k as int)),
                patch_result(old(self)@, es) == patch_result(self@, es.skip(k as int)),
            decreases n - k,
        {
            let ghost before = self@;
            let ghost rest = es.skip(k as int);
            let instruction = &instructions[k];
            proof {
                assert(rest[0] == es[k as int]);
                assert(es[k as int] == instruction@);
                assert(rest.drop_first() =~= es.skip(k as int + 1));
            }
            match find_containing(self, instruction.address) {
                Some((in_text, pos)) => {
                    let ghost idx = combined_index(before, in_text, pos as int);
                    let ghost ss = all_sections(before);
                    let section: &mut Section = if in_text {
                        &mut self.text_sections[pos]
                    } else {
                        &mut self.data_sections[pos]
                    };
                    proof {
                        assert(ss[idx] == (*section)@);
                    }
                    let saddr = section.address;
                    let off = instruction.address - saddr;
                    let send = section.data.len();
                    if (off as u64) + 4 > (send as u64) {
                        let err = DolError::SpanOverrun {
                            address: instruction.address,
                            section_address: saddr,
                            section_size: send as u32,
                        };
                        proof {
                            assert(self@.text_sections =~~= before.text_sections);
                            assert(self@.data_sections =~~= before.data_sections);
                            assert(self@ =~~= before);
                            assert(apply_one(before, instruction@) == Err::<DolFileView, DolError>(
                                err,
                            ));
                            assert(apply_edits(before, rest) == before);
                            assert(patch_result(before, rest) == Err::<(), DolError>(err));
                        }
                        return Err(err);
                    }
                    write_u32(&mut section.data, off as usize, instruction.data);
                    proof {
                        let new_data = spec_write_u32(ss[idx].data, off as int, instruction@.data);
                        if in_text {
                            assert(self@.text_sections =~~= before.text_sections.update(
                                idx,
                                SectionView { address: ss[idx].address, data: new_data },
                            ));
                            assert(self@.data_sections =~~= before.data_sections);
                        } else {
                            assert(self@.data_sections =~~= before.data_sections.update(
                                pos as int,
                                SectionView { address: ss[idx].address, data: new_data },
                            ));
                            assert(self@.text_sections =~~= before.text_sections);
                        }
                        assert(self@ =~~= update_section(before, idx, new_data));
                        assert(apply_one(before, instruction@) == Ok::<DolFileView, DolError>(
                            self@,
                        ));
                        assert(apply_edits(before, rest) == apply_edits(self@, rest.drop_first()));
                        assert(patch_result(before, rest) == patch_result(
                            self@,
                            rest.drop_first(),
                        ));
                    }
                },
                None => {
                    let err = DolError::UnresolvedAddress { address: instruction.address };
                    proof {
                        assert(apply_one(before, instruction@) == Err::<DolFileView, DolError>(
                            err,
                        ));
                        assert(apply_edits(before, rest) == before);
                        assert(patch_result(before, rest) == Err::<(), DolError>(err));
                    }
                    return Err(err);
                },
            }
            k = k + 1;
        }
        proof {
            assert(es.skip(n as int) =~= Seq::<InstructionView>::empty());
        }
        Ok(())
    }
}

} // verus!
