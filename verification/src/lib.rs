//! A verified codec for a fixed-layout executable container: a 256-byte
//! header describing up to 7 code sections and 11 data sections (each a load
//! address plus an owned byte buffer), a BSS region given by address and size
//! only, and an entry address. The crate decodes such a container into an
//! in-memory image, re-encodes an image into the on-disk layout, merges
//! images, and applies word-sized patches by resolving absolute addresses to
//! the owning section.

mod codec;
mod endian;
mod error;
mod header;
mod image;
mod layout;
mod patch;
mod roundtrip;

pub use codec::{
    encoded_len, encodes, header_of, parse_matches, parse_ok, slot_addresses, slot_in_bounds,
    slot_matches, slot_offsets, slot_sizes, table_count, table_count_from, table_matches, table_ok,
    table_ok_from,
};
pub use endian::{be_at, be_byte, be_bytes, be_word, read_u32, spec_write_u32, write_u32};
pub use error::DolError;
pub use header::{header_fields_match, zero_table, DolHeader, DolHeaderView};
pub use image::{payload_of, sections_wf, total_len, DolFile, DolFileView, Section, SectionView};
pub use layout::{
    BSS_ADDRESS_OFFSET, BSS_SIZE_OFFSET, DATA_ADDRESSES_BASE, DATA_OFFSETS_BASE, DATA_SIZES_BASE,
    ENTRY_POINT_OFFSET, HEADER_FIELDS_END, HEADER_SIZE, MAX_DATA_SECTIONS, MAX_TEXT_SECTIONS,
    TEXT_ADDRESSES_BASE, TEXT_OFFSETS_BASE, TEXT_SIZES_BASE,
};
pub use patch::{
    all_sections, apply_edits, apply_one, find_section, find_section_from, patch_result,
    section_contains, update_section, Instruction, InstructionView,
};
pub use roundtrip::{lemma_parse_unique, lemma_round_trip};
