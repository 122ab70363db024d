//! The fixed geometry of the 256-byte header: where each field table lives
//! and how many section slots each table holds. These are format constants;
//! bit-exact compatibility depends on them.

use vstd::prelude::*;

verus! {

/// Total size of the on-disk header, in bytes. Payload starts right after.
pub const HEADER_SIZE: usize = 256;

/// Byte offset of the table of code-section file offsets.
pub const TEXT_OFFSETS_BASE: usize = 0x00;

/// Byte offset of the table of data-section file offsets.
pub const DATA_OFFSETS_BASE: usize = 0x1c;

/// Byte offset of the table of code-section load addresses.
pub const TEXT_ADDRESSES_BASE: usize = 0x48;

/// Byte offset of the table of data-section load addresses.
pub const DATA_ADDRESSES_BASE: usize = 0x64;

/// Byte offset of the table of code-section sizes.
pub const TEXT_SIZES_BASE: usize = 0x90;

/// Byte offset of the table of data-section sizes.
pub const DATA_SIZES_BASE: usize = 0xac;

/// Byte offset of the BSS address field.
pub const BSS_ADDRESS_OFFSET: usize = 0xd8;

/// Byte offset of the BSS size field.
pub const BSS_SIZE_OFFSET: usize = 0xdc;

/// Byte offset of the entry address field.
pub const ENTRY_POINT_OFFSET: usize = 0xe0;

/// First header byte past the last field; the rest of the header is zero.
pub const HEADER_FIELDS_END: usize = 0xe4;

/// Number of code-section slots in the header.
pub const MAX_TEXT_SECTIONS: usize = 7;

/// Number of data-section slots in the header.
pub const MAX_DATA_SECTIONS: usize = 11;

} // verus!
