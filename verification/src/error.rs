//! The closed set of failures the codec can report. Each variant carries the
//! concrete context of the failure; none carries a formatted message.

use vstd::prelude::*;

verus! {

/// Why a decode, encode or patch call failed.
#[derive(Debug, PartialEq, Eq, Structural, Clone, Copy)]
pub enum DolError {
    /// Decoding needed bytes up to position `needed`, but the buffer holds
    /// only `available` bytes.
    Truncated { needed: u64, available: u64 },
    /// Encoding was asked to place `count` sections into a table of
    /// `capacity` fixed slots.
    CapacityOverflow { count: usize, capacity: usize },
    /// No section's address range contains `address`, so a patch aimed
    /// there cannot be placed.
    UnresolvedAddress { address: u32 },
    /// The four-byte write at `address` starts inside the section loaded at
    /// `section_address` with `section_size` bytes, but runs past its end.
    SpanOverrun { address: u32, section_address: u32, section_size: u32 },
}

} // verus!
