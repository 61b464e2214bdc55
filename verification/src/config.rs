//! Page and sector geometry shared by the cache, the byte-range engine and
//! the on-disk directory reader.

use vstd::prelude::*;

verus! {

/// Size in bytes of one cached page.
pub const PAGE_SIZE: usize = 4096;

/// `byte_offset >> PAGE_SIZE_BITS` is the page index of a byte offset.
pub const PAGE_SIZE_BITS: u64 = 12;

/// `byte_offset & PAGE_OFFSET_MASK` is the offset of a byte within its page.
pub const PAGE_OFFSET_MASK: u64 = 4095;

/// Size in bytes of one disk sector.
pub const SECTOR_SIZE: u64 = 512;

/// Size in bytes of one raw on-disk directory record.
pub const DIR_ENTRY_SIZE: usize = 32;

} // verus!
