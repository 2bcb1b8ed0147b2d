//! Trusted boundary to process-shared memory mappings.
//!
//! The kill switch and the ring buffer live in memory that other processes
//! mutate concurrently, so no contract here speaks about the bytes'
//! values; only the mapping's fixed length is named, which is set once
//! when the segment is mapped and never changes afterwards.

use vstd::prelude::*;

verus! {

#[verifier::external_type_specification]
#[verifier::external_body]
pub struct ExMmapMut(memmap2::MmapMut);

/// The fixed byte length of a mapping, decided when the segment is mapped.
pub uninterp spec fn mm_len(m: memmap2::MmapMut) -> nat;

/// Relies on memmap2::MmapMut: it dereferences to a byte slice over the
/// whole mapping, so `len` returns the mapping's fixed length.
#[verifier::external_body]
pub(crate) fn mmap_len(m: &memmap2::MmapMut) -> (r: usize)
    ensures
        r == mm_len(*m),
{
    m.len()
}

/// Relies on memmap2::MmapMut: dereferencing yields a byte slice of the
/// mapping, so an in-bounds index reads one shared byte.  Other processes
/// write these bytes, so nothing is promised about the value.
#[verifier::external_body]
pub(crate) fn mm_read_byte(m: &memmap2::MmapMut, i: usize) -> (r: u8)
    requires
        i < mm_len(*m),
{
    m[i]
}

/// Relies on memmap2::MmapMut: mutable dereferencing yields the mapping's
/// byte slice, so an in-bounds index writes one shared byte.  The mapping
/// itself, and hence its length, is unchanged.
#[verifier::external_body]
pub(crate) fn mm_write_byte(m: &mut memmap2::MmapMut, i: usize, v: u8)
    requires
        i < mm_len(*old(m)),
    ensures
        mm_len(*final(m)) == mm_len(*old(m)),
{
    m[i] = v;
}

} // verus!
