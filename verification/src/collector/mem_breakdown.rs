//! The memory breakdown from the kernel's VM page counts.
use vstd::prelude::*;
use crate::collector::snapshot::MemBreakdown;
use crate::collector::disk_io::sat_add_u64;
use crate::services::probe::sat_mul_u64;

verus! {

/// The page size assumed when the kernel will not say (16 KiB, Apple
/// Silicon's).
pub const FALLBACK_PAGE_SIZE: u64 = 16384;

/// The page size from `sysctl vm.pagesize`: its value when the call
/// succeeded with a positive size, else [`FALLBACK_PAGE_SIZE`].
pub fn page_size_or_default(ret: i32, page_size: i32) -> (r: u64)
    ensures
        r == if ret == 0 && page_size > 0 { page_size as u64 } else { FALLBACK_PAGE_SIZE },
{
    if ret == 0 && page_size > 0 {
        page_size as u64
    } else {
        FALLBACK_PAGE_SIZE
    }
}

/// The VM page counts the breakdown is built from.
#[derive(Debug, Clone, Copy)]
pub struct PageCounts {
    pub free: u32,
    pub active: u32,
    pub inactive: u32,
    pub wire: u32,
    pub speculative: u32,
    pub compressor: u32,
}

/// Pages to bytes, saturating. Speculative pages count as free.
pub fn breakdown_from_pages(page_size: u64, c: PageCounts) -> (m: MemBreakdown)
    ensures
        m.wired == sat_mul_u64(c.wire as u64, page_size),
        m.active == sat_mul_u64(c.active as u64, page_size),
        m.inactive == sat_mul_u64(c.inactive as u64, page_size),
        m.compressed == sat_mul_u64(c.compressor as u64, page_size),
        m.free == sat_mul_u64(sat_add_u64(c.free as u64, c.speculative as u64), page_size),
{
    MemBreakdown {
        wired: pages_to_bytes(c.wire as u64, page_size),
        active: pages_to_bytes(c.active as u64, page_size),
        inactive: pages_to_bytes(c.inactive as u64, page_size),
        compressed: pages_to_bytes(c.compressor as u64, page_size),
        free: pages_to_bytes((c.free as u64).saturating_add(c.speculative as u64), page_size),
    }
}

fn pages_to_bytes(pages: u64, page_size: u64) -> (b: u64)
    ensures
        b == sat_mul_u64(pages, page_size),
{
    match pages.checked_mul(page_size) {
        Some(v) => v,
        None => u64::MAX,
    }
}

} // verus!
