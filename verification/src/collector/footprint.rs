//! Per-process physical footprint, with the resident size as fallback.
//!
//! The footprint is what a process owns, Metal allocations included;
//! resident size misses those. The kernel declines the footprint for
//! processes of other users, and callers then use the `ps` figure, a lower
//! bound rather than a zero.
use vstd::prelude::*;

verus! {

/// The footprint where the kernel reported one, else the fallback.
pub fn phys_footprint_or(footprint: Option<u64>, fallback_bytes: u64) -> (b: u64)
    ensures
        b == match footprint {
            Some(f) => f,
            None => fallback_bytes,
        },
{
    match footprint {
        Some(f) => f,
        None => fallback_bytes,
    }
}

} // verus!
