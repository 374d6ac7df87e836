//! Memory breakdown as reported in every snapshot.
use vstd::prelude::*;

verus! {

/// Memory breakdown in bytes; the parts add up to about the total.
#[derive(Debug, Clone, Copy, PartialEq, Eq, Structural)]
pub struct MemBreakdown {
    pub wired: u64,
    pub active: u64,
    pub inactive: u64,
    pub compressed: u64,
    pub free: u64,
}

impl MemBreakdown {
    /// All zero: what is reported when the kernel statistics are unreadable.
    pub fn zero() -> (m: MemBreakdown)
        ensures
            m == (MemBreakdown { wired: 0, active: 0, inactive: 0, compressed: 0, free: 0 }),
    {
        MemBreakdown { wired: 0, active: 0, inactive: 0, compressed: 0, free: 0 }
    }
}

impl Default for MemBreakdown {
    fn default() -> (m: MemBreakdown)
        ensures
            m == (MemBreakdown { wired: 0, active: 0, inactive: 0, compressed: 0, free: 0 }),
    {
        MemBreakdown::zero()
    }
}

} // verus!
