//! Per-process GPU time from the accelerator's user clients.
//!
//! Each client names its creator (`"pid 426, WindowServer"`) and carries
//! cumulative GPU nanoseconds per usage entry. Walking the registry is I/O;
//! this module reads the creator string and does the summing.
use vstd::prelude::*;
use std::collections::HashMap;
use crate::text::{starts_with, first_of, trim, parse_u32_spec, chars_of, starts_with_str, find_char_from, trim_bounds, parse_u32_in};
use crate::collector::disk_io::{counter_value, sat_add_u64};

verus! {

broadcast use vstd::std_specs::hash::group_hash_axioms;

/// The pid of a `"pid <n>, <name>"` creator string.
pub open spec fn creator_pid_spec(creator: Seq<char>) -> Option<u32> {
    if starts_with(creator, "pid "@) {
        let rest = creator.skip(4);
        parse_u32_spec(trim(rest.take(first_of(rest, ',') as int)))
    } else {
        None
    }
}

pub fn parse_creator_pid(creator: &str) -> (r: Option<u32>)
    ensures
        r == creator_pid_spec(creator@),
{
    proof {
        reveal_strlit("pid ");
    }
    let cs = chars_of(creator);
    if !starts_with_str(cs.as_slice(), "pid ") {
        return None;
    }
    let n = cs.len();
    let k = find_char_from(cs.as_slice(), 4, ',');
    let ghost rest = cs@.skip(4);
    assert(rest.take(k - 4) == cs@.subrange(4, k as int));
    let (a, b) = trim_bounds(cs.as_slice(), 4, k);
    parse_u32_in(cs.as_slice(), a, b)
}

/// Total GPU time over a client's usage entries: entries that are not a
/// non-negative number count as zero; the sum saturates.
pub open spec fn usage_total(entries: Seq<Option<i64>>) -> u64
    decreases entries.len(),
{
    if entries.len() == 0 {
        0
    } else {
        let v = match counter_value(entries.last()) {
            Some(x) => x,
            None => 0,
        };
        sat_add_u64(usage_total(entries.drop_last()), v)
    }
}

pub fn app_usage_gpu_time(entries: &Vec<Option<i64>>) -> (t: u64)
    ensures
        t == usage_total(entries@),
{
    let mut total: u64 = 0;
    let n = entries.len();
    for i in 0..n
        invariant
            n == entries@.len(),
            total == usage_total(entries@.take(i as int)),
    {
        assert(entries@.take(i + 1).drop_last() =~= entries@.take(i as int));
        let v: u64 = match entries[i] {
            Some(x) => if x >= 0 {
                x as u64
            } else {
                0
            },
            None => 0,
        };
        total = total.saturating_add(v);
    }
    assert(entries@.take(n as int) =~= entries@);
    total
}

/// Add one client's GPU time to its process's total (saturating); a process
/// with several clients accumulates all of them.
pub fn accumulate_gpu_time(totals: &mut HashMap<u32, u64>, pid: u32, gpu_ns: u64)
    ensures
        final(totals)@ == old(totals)@.insert(
            pid,
            if old(totals)@.contains_key(pid) {
                sat_add_u64(old(totals)@[pid], gpu_ns)
            } else {
                gpu_ns
            },
        ),
{
    let next = match totals.get(&pid) {
        Some(t) => t.saturating_add(gpu_ns),
        None => gpu_ns,
    };
    totals.insert(pid, next);
}

} // verus!
