//! Host-wide disk I/O counters.
//!
//! The kernel publishes cumulative byte counters. Diffing two readings gives
//! the bytes moved in between; this module holds the previous reading and does
//! the diffing. Reading the counters themselves is the caller's job.
use vstd::prelude::*;

verus! {

/// Bytes moved between two readings of a cumulative counter.
///
/// The first reading has nothing to diff against, and a counter that went
/// backwards was reset; both report zero rather than a wrapped huge value.
pub open spec fn spec_counter_delta(previous: Option<u64>, current: u64) -> u64 {
    match previous {
        Some(p) => if current >= p { (current - p) as u64 } else { 0 },
        None => 0,
    }
}

pub fn counter_delta(previous: Option<u64>, current: u64) -> (d: u64)
    ensures
        d == spec_counter_delta(previous, current),
{
    match previous {
        Some(p) => current.saturating_sub(p),
        None => 0,
    }
}

/// The sampler's memory: the previous reading of each counter, or `None`
/// before the first successful reading.
pub struct DiskIoSampler {
    previous_read: Option<u64>,
    previous_write: Option<u64>,
}

/// The counters' value as a signed kernel number, when it is one a counter
/// can hold (`u64::try_from` on an `i64`).
pub open spec fn counter_value(raw: Option<i64>) -> Option<u64> {
    match raw {
        Some(v) => if v >= 0 { Some(v as u64) } else { None },
        None => None,
    }
}

pub fn counter_from_raw(raw: Option<i64>) -> (r: Option<u64>)
    ensures
        r == counter_value(raw),
{
    match raw {
        Some(v) => if v >= 0 {
            Some(v as u64)
        } else {
            None
        },
        None => None,
    }
}

/// `a.saturating_add(b)`.
pub open spec fn sat_add_u64(a: u64, b: u64) -> u64 {
    if a + b > u64::MAX {
        u64::MAX
    } else {
        (a + b) as u64
    }
}

/// Host totals from per-device `(read, write)` totals, saturating.
pub open spec fn sum_totals(devices: Seq<(u64, u64)>) -> (u64, u64)
    decreases devices.len(),
{
    if devices.len() == 0 {
        (0, 0)
    } else {
        let rest = sum_totals(devices.drop_last());
        (sat_add_u64(rest.0, devices.last().0), sat_add_u64(rest.1, devices.last().1))
    }
}

/// Sum the per-device totals of every storage driver into host totals.
pub fn total_of_devices(devices: &Vec<(u64, u64)>) -> (r: (u64, u64))
    ensures
        r == sum_totals(devices@),
{
    let mut read: u64 = 0;
    let mut write: u64 = 0;
    let n = devices.len();
    for i in 0..n
        invariant
            n == devices@.len(),
            (read, write) == sum_totals(devices@.take(i as int)),
    {
        assert(devices@.take(i + 1).drop_last() == devices@.take(i as int));
        let (r, w) = devices[i];
        read = read.saturating_add(r);
        write = write.saturating_add(w);
    }
    assert(devices@.take(n as int) == devices@);
    (read, write)
}

impl DiskIoSampler {
    pub closed spec fn previous_view(&self) -> (Option<u64>, Option<u64>) {
        (self.previous_read, self.previous_write)
    }

    /// A sampler primed with the host totals read at start-up, or unprimed
    /// when they could not be read.
    pub fn new(initial: Option<(u64, u64)>) -> (s: DiskIoSampler)
        ensures
            s.previous_view() == match initial {
                Some(t) => (Some(t.0), Some(t.1)),
                None => (None::<u64>, None::<u64>),
            },
    {
        match initial {
            Some((r, w)) => DiskIoSampler { previous_read: Some(r), previous_write: Some(w) },
            None => DiskIoSampler { previous_read: None, previous_write: None },
        }
    }

    /// Bytes read and written since the previous reading, given the current
    /// host totals. A failed reading reports nothing and leaves the memory
    /// alone; a successful one becomes the new baseline.
    pub fn sample_delta(&mut self, totals: Option<(u64, u64)>) -> (d: (u64, u64))
        ensures
            match totals {
                None => d == (0u64, 0u64) && final(self).previous_view() == old(self).previous_view(),
                Some(t) => {
                    &&& d.0 == spec_counter_delta(old(self).previous_view().0, t.0)
                    &&& d.1 == spec_counter_delta(old(self).previous_view().1, t.1)
                    &&& final(self).previous_view() == (Some(t.0), Some(t.1))
                },
            },
    {
        match totals {
            None => (0, 0),
            Some((read, write)) => {
                let delta = (
                    counter_delta(self.previous_read, read),
                    counter_delta(self.previous_write, write),
                );
                self.previous_read = Some(read);
                self.previous_write = Some(write);
                delta
            },
        }
    }
}

/// Total reported over a run of readings that followed `start`, each diffed
/// against the one before it.
pub open spec fn reported_total(start: u64, readings: Seq<u64>) -> int
    decreases readings.len(),
{
    if readings.len() == 0 {
        0
    } else {
        let prev = if readings.len() == 1 {
            start
        } else {
            readings[readings.len() - 2]
        };
        reported_total(start, readings.drop_last()) + spec_counter_delta(Some(prev), readings.last())
    }
}

/// While a counter only grows, the deltas reported sample by sample add up
/// to exactly what it moved overall: nothing is lost or counted twice.
pub proof fn law_deltas_add_up(start: u64, readings: Seq<u64>)
    requires
        readings.len() > 0,
        start <= readings[0],
        forall|i: int| 0 < i < readings.len() ==> readings[i - 1] <= #[trigger] readings[i],
    ensures
        reported_total(start, readings) == readings.last() - start,
    decreases readings.len(),
{
    if readings.len() > 1 {
        let rest = readings.drop_last();
        assert forall|i: int| 0 < i < rest.len() implies rest[i - 1] <= #[trigger] rest[i] by {
            assert(readings[i] == rest[i]);
        }
        law_deltas_add_up(start, rest);
        assert(readings[readings.len() - 2] <= readings.last());
        assert(rest.last() == readings[readings.len() - 2]);
        assert(rest[0] == readings[0]);
    } else {
        assert(readings.drop_last().len() == 0);
        assert(reported_total(start, readings.drop_last()) == 0);
    }
}
} // verus!
