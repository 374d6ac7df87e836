//! The integer side of the system snapshot: which interfaces count toward
//! network totals, how counters turn into per-tick deltas, which disk is
//! "the" disk, and when the slow readings are refreshed.
//!
//! Power, temperatures, utilisations and rates are floating-point figures
//! and are computed by the caller.
use vstd::prelude::*;
use crate::text::{starts_with, chars_of, starts_with_str, push_decimal, decimal, push_char};
use crate::collector::disk_io::sat_add_u64;

verus! {

/// How many ticks pass between refreshes of the disk list.
pub const DISK_REFRESH_TICKS: u32 = 15;

/// Prefixes of virtual, tunnel, peer-to-peer and loopback interfaces, whose
/// traffic is either noise or already counted on a physical interface.
pub open spec fn skipped_iface(n: Seq<char>) -> bool {
    ||| starts_with(n, "lo"@)
    ||| starts_with(n, "utun"@)
    ||| starts_with(n, "ipsec"@)
    ||| starts_with(n, "ppp"@)
    ||| starts_with(n, "awdl"@)
    ||| starts_with(n, "llw"@)
    ||| starts_with(n, "ap"@)
    ||| starts_with(n, "bridge"@)
    ||| starts_with(n, "anpi"@)
    ||| starts_with(n, "pktap"@)
    ||| starts_with(n, "gif"@)
    ||| starts_with(n, "stf"@)
    ||| starts_with(n, "tap"@)
    ||| starts_with(n, "tun"@)
}

/// Whether an interface belongs in the aggregate totals: the physical NIC
/// family (`en*`, `eth*`) and nothing that merely mirrors or tunnels it.
pub open spec fn countable_iface(n: Seq<char>) -> bool {
    !skipped_iface(n) && (starts_with(n, "en"@) || starts_with(n, "eth"@))
}

pub fn is_countable_iface(name: &str) -> (b: bool)
    ensures
        b == countable_iface(name@),
{
    let cs = chars_of(name);
    let n = cs.as_slice();
    if starts_with_str(n, "lo") || starts_with_str(n, "utun") || starts_with_str(n, "ipsec")
        || starts_with_str(n, "ppp") || starts_with_str(n, "awdl") || starts_with_str(n, "llw")
        || starts_with_str(n, "ap") || starts_with_str(n, "bridge") || starts_with_str(n, "anpi")
        || starts_with_str(n, "pktap") || starts_with_str(n, "gif") || starts_with_str(n, "stf")
        || starts_with_str(n, "tap") || starts_with_str(n, "tun") {
        return false;
    }
    starts_with_str(n, "en") || starts_with_str(n, "eth")
}

/// Received and transmitted bytes summed over the countable interfaces,
/// saturating.
pub open spec fn network_total(ifaces: Seq<(Seq<char>, u64, u64)>) -> (u64, u64)
    decreases ifaces.len(),
{
    if ifaces.len() == 0 {
        (0, 0)
    } else {
        let prev = network_total(ifaces.drop_last());
        let (name, rx, tx) = ifaces.last();
        if countable_iface(name) {
            (sat_add_u64(prev.0, rx), sat_add_u64(prev.1, tx))
        } else {
            prev
        }
    }
}

/// Sum `(name, received, transmitted)` over the countable interfaces.
pub fn total_network(ifaces: &Vec<(String, u64, u64)>) -> (r: (u64, u64))
    ensures
        r == network_total(ifaces@.map_values(|x: (String, u64, u64)| (x.0@, x.1, x.2))),
{
    let ghost v = ifaces@.map_values(|x: (String, u64, u64)| (x.0@, x.1, x.2));
    let mut rx: u64 = 0;
    let mut tx: u64 = 0;
    let n = ifaces.len();
    for i in 0..n
        invariant
            n == ifaces@.len(),
            v == ifaces@.map_values(|x: (String, u64, u64)| (x.0@, x.1, x.2)),
            (rx, tx) == network_total(v.take(i as int)),
    {
        assert(v.take(i + 1).drop_last() =~= v.take(i as int));
        assert(v.take(i + 1).last() == v[i as int]);
        let (ref name, r, t) = ifaces[i];
        if is_countable_iface(name.as_str()) {
            rx = rx.saturating_add(r);
            tx = tx.saturating_add(t);
        }
    }
    assert(v.take(n as int) =~= v);
    (rx, tx)
}

/// Previous cumulative network counters, for per-tick deltas.
pub struct NetCounters {
    prev_rx: u64,
    prev_tx: u64,
}

impl NetCounters {
    pub closed spec fn view(&self) -> (u64, u64) {
        (self.prev_rx, self.prev_tx)
    }

    /// Start from the totals read at start-up.
    pub fn new(rx: u64, tx: u64) -> (c: NetCounters)
        ensures
            c.view() == (rx, tx),
    {
        NetCounters { prev_rx: rx, prev_tx: tx }
    }

    /// Bytes down and up since the previous reading (zero for a counter
    /// that went backwards); the reading becomes the new baseline.
    pub fn advance(&mut self, rx: u64, tx: u64) -> (d: (u64, u64))
        ensures
            d.0 == (if rx >= old(self).view().0 {
                (rx - old(self).view().0) as u64
            } else {
                0
            }),
            d.1 == (if tx >= old(self).view().1 {
                (tx - old(self).view().1) as u64
            } else {
                0
            }),
            final(self).view() == (rx, tx),
    {
        let down = rx.saturating_sub(self.prev_rx);
        let up = tx.saturating_sub(self.prev_tx);
        self.prev_rx = rx;
        self.prev_tx = tx;
        (down, up)
    }
}

/// Counts ticks between refreshes of the disk list, which is slow to read
/// and changes slowly. The first tick refreshes.
pub struct DiskRefreshClock {
    ticks_since_refresh: u32,
}

impl DiskRefreshClock {
    pub closed spec fn view(&self) -> u32 {
        self.ticks_since_refresh
    }

    pub fn new() -> (c: DiskRefreshClock)
        ensures
            c.view() == DISK_REFRESH_TICKS,
    {
        DiskRefreshClock { ticks_since_refresh: DISK_REFRESH_TICKS }
    }

    /// Advance one tick; `true` when the disk list is due for a refresh.
    pub fn tick(&mut self) -> (due: bool)
        requires
            old(self).view() <= DISK_REFRESH_TICKS,
        ensures
            due == (old(self).view() + 1 >= DISK_REFRESH_TICKS),
            final(self).view() == if due {
                0
            } else {
                old(self).view() + 1
            },
            final(self).view() <= DISK_REFRESH_TICKS,
    {
        self.ticks_since_refresh = self.ticks_since_refresh + 1;
        if self.ticks_since_refresh >= DISK_REFRESH_TICKS {
            self.ticks_since_refresh = 0;
            true
        } else {
            false
        }
    }
}

/// Whether `(mount, total, available)` describes the root volume.
pub open spec fn is_root_mount(m: Seq<char>) -> bool {
    m == seq!['/']
}

/// The first root volume in the list, as an index.
pub open spec fn root_disk(disks: Seq<(Seq<char>, u64, u64)>) -> int
    decreases disks.len(),
{
    if disks.len() == 0 {
        -1
    } else {
        let prev = root_disk(disks.drop_last());
        if prev >= 0 {
            prev
        } else if is_root_mount(disks.last().0) {
            disks.len() - 1
        } else {
            -1
        }
    }
}

/// The disk of largest total among the first `disks.len()`, the first one
/// on ties; -1 when no disk has a positive total.
pub open spec fn largest_disk(disks: Seq<(Seq<char>, u64, u64)>) -> int
    decreases disks.len(),
{
    if disks.len() == 0 {
        -1
    } else {
        let prev = largest_disk(disks.drop_last());
        let best = if prev >= 0 {
            disks[prev].1
        } else {
            0
        };
        if disks.last().1 > best {
            disks.len() - 1
        } else {
            prev
        }
    }
}

/// `(used, total)` of a disk.
pub open spec fn disk_usage(d: (Seq<char>, u64, u64)) -> (u64, u64) {
    ((d.1 - d.2) as u64, d.1)
}

/// `(used, total)` of the root volume, else of the largest disk, else
/// zeros.
pub open spec fn capacity_spec(disks: Seq<(Seq<char>, u64, u64)>) -> (u64, u64) {
    let r = root_disk(disks);
    if r >= 0 {
        disk_usage(disks[r])
    } else {
        let l = largest_disk(disks);
        if l >= 0 {
            disk_usage(disks[l])
        } else {
            (0, 0)
        }
    }
}

proof fn lemma_root_disk_range(disks: Seq<(Seq<char>, u64, u64)>)
    ensures
        -1 <= root_disk(disks) < disks.len(),
        root_disk(disks) >= 0 ==> is_root_mount(disks[root_disk(disks)].0),
        root_disk(disks) < 0 ==> forall|j: int| 0 <= j < disks.len() ==> !is_root_mount(#[trigger] disks[j].0),
    decreases disks.len(),
{
    if disks.len() > 0 {
        lemma_root_disk_range(disks.drop_last());
        assert forall|j: int| 0 <= j < disks.len() - 1 implies disks[j] == disks.drop_last()[j] by {}
    }
}

proof fn lemma_largest_disk_range(disks: Seq<(Seq<char>, u64, u64)>)
    ensures
        -1 <= largest_disk(disks) < disks.len(),
    decreases disks.len(),
{
    if disks.len() > 0 {
        lemma_largest_disk_range(disks.drop_last());
    }
}

/// Used and total bytes of the OS disk: the volume mounted at `/`, else the
/// largest disk. Each entry is `(mount point, total, available)`.
pub fn disk_capacity(disks: &Vec<(String, u64, u64)>) -> (r: (u64, u64))
    requires
        forall|i: int| 0 <= i < disks@.len() ==> #[trigger] disks@[i].2 <= disks@[i].1,
    ensures
        r == capacity_spec(disks@.map_values(|x: (String, u64, u64)| (x.0@, x.1, x.2))),
{
    let ghost v = disks@.map_values(|x: (String, u64, u64)| (x.0@, x.1, x.2));
    let n = disks.len();
    proof {
        lemma_root_disk_range(v);
        lemma_largest_disk_range(v);
    }
    let mut i: usize = 0;
    assert(v.take(0) =~= Seq::<(Seq<char>, u64, u64)>::empty());
    while i < n
        invariant
            n == disks@.len(),
            v == disks@.map_values(|x: (String, u64, u64)| (x.0@, x.1, x.2)),
            i <= n,
            root_disk(v.take(i as int)) < 0,
            forall|k: int| 0 <= k < disks@.len() ==> #[trigger] disks@[k].2 <= disks@[k].1,
        decreases n - i,
    {
        let (ref mount, t, a) = disks[i];
        let m = mount.as_str();
        let is_root = crate::text::str_eq(m, "/");
        proof {
            reveal_strlit("/");
            assert(v.take(i + 1).drop_last() =~= v.take(i as int));
            assert(v.take(i + 1).last() == v[i as int]);
            assert(v[i as int].0 == mount@);
            assert(m@ == mount@);
            assert("/"@ =~= seq!['/']);
            assert(is_root == is_root_mount(v[i as int].0));
        }
        if is_root {
            proof {
                assert(root_disk(v.take(i + 1)) == i);
                lemma_root_disk_prefix(v, i as int);
            }
            return (t - a, t);
        }
        proof {
            assert(root_disk(v.take(i + 1)) < 0);
        }
        i += 1;
    }
    proof {
        assert(v.take(n as int) =~= v);
    }
    let mut best: Option<usize> = None;
    let mut j: usize = 0;
    while j < n
        invariant
            n == disks@.len(),
            v == disks@.map_values(|x: (String, u64, u64)| (x.0@, x.1, x.2)),
            j <= n,
            forall|k: int| 0 <= k < disks@.len() ==> #[trigger] disks@[k].2 <= disks@[k].1,
            match best {
                Some(b) => b < j && largest_disk(v.take(j as int)) == b,
                None => largest_disk(v.take(j as int)) == -1,
            },
        decreases n - j,
    {
        assert(v.take(j + 1).drop_last() =~= v.take(j as int));
        let t = disks[j].1;
        let cur: u64 = match best {
            Some(b) => disks[b].1,
            None => 0,
        };
        proof {
            if let Some(b) = best {
                assert(v.take(j as int)[b as int] == v[b as int]);
                assert(v.take(j + 1)[b as int] == v[b as int]);
            }
        }
        if t > cur {
            best = Some(j);
        }
        j += 1;
    }
    assert(v.take(n as int) =~= v);
    match best {
        Some(b) => {
            assert(disks@[b as int].2 <= disks@[b as int].1);
            (disks[b].1 - disks[b].2, disks[b].1)
        },
        None => (0, 0),
    }
}

proof fn lemma_root_disk_prefix(disks: Seq<(Seq<char>, u64, u64)>, i: int)
    requires
        0 <= i < disks.len(),
        root_disk(disks.take(i + 1)) == i,
    ensures
        root_disk(disks) == i,
    decreases disks.len(),
{
    if disks.len() > i + 1 {
        let d = disks.drop_last();
        assert(d.take(i + 1) =~= disks.take(i + 1));
        lemma_root_disk_prefix(d, i);
    } else {
        assert(disks.take(i + 1) =~= disks);
    }
}

/// How many of `num_cpus` cores are efficiency cores, when the machine has
/// enough cores to split: the first half.
pub fn efficiency_core_count(num_cpus: usize) -> (r: Option<usize>)
    ensures
        num_cpus > 4 ==> r == Some(num_cpus / 2),
        num_cpus <= 4 ==> r is None,
{
    if num_cpus > 4 {
        Some(num_cpus / 2)
    } else {
        None
    }
}

/// Two decimal digits, zero-padded (`{:02}`).
pub open spec fn pad2(n: nat) -> Seq<char> {
    if n < 10 {
        seq!['0'].add(decimal(n))
    } else {
        decimal(n)
    }
}

/// Four decimal digits, zero-padded (`{:04}`).
pub open spec fn pad4(n: nat) -> Seq<char> {
    if n < 10 {
        seq!['0', '0', '0'].add(decimal(n))
    } else if n < 100 {
        seq!['0', '0'].add(decimal(n))
    } else if n < 1000 {
        seq!['0'].add(decimal(n))
    } else {
        decimal(n)
    }
}

/// The `YYYY-MM` key the energy counter is scoped to.
pub fn month_key(year: u32, month: u32) -> (k: String)
    ensures
        k@ == pad4(year as nat) + seq!['-'] + pad2(month as nat),
{
    let mut k = String::new();
    if year < 10 {
        push_char(&mut k, '0');
        push_char(&mut k, '0');
        push_char(&mut k, '0');
    } else if year < 100 {
        push_char(&mut k, '0');
        push_char(&mut k, '0');
    } else if year < 1000 {
        push_char(&mut k, '0');
    }
    push_decimal(&mut k, year as u64);
    push_char(&mut k, '-');
    if month < 10 {
        push_char(&mut k, '0');
    }
    push_decimal(&mut k, month as u64);
    k
}

} // verus!
