//! Scheduling and mutual exclusion for directory-size scans.
//!
//! Three things trigger a scan and they must not overlap: the periodic
//! timer, the user pressing refresh, and the drawer verifying what it shows.
//! A single [`ScanCoordinator`] serialises them. Losing the race is not an
//! error: a scan is already producing the data the caller wanted, so the
//! caller serves cache.
//!
//! Claims are stamped with a generation. A scan can be abandoned while its
//! thread is still blocked in the kernel; when that thread finally lets go of
//! its [`ScanGuard`], the generation tells it that the claim has since been
//! handed to someone else, and the current holder is left alone.
use vstd::prelude::*;
use crate::paths::{PathView, is_within, components, climbs, path_components, has_parent_dir, path_within, clone_paths};
use crate::collector::folder_sizes::{ScanResult, insert_all, insert_view, insert_paths};

verus! {

/// How often the full tree is re-walked (six hours).
pub const FULL_SCAN_INTERVAL_MS: u64 = 21600000;

/// Delay before the first scan, so it never competes with login.
pub const STARTUP_DELAY_MS: u64 = 120000;

/// Wall-clock ceiling for the drawer's on-open verification.
pub const VERIFY_BUDGET_MS: u64 = 3000;

/// How long a scan may hold the claim before it is presumed wedged: about
/// five times the slowest healthy walk. What it guards against is a
/// `read_dir` blocked forever on an unresponsive mount.
pub const WEDGED_AFTER_MS: i64 = 900000;

/// Floor between two scan attempts that produced nothing.
pub const RETRY_INTERVAL_MS: u64 = 900000;

/// `i64::saturating_sub`.
pub open spec fn sat_sub_i64(a: i64, b: i64) -> i64 {
    if a - b > i64::MAX {
        i64::MAX
    } else if a - b < i64::MIN {
        i64::MIN
    } else {
        (a - b) as i64
    }
}

pub fn saturating_sub_i64(a: i64, b: i64) -> (r: i64)
    ensures
        r == sat_sub_i64(a, b),
{
    match a.checked_sub(b) {
        Some(d) => d,
        None => if b < 0 {
            i64::MAX
        } else {
            i64::MIN
        },
    }
}

/// The generation after `h` (`h.wrapping_add(1)`).
pub open spec fn next_generation(h: i64) -> i64 {
    if h == i64::MAX {
        i64::MIN
    } else {
        (h + 1) as i64
    }
}

/// Whether a claim made at `now` goes through: nobody holds the claim, or the
/// holder took it at least [`WEDGED_AFTER_MS`] ago.
pub open spec fn claim_allowed(holder: i64, claimed_at: i64, now: i64) -> bool {
    holder == 0 || sat_sub_i64(now, claimed_at) >= WEDGED_AFTER_MS
}

/// The holder after the scan of generation `generation` lets go: cleared only
/// if that scan still holds the claim.
pub open spec fn holder_after_release(holder: i64, generation: i64) -> i64 {
    if holder == generation {
        0
    } else {
        holder
    }
}

/// Serialises the three scan triggers and remembers directories that would
/// not open.
pub struct ScanCoordinator {
    /// Generation of the scan holding the claim; 0 when idle.
    holder: i64,
    /// When the holder claimed (or last renewed), ms since the epoch.
    claimed_at_ms: i64,
    /// Directories a walk has already hung in.
    quarantined: Vec<Vec<String>>,
}

/// Proof that a scan holds the claim; hand it back with
/// [`ScanGuard::release`] however the scan ends.
pub struct ScanGuard {
    generation: i64,
}

impl ScanGuard {
    pub closed spec fn generation_view(&self) -> i64 {
        self.generation
    }

    /// The generation this guard was issued with.
    pub fn generation(&self) -> (g: i64)
        ensures
            g == self.generation_view(),
    {
        self.generation
    }

    /// Renew the claim at `now`. A scan that retries a hung walk can run far
    /// past [`WEDGED_AFTER_MS`] while still making progress; renewing keeps
    /// it from being presumed wedged.
    pub fn heartbeat_at(&self, coordinator: &mut ScanCoordinator, now: i64)
        ensures
            final(coordinator).holder_view() == old(coordinator).holder_view(),
            final(coordinator).claimed_at_view() == now,
            final(coordinator).quarantine_view() == old(coordinator).quarantine_view(),
    {
        coordinator.claimed_at_ms = now;
    }

    /// Renew the claim at the current time.
    pub fn heartbeat(&self, coordinator: &mut ScanCoordinator)
        ensures
            final(coordinator).holder_view() == old(coordinator).holder_view(),
            final(coordinator).quarantine_view() == old(coordinator).quarantine_view(),
    {
        let now = now_ms();
        self.heartbeat_at(coordinator, now);
    }

    /// Let go of the claim. If this scan was presumed wedged and its claim
    /// handed on, the new holder keeps it.
    pub fn release(self, coordinator: &mut ScanCoordinator)
        ensures
            final(coordinator).holder_view() == holder_after_release(
                old(coordinator).holder_view(),
                self.generation_view(),
            ),
            final(coordinator).claimed_at_view() == old(coordinator).claimed_at_view(),
            final(coordinator).quarantine_view() == old(coordinator).quarantine_view(),
    {
        if coordinator.holder == self.generation {
            coordinator.holder = 0;
        }
    }
}

/// Milliseconds since the Unix epoch, read from the system clock; zero if
/// the clock is set before the epoch.
///
/// Wraps `std::time::SystemTime::now`. Nothing is stated of the result: it is
/// whatever the clock says.
#[verifier::external_body]
fn now_ms() -> (t: i64) {
    std::time::SystemTime::now().duration_since(std::time::UNIX_EPOCH).unwrap_or_default().as_millis() as i64
}

impl ScanCoordinator {
    pub closed spec fn holder_view(&self) -> i64 {
        self.holder
    }

    pub closed spec fn claimed_at_view(&self) -> i64 {
        self.claimed_at_ms
    }

    pub closed spec fn quarantine_view(&self) -> Seq<PathView> {
        self.quarantined.deep_view()
    }

    /// Idle, with nothing quarantined.
    pub fn new() -> (c: ScanCoordinator)
        ensures
            c.holder_view() == 0,
            c.claimed_at_view() == 0,
            c.quarantine_view() == Seq::<PathView>::empty(),
    {
        let c = ScanCoordinator { holder: 0, claimed_at_ms: 0, quarantined: Vec::new() };
        assert(c.quarantined.deep_view() =~= Seq::<PathView>::empty());
        c
    }

    /// Directories no walk should probe again in this process.
    pub fn blocked(&self) -> (r: Vec<Vec<String>>)
        ensures
            r.deep_view() == self.quarantine_view(),
    {
        clone_paths(&self.quarantined)
    }

    /// Remember directories that would not open. Kept across scans, because
    /// each costs seconds and a blocked thread to rediscover; kept in memory
    /// only, because every cause is temporary and a restart is the natural
    /// moment to find out whether it still applies.
    pub fn remember_blocked(&mut self, dirs: &Vec<Vec<String>>)
        ensures
            final(self).quarantine_view() == insert_all(old(self).quarantine_view(), dirs.deep_view()),
            final(self).holder_view() == old(self).holder_view(),
            final(self).claimed_at_view() == old(self).claimed_at_view(),
    {
        insert_paths(&mut self.quarantined, dirs);
    }

    /// Claim the right to scan at time `now`, or `None` while a live scan
    /// holds it. A holder older than [`WEDGED_AFTER_MS`] is presumed wedged
    /// and the claim passes to the caller under the next generation.
    pub fn try_claim_at(&mut self, now: i64) -> (r: Option<ScanGuard>)
        ensures
            claim_allowed(old(self).holder_view(), old(self).claimed_at_view(), now) ==> {
                &&& r is Some
                &&& r->0.generation_view() == next_generation(old(self).holder_view())
                &&& final(self).holder_view() == next_generation(old(self).holder_view())
                &&& final(self).claimed_at_view() == now
            },
            !claim_allowed(old(self).holder_view(), old(self).claimed_at_view(), now) ==> {
                &&& r is None
                &&& final(self).holder_view() == old(self).holder_view()
                &&& final(self).claimed_at_view() == old(self).claimed_at_view()
            },
            final(self).quarantine_view() == old(self).quarantine_view(),
    {
        let holder = self.holder;
        if holder != 0 {
            let age = saturating_sub_i64(now, self.claimed_at_ms);
            if age < WEDGED_AFTER_MS {
                return None;
            }
        }
        let generation = if holder == i64::MAX {
            i64::MIN
        } else {
            holder + 1
        };
        self.holder = generation;
        self.claimed_at_ms = now;
        Some(ScanGuard { generation })
    }

    /// Claim the right to scan now, or `None` if a live scan holds it.
    pub fn try_claim(&mut self) -> (r: Option<ScanGuard>)
        ensures
            old(self).holder_view() == 0 ==> r is Some && r->0.generation_view() == 1
                && final(self).holder_view() == 1,
            r is Some ==> r->0.generation_view() == next_generation(old(self).holder_view())
                && final(self).holder_view() == r->0.generation_view(),
            r is None ==> old(self).holder_view() != 0 && final(self).holder_view() == old(
                self,
            ).holder_view() && final(self).claimed_at_view() == old(self).claimed_at_view(),
            final(self).quarantine_view() == old(self).quarantine_view(),
    {
        let now = now_ms();
        self.try_claim_at(now)
    }

    /// Whether a scan holds the claim.
    pub fn is_running(&self) -> (r: bool)
        ensures
            r == (self.holder_view() != 0),
    {
        self.holder != 0
    }

    /// Settle a finished full walk: renew the claim at `now`, remember the
    /// directories it could not open, and say whether its tree may be
    /// published. A truncated tree would understate every folder, so it is
    /// discarded.
    pub fn absorb_full_scan(&mut self, claim: &ScanGuard, result: &ScanResult, now: i64) -> (publish: bool)
        ensures
            publish == !result.truncated,
            final(self).holder_view() == old(self).holder_view(),
            final(self).claimed_at_view() == now,
            final(self).quarantine_view() == insert_all(
                old(self).quarantine_view(),
                result.blocked.deep_view(),
            ),
    {
        claim.heartbeat_at(self, now);
        if result.blocked.len() > 0 {
            self.remember_blocked(&result.blocked);
        } else {
            assert(result.blocked.deep_view() =~= Seq::<PathView>::empty());
        }
        !result.truncated
    }
}

impl Default for ScanCoordinator {
    fn default() -> (c: ScanCoordinator)
        ensures
            c.holder_view() == 0,
            c.claimed_at_view() == 0,
            c.quarantine_view() == Seq::<PathView>::empty(),
    {
        ScanCoordinator::new()
    }
}

/// Time left before the stored tree is old enough to walk again, in ms.
///
/// Zero means due now: nothing was ever scanned, or the last scan is older
/// than [`FULL_SCAN_INTERVAL_MS`]. A stored time in the future (the clock
/// went backwards) counts as fresh, so a clock change does not turn into a
/// walk on every pass.
pub open spec fn due_in_spec(last_scan_at: Option<i64>, now: i64) -> u64 {
    match last_scan_at {
        None => 0,
        Some(last) => {
            let age = if sat_sub_i64(now, last) < 0 {
                0
            } else {
                sat_sub_i64(now, last) as int
            };
            if age >= FULL_SCAN_INTERVAL_MS {
                0
            } else {
                (FULL_SCAN_INTERVAL_MS - age) as u64
            }
        },
    }
}

pub fn time_until_due(last_scan_at: Option<i64>, now: i64) -> (due_in: u64)
    ensures
        due_in == due_in_spec(last_scan_at, now),
{
    match last_scan_at {
        None => 0,
        Some(last) => {
            let d = saturating_sub_i64(now, last);
            let age: u64 = if d < 0 {
                0
            } else {
                d as u64
            };
            if age >= FULL_SCAN_INTERVAL_MS {
                0
            } else {
                FULL_SCAN_INTERVAL_MS - age
            }
        },
    }
}

/// The estimated cost of re-measuring a folder: the file count recorded by
/// the last full scan. An unrecorded folder is treated as the most
/// expensive, so a surprise huge directory cannot eat the budget ahead of
/// folders known to be cheap.
pub fn verify_cost(recorded_file_count: Option<u64>) -> (c: u64)
    ensures
        c == match recorded_file_count {
            Some(n) => n,
            None => u64::MAX,
        },
{
    match recorded_file_count {
        Some(n) => n,
        None => u64::MAX,
    }
}

/// The tree that is scanned: the home directory, as components.
pub fn scan_root(home: &str) -> (r: Vec<String>)
    ensures
        r.deep_view() == components(home@),
{
    path_components(home)
}

/// Whether a path may be served: it has no `..` component, and, resolved
/// for real (symlinks followed), it is the resolved scan root or lies
/// beneath it.
///
/// `resolved` and `root_resolved` are the canonical forms of the path and of
/// the root, or `None` when resolving failed (a path that does not exist is
/// never served).
pub open spec fn within_root_spec(path: Seq<char>, resolved: Option<Seq<char>>, root_resolved: Option<Seq<char>>) -> bool {
    &&& !climbs(path)
    &&& root_resolved is Some
    &&& resolved is Some
    &&& is_within(components(resolved->0), components(root_resolved->0))
}

/// The characters of an optional string.
pub open spec fn opt_view(o: Option<&str>) -> Option<Seq<char>> {
    match o {
        Some(s) => Some(s@),
        None => None,
    }
}

pub fn is_within_root(path: &str, resolved: Option<&str>, root_resolved: Option<&str>) -> (r: bool)
    ensures
        r == within_root_spec(path@, opt_view(resolved), opt_view(root_resolved)),
{
    if has_parent_dir(path) {
        return false;
    }
    let root = match root_resolved {
        Some(r) => path_components(r),
        None => return false,
    };
    match resolved {
        Some(p) => {
            let pc = path_components(p);
            path_within(&pc, &root)
        },
        None => false,
    }
}

/// A live claim keeps every other caller out until it is
/// [`WEDGED_AFTER_MS`] old: right after a claim at `claimed_at`, a claim at
/// any `now` less than that much later is refused.
pub proof fn law_live_claim_excludes(holder: i64, claimed_at: i64, now: i64)
    requires
        next_generation(holder) != 0,
        sat_sub_i64(now, claimed_at) < WEDGED_AFTER_MS,
    ensures
        !claim_allowed(next_generation(holder), claimed_at, now),
{
}

/// Releasing a claim that nobody took over leaves the coordinator idle.
pub proof fn law_release_frees_own_claim(holder: i64)
    ensures
        holder_after_release(next_generation(holder), next_generation(holder)) == 0,
{
}

/// A wedged scan that finally lets go does not clear the claim of the scan
/// that took over from it.
pub proof fn law_stale_release_keeps_takeover(stale: i64)
    requires
        next_generation(stale) != 0,
    ensures
        holder_after_release(next_generation(stale), stale) == next_generation(stale),
        holder_after_release(next_generation(stale), stale) != 0,
{
}

/// Quarantine only grows: what was known stays known, and every newly
/// reported directory is known afterwards.
pub proof fn law_quarantine_accumulates(known: Seq<PathView>, reported: Seq<PathView>)
    ensures
        forall|p: PathView| known.contains(p) ==> #[trigger] insert_all(known, reported).contains(p),
        forall|p: PathView| reported.contains(p) ==> #[trigger] insert_all(known, reported).contains(p),
    decreases reported.len(),
{
    if reported.len() > 0 {
        let rest = reported.drop_last();
        law_quarantine_accumulates(known, rest);
        let before = insert_all(known, rest);
        let last = reported.last();
        assert forall|p: PathView| before.contains(p) implies #[trigger] insert_view(before, last).contains(p) by {
            if !before.contains(last) {
                let i = choose|i: int| 0 <= i < before.len() && before[i] == p;
                assert(before.push(last)[i] == p);
            }
        }
        assert(insert_view(before, last).contains(last)) by {
            if !before.contains(last) {
                assert(before.push(last)[before.len() as int] == last);
            }
        }
        assert forall|p: PathView| reported.contains(p) implies #[trigger] insert_all(known, reported).contains(p) by {
            let i = choose|i: int| 0 <= i < reported.len() && reported[i] == p;
            if i < reported.len() - 1 {
                assert(rest[i] == p);
                assert(rest.contains(p));
            }
        }
    }
}

} // verus!
