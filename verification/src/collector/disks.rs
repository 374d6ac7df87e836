//! Mounted volumes for the Disk drawer: what users think of as drives,
//! boot volume first, then largest first.
use vstd::prelude::*;
use crate::text::{starts_with, chars_of, starts_with_str};

verus! {

/// One volume as the system lists it.
#[derive(Debug)]
pub struct RawDisk {
    pub name: String,
    pub mount_point: String,
    pub fs_type: String,
    pub total: u64,
    pub available: u64,
    pub is_removable: bool,
}

#[derive(Debug)]
pub struct DiskInfo {
    pub name: String,
    pub mount_point: String,
    pub fs_type: String,
    pub total_bytes: u64,
    pub used_bytes: u64,
    pub is_removable: bool,
    pub is_boot: bool,
}

/// System-managed volumes that are not drives to a user: VM swap,
/// preboot, update, recovery and similar snapshots, and the data half of
/// the boot volume.
pub open spec fn hidden_mount(m: Seq<char>) -> bool {
    ||| starts_with(m, "/System/Volumes/VM"@)
    ||| starts_with(m, "/System/Volumes/Preboot"@)
    ||| starts_with(m, "/System/Volumes/Update"@)
    ||| starts_with(m, "/System/Volumes/xarts"@)
    ||| starts_with(m, "/System/Volumes/iSCPreboot"@)
    ||| starts_with(m, "/System/Volumes/Hardware"@)
    ||| starts_with(m, "/System/Volumes/Recovery"@)
    ||| m == "/System/Volumes/Data"@
    ||| starts_with(m, "/private/var/vm"@)
}

fn is_hidden_mount(m: &str) -> (b: bool)
    ensures
        b == hidden_mount(m@),
{
    let cs = chars_of(m);
    let c = cs.as_slice();
    starts_with_str(c, "/System/Volumes/VM") || starts_with_str(c, "/System/Volumes/Preboot")
        || starts_with_str(c, "/System/Volumes/Update") || starts_with_str(c, "/System/Volumes/xarts")
        || starts_with_str(c, "/System/Volumes/iSCPreboot") || starts_with_str(c, "/System/Volumes/Hardware")
        || starts_with_str(c, "/System/Volumes/Recovery") || crate::text::str_eq(m, "/System/Volumes/Data")
        || starts_with_str(c, "/private/var/vm")
}

/// A listed drive as the verifier sees it.
pub struct DiskModel {
    pub name: Seq<char>,
    pub mount_point: Seq<char>,
    pub fs_type: Seq<char>,
    pub total_bytes: u64,
    pub used_bytes: u64,
    pub is_removable: bool,
    pub is_boot: bool,
}

pub open spec fn disk_model(d: DiskInfo) -> DiskModel {
    DiskModel {
        name: d.name@,
        mount_point: d.mount_point@,
        fs_type: d.fs_type@,
        total_bytes: d.total_bytes,
        used_bytes: d.used_bytes,
        is_removable: d.is_removable,
        is_boot: d.is_boot,
    }
}

pub open spec fn disk_models(s: Seq<DiskInfo>) -> Seq<DiskModel> {
    s.map_values(|d: DiskInfo| disk_model(d))
}

/// The drive a volume is shown as, or `None` for a hidden or empty one.
pub open spec fn disk_row(r: RawDisk) -> Option<DiskModel> {
    if hidden_mount(r.mount_point@) || r.total == 0 {
        None
    } else {
        Some(
            DiskModel {
                name: r.name@,
                mount_point: r.mount_point@,
                fs_type: r.fs_type@,
                total_bytes: r.total,
                used_bytes: if r.total >= r.available {
                    (r.total - r.available) as u64
                } else {
                    0
                },
                is_removable: r.is_removable,
                is_boot: r.mount_point@ == "/"@,
            },
        )
    }
}

pub open spec fn disk_rows(rs: Seq<RawDisk>) -> Seq<DiskModel>
    decreases rs.len(),
{
    if rs.len() == 0 {
        Seq::empty()
    } else {
        match disk_row(rs.last()) {
            Some(d) => disk_rows(rs.drop_last()).push(d),
            None => disk_rows(rs.drop_last()),
        }
    }
}

/// `a` may be listed before `b`: the boot volume first, then larger first.
pub open spec fn disk_before(a: DiskModel, b: DiskModel) -> bool {
    (a.is_boot && !b.is_boot) || (a.is_boot == b.is_boot && a.total_bytes >= b.total_bytes)
}

pub open spec fn disks_sorted(s: Seq<DiskModel>) -> bool {
    forall|a: int, b: int| 0 <= a < b < s.len() ==> disk_before(#[trigger] s[a], #[trigger] s[b])
}

fn build_disk(r: &RawDisk) -> (d: Option<DiskInfo>)
    ensures
        match disk_row(*r) {
            Some(m) => d is Some && disk_model(d->0) == m,
            None => d is None,
        },
{
    if is_hidden_mount(r.mount_point.as_str()) || r.total == 0 {
        return None;
    }
    Some(DiskInfo {
        name: r.name.clone(),
        mount_point: r.mount_point.clone(),
        fs_type: r.fs_type.clone(),
        total_bytes: r.total,
        used_bytes: r.total.saturating_sub(r.available),
        is_removable: r.is_removable,
        is_boot: crate::text::str_eq(r.mount_point.as_str(), "/"),
    })
}

/// No system-managed volume is ever listed as a drive: of the drives
/// [`list_disks`] returns (any sequence holding the same drives as
/// `disk_rows(raw)`), none is mounted at or under `/System/Volumes/VM`,
/// `Preboot`, `Update`, `xarts`, `iSCPreboot`, `Hardware` or `Recovery` in
/// `/System/Volumes`, nor under `/private/var/vm`, nor at
/// `/System/Volumes/Data`.
pub proof fn law_system_volumes_are_never_listed(raw: Seq<RawDisk>, listed: Seq<DiskModel>)
    requires
        listed.to_multiset() == disk_rows(raw).to_multiset(),
    ensures
        forall|i: int|
            0 <= i < listed.len() ==> {
                let m = (#[trigger] listed[i]).mount_point;
                &&& !starts_with(m, "/System/Volumes/VM"@)
                &&& !starts_with(m, "/System/Volumes/Preboot"@)
                &&& !starts_with(m, "/System/Volumes/Update"@)
                &&& !starts_with(m, "/System/Volumes/xarts"@)
                &&& !starts_with(m, "/System/Volumes/iSCPreboot"@)
                &&& !starts_with(m, "/System/Volumes/Hardware"@)
                &&& !starts_with(m, "/System/Volumes/Recovery"@)
                &&& !starts_with(m, "/private/var/vm"@)
                &&& m != "/System/Volumes/Data"@
            },
{
    lemma_rows_are_shown(raw);
    assert forall|i: int| 0 <= i < listed.len() implies !hidden_mount(
        (#[trigger] listed[i]).mount_point,
    ) by {
        vstd::seq_lib::to_multiset_contains(listed, listed[i]);
        vstd::seq_lib::to_multiset_contains(disk_rows(raw), listed[i]);
        assert(listed.contains(listed[i]));
        let j = choose|j: int| 0 <= j < disk_rows(raw).len() && disk_rows(raw)[j] == listed[i];
    }
}

/// Every row `disk_rows` keeps is mounted somewhere a user sees.
proof fn lemma_rows_are_shown(raw: Seq<RawDisk>)
    ensures
        forall|j: int|
            0 <= j < disk_rows(raw).len() ==> !hidden_mount(#[trigger] disk_rows(raw)[j].mount_point),
    decreases raw.len(),
{
    if raw.len() > 0 {
        lemma_rows_are_shown(raw.drop_last());
        let prev = disk_rows(raw.drop_last());
        match disk_row(raw.last()) {
            Some(d) => {
                assert forall|j: int| 0 <= j < disk_rows(raw).len() implies !hidden_mount(
                    #[trigger] disk_rows(raw)[j].mount_point,
                ) by {
                    if j < prev.len() {
                        assert(disk_rows(raw)[j] == prev[j]);
                    }
                }
            },
            None => {},
        }
    }
}

/// The drives to show, boot volume first, then by size, larger first;
/// volumes of equal rank keep the order they were listed in.
pub fn list_disks(raw: &Vec<RawDisk>) -> (r: Vec<DiskInfo>)
    ensures
        disks_sorted(disk_models(r@)),
        disk_models(r@).to_multiset() == disk_rows(raw@).to_multiset(),
{
    let mut out: Vec<DiskInfo> = Vec::new();
    let n = raw.len();
    assert(disk_models(out@) =~= Seq::<DiskModel>::empty());
    for i in 0..n
        invariant
            n == raw@.len(),
            disks_sorted(disk_models(out@)),
            disk_models(out@).to_multiset() == disk_rows(raw@.take(i as int)).to_multiset(),
    {
        assert(raw@.take(i + 1).drop_last() =~= raw@.take(i as int));
        assert(raw@.take(i + 1).last() == raw@[i as int]);
        match build_disk(&raw[i]) {
            None => {},
            Some(d) => {
                let mut pos: usize = 0;
                while pos < out.len() && (out[pos].is_boot && !d.is_boot || (out[pos].is_boot == d.is_boot && out[pos].total_bytes >= d.total_bytes))
                    invariant
                        pos <= out@.len(),
                        forall|k: int| 0 <= k < pos ==> disk_before(#[trigger] disk_model(out@[k]), disk_model(d)),
                    decreases out@.len() - pos,
                {
                    pos += 1;
                }
                let ghost before = disk_models(out@);
                let ghost x = disk_model(d);
                proof {
                    assert forall|k: int| pos <= k < before.len() implies disk_before(x, #[trigger] before[k]) by {
                        assert(!disk_before(before[pos as int], x));
                        if k > pos {
                            assert(disk_before(before[pos as int], before[k]));
                        }
                    }
                }
                out.insert(pos, d);
                proof {
                    let o = disk_models(out@);
                    assert(o =~= before.insert(pos as int, x));
                    assert forall|a: int, b: int| 0 <= a < b < o.len() implies disk_before(#[trigger] o[a], #[trigger] o[b]) by {
                        if b < pos {
                            assert(o[a] == before[a] && o[b] == before[b]);
                        } else if b == pos {
                            assert(o[a] == before[a]);
                        } else if a == pos {
                            assert(o[b] == before[b - 1]);
                        } else if a < pos {
                            assert(o[a] == before[a] && o[b] == before[b - 1]);
                            assert(disk_before(before[a], x));
                            assert(disk_before(x, before[b - 1]));
                        } else {
                            assert(o[a] == before[a - 1] && o[b] == before[b - 1]);
                        }
                    }
                    vstd::seq_lib::to_multiset_insert(before, pos as int, x);
                    vstd::seq_lib::to_multiset_build(disk_rows(raw@.take(i as int)), x);
                }
            },
        }
    }
    assert(raw@.take(n as int) =~= raw@);
    out
}

} // verus!
