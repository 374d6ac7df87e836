//! The Disk drawer's "largest folders" endpoints: cached rows, a budgeted
//! re-measure of the visible rows, and a full rescan.
use vstd::prelude::*;
use crate::storage::folders::FolderRow;

verus! {

/// Children returned per level when the request does not say.
pub const DEFAULT_LIMIT: u32 = 5;

/// Most children returned per level.
pub const MAX_LIMIT: u32 = 50;

/// Paths accepted per verify call, whatever the time budget.
pub const MAX_VERIFY_PATHS: usize = 16;

/// `?path=&limit=` of `GET /api/folders`.
#[derive(Debug)]
pub struct FoldersQuery {
    /// Directory to list; the scan root when absent.
    pub path: Option<String>,
    pub limit: Option<u32>,
}

#[derive(Debug)]
pub struct FoldersResponse {
    /// The directory the children belong to.
    pub path: String,
    /// Its own row, when recorded.
    pub total: Option<FolderRow>,
    pub children: Vec<FolderRow>,
    /// Unix ms of the last completed full scan.
    pub last_full_scan_at: Option<i64>,
    /// Whether a scan is running.
    pub scanning: bool,
    /// Whether no scan has ever completed.
    pub never_scanned: bool,
}

/// Body of `POST /api/folders/verify`.
#[derive(Debug)]
pub struct VerifyRequest {
    pub paths: Vec<String>,
}

#[derive(Debug)]
pub struct VerifyResponse {
    /// The rows re-measured within the budget.
    pub updated: Vec<FolderRow>,
    /// False when nothing was measured.
    pub ran: bool,
}

#[derive(Debug)]
pub struct RescanResponse {
    /// False when a scan was already running.
    pub started: bool,
}

/// The number of children to return: the requested limit, or
/// [`DEFAULT_LIMIT`], clamped to `1..=MAX_LIMIT`.
pub fn effective_limit(limit: Option<u32>) -> (r: u32)
    ensures
        r == match limit {
            Some(l) => if l < 1 {
                1
            } else if l > MAX_LIMIT {
                MAX_LIMIT
            } else {
                l
            },
            None => DEFAULT_LIMIT,
        },
        1 <= r <= MAX_LIMIT,
{
    let l = match limit {
        Some(l) => l,
        None => DEFAULT_LIMIT,
    };
    if l < 1 {
        1
    } else if l > MAX_LIMIT {
        MAX_LIMIT
    } else {
        l
    }
}

/// The paths that passed the root check, in order.
pub open spec fn allowed_paths(paths: Seq<Seq<char>>, allowed: Seq<bool>) -> Seq<Seq<char>>
    decreases paths.len(),
{
    if paths.len() == 0 {
        Seq::empty()
    } else if allowed[paths.len() - 1] {
        allowed_paths(paths.drop_last(), allowed.take(paths.len() - 1)).push(paths.last())
    } else {
        allowed_paths(paths.drop_last(), allowed.take(paths.len() - 1))
    }
}

/// The paths one verify call measures: those inside the scan root
/// (`allowed[i]` says whether `paths[i]` is), at most
/// [`MAX_VERIFY_PATHS`] of them, in request order.
pub fn select_verify_paths(paths: &Vec<String>, allowed: &Vec<bool>) -> (r: Vec<String>)
    requires
        allowed@.len() == paths@.len(),
    ensures
        r.deep_view() == {
            let a = allowed_paths(paths.deep_view(), allowed@);
            if a.len() > MAX_VERIFY_PATHS {
                a.take(MAX_VERIFY_PATHS as int)
            } else {
                a
            }
        },
{
    let mut r: Vec<String> = Vec::new();
    let n = paths.len();
    let mut i: usize = 0;
    while i < n && r.len() < MAX_VERIFY_PATHS
        invariant
            n == paths@.len() == allowed@.len(),
            i <= n,
            r.deep_view() == allowed_paths(paths.deep_view().take(i as int), allowed@.take(i as int)),
            r@.len() <= MAX_VERIFY_PATHS,
        decreases n - i,
    {
        let ghost pre = paths.deep_view().take(i as int);
        assert(paths.deep_view().take(i + 1).drop_last() =~= pre);
        assert(allowed@.take(i + 1).take(i as int) =~= allowed@.take(i as int));
        assert(paths.deep_view().take(i + 1).last() == paths@[i as int]@);
        if allowed[i] {
            let ghost before = r.deep_view();
            r.push(paths[i].clone());
            assert(r.deep_view() =~= before.push(paths@[i as int]@));
        }
        i += 1;
    }
    proof {
        lemma_allowed_prefix(paths.deep_view(), allowed@, i as int);
    }
    r
}

proof fn lemma_allowed_len(paths: Seq<Seq<char>>, allowed: Seq<bool>)
    requires
        allowed.len() == paths.len(),
    ensures
        allowed_paths(paths, allowed).len() <= paths.len(),
    decreases paths.len(),
{
    if paths.len() > 0 {
        lemma_allowed_len(paths.drop_last(), allowed.take(paths.len() - 1));
    }
}

/// Extending the scanned prefix only appends: the selection from a prefix
/// is a prefix of the full selection.
proof fn lemma_allowed_extends(paths: Seq<Seq<char>>, allowed: Seq<bool>, i: int)
    requires
        allowed.len() == paths.len(),
        0 <= i <= paths.len(),
    ensures
        allowed_paths(paths.take(i), allowed.take(i)).len() <= allowed_paths(paths, allowed).len(),
        allowed_paths(paths, allowed).take(allowed_paths(paths.take(i), allowed.take(i)).len() as int)
            == allowed_paths(paths.take(i), allowed.take(i)),
    decreases paths.len() - i,
{
    if i == paths.len() {
        assert(paths.take(i) =~= paths);
        assert(allowed.take(i) =~= allowed);
        assert(allowed_paths(paths, allowed).take(allowed_paths(paths, allowed).len() as int) =~= allowed_paths(paths, allowed));
    } else {
        let d = paths.drop_last();
        let da = allowed.take(paths.len() - 1);
        assert(d.take(i) =~= paths.take(i));
        assert(da.take(i) =~= allowed.take(i));
        lemma_allowed_extends(d, da, i);
        let full = allowed_paths(paths, allowed);
        let dfull = allowed_paths(d, da);
        let part = allowed_paths(paths.take(i), allowed.take(i));
        if allowed[paths.len() - 1] {
            assert(full == dfull.push(paths.last()));
            assert(full.take(part.len() as int) =~= dfull.take(part.len() as int));
        } else {
            assert(full == dfull);
        }
    }
}

proof fn lemma_allowed_prefix(paths: Seq<Seq<char>>, allowed: Seq<bool>, i: int)
    requires
        allowed.len() == paths.len(),
        0 <= i <= paths.len(),
        i < paths.len() ==> allowed_paths(paths.take(i), allowed.take(i)).len() >= MAX_VERIFY_PATHS,
        allowed_paths(paths.take(i), allowed.take(i)).len() <= MAX_VERIFY_PATHS,
    ensures
        ({
            let a = allowed_paths(paths, allowed);
            let part = allowed_paths(paths.take(i), allowed.take(i));
            part == if a.len() > MAX_VERIFY_PATHS {
                a.take(MAX_VERIFY_PATHS as int)
            } else {
                a
            }
        }),
{
    lemma_allowed_extends(paths, allowed, i);
    let a = allowed_paths(paths, allowed);
    let part = allowed_paths(paths.take(i), allowed.take(i));
    if i == paths.len() {
        assert(paths.take(i) =~= paths);
        assert(allowed.take(i) =~= allowed);
    } else {
        assert(part.len() == MAX_VERIFY_PATHS);
        if a.len() == MAX_VERIFY_PATHS {
            assert(a.take(MAX_VERIFY_PATHS as int) =~= a);
        }
    }
}

/// Assemble the listing response; the drawer shows "first scan pending"
/// when no scan has ever completed.
pub fn folders_response(
    path: String,
    total: Option<FolderRow>,
    children: Vec<FolderRow>,
    last_full_scan_at: Option<i64>,
    scanning: bool,
) -> (r: FoldersResponse)
    ensures
        r.path@ == path@,
        r.total == total,
        r.children@ == children@,
        r.last_full_scan_at == last_full_scan_at,
        r.scanning == scanning,
        r.never_scanned == (last_full_scan_at is None),
{
    FoldersResponse {
        path,
        total,
        children,
        last_full_scan_at,
        scanning,
        never_scanned: last_full_scan_at.is_none(),
    }
}

/// The verify response: it ran when anything came back re-measured.
pub fn verify_response(updated: Vec<FolderRow>) -> (r: VerifyResponse)
    ensures
        r.updated@ == updated@,
        r.ran == (updated@.len() > 0),
{
    let ran = updated.len() > 0;
    VerifyResponse { updated, ran }
}

/// The rescan response: a rescan starts only when none is running.
pub fn rescan_response(running: bool) -> (r: RescanResponse)
    ensures
        r.started == !running,
{
    RescanResponse { started: !running }
}

} // verus!
