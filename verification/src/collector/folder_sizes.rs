//! Directory-size accounting for the Disk drawer's "largest folders" view.
//!
//! One traversal yields the size and file count of every directory in a tree.
//! Size answers "what is big"; file count predicts what re-measuring that
//! subtree will cost, which is what lets the drawer refresh cheap folders on
//! open and leave expensive ones on cache.
//!
//! The traversal is a state machine: [`Walk`] decides what to do next and the
//! caller performs the filesystem work it asks for. [`Walk::next`] either asks
//! for a directory to be opened ([`WalkAction::Open`]), reports that it made
//! progress on its own ([`WalkAction::Continue`]), or says the walk is over
//! ([`WalkAction::Done`]). The caller answers an `Open` with
//! [`Walk::opened`], handing over the directory's entries or `None` when the
//! directory refused to open or never answered.
//!
//! Accounting rules, chosen to match `du`:
//!   - a file contributes its allocated blocks (`st_blocks * 512`);
//!   - a file with several hard links is counted once per (device, inode);
//!   - symlinks are never followed;
//!   - the walk stays on the root's device;
//!   - the two cloud-provider areas under `~/Library` are never entered, see
//!     [`is_cloud_provider_area`];
//!   - a directory that refused to open, or that an earlier walk found closed,
//!     counts as one unreadable entry and is never probed again; after
//!     [`BLOCKED_SIBLINGS_BEFORE_COLLAPSE`] refused children, their parent is
//!     written off too, except the directory the walk was pointed at.
//!
//! Sums saturate at `u64::MAX` rather than wrapping.
use vstd::prelude::*;
use crate::paths::{PathView, is_within, same_path, path_in, clone_path, clone_paths, child_path, parent_path, insert_path};
use crate::text::str_eq;
use vstd::multiset::Multiset;

verus! {

/// Directories smaller than this are not reported. They can never surface in
/// a "largest folders" view.
pub const MIN_SIZE_BYTES: u64 = 10485760;

/// Nesting beyond this depth is not descended into.
pub const MAX_DEPTH: u32 = 64;

/// After this many refused children, the parent is written off wholesale.
pub const BLOCKED_SIBLINGS_BEFORE_COLLAPSE: u32 = 3;

pub open spec fn sat_add(a: u64, b: u64) -> u64 {
    if a + b > u64::MAX {
        u64::MAX
    } else {
        (a + b) as u64
    }
}

/// Running totals for one directory's subtree.
#[derive(Clone, Copy)]
pub struct Subtotal {
    pub size_bytes: u64,
    pub file_count: u64,
    pub unreadable: u64,
}

impl Subtotal {
    pub fn zero() -> (r: Subtotal)
        ensures
            r.size_bytes == 0,
            r.file_count == 0,
            r.unreadable == 0,
    {
        Subtotal { size_bytes: 0, file_count: 0, unreadable: 0 }
    }

    /// Fold a child's subtree into this one.
    pub fn absorb(&mut self, other: Subtotal)
        ensures
            final(self).size_bytes == sat_add(old(self).size_bytes, other.size_bytes),
            final(self).file_count == sat_add(old(self).file_count, other.file_count),
            final(self).unreadable == sat_add(old(self).unreadable, other.unreadable),
    {
        self.size_bytes = self.size_bytes.saturating_add(other.size_bytes);
        self.file_count = self.file_count.saturating_add(other.file_count);
        self.unreadable = self.unreadable.saturating_add(other.unreadable);
    }
}

/// One directory's accounting, covering its entire subtree.
pub struct FolderSize {
    pub path: Vec<String>,
    pub parent: Vec<String>,
    /// Allocated bytes of everything beneath this directory.
    pub size_bytes: u64,
    /// Files beneath this directory.
    pub file_count: u64,
    /// Entries that could not be read or descended into.
    pub unreadable: u64,
}

impl FolderSize {
    pub open spec fn path_view(&self) -> PathView {
        self.path.deep_view()
    }
}

/// What the caller learned about one directory entry.
pub enum DirEntryInfo {
    /// The entry could not be listed or `stat`ed.
    Unreadable,
    /// A symbolic link; never followed.
    Symlink,
    /// A subdirectory named `name` on device `dev`.
    Dir { name: String, dev: u64 },
    /// Anything else: a file with its device, inode, link count and
    /// 512-byte block count.
    File { dev: u64, ino: u64, nlink: u64, blocks: u64 },
}

pub open spec fn cloud_area_spec(dir: PathView) -> bool {
    &&& dir.len() >= 2
    &&& dir[dir.len() - 2] == "Library"@
    &&& (dir.last() == "CloudStorage"@ || dir.last() == "Mobile Documents"@)
}

/// The two directories under `~/Library` that macOS reserves for File
/// Provider content: `CloudStorage` and `Mobile Documents`.
///
/// Opening one can block in the kernel until a provider extension answers,
/// which may be never, so the walk does not enter them at all.
pub fn is_cloud_provider_area(dir: &Vec<String>) -> (r: bool)
    ensures
        r == cloud_area_spec(dir.deep_view()),
{
    let n = dir.len();
    if n < 2 {
        return false;
    }
    let parent_name = dir[n - 2].as_str();
    let name = dir[n - 1].as_str();
    assert(dir.deep_view()[n - 2] == dir@[n - 2]@);
    assert(dir.deep_view().last() == dir@[n - 1]@);
    str_eq(parent_name, "Library") && (str_eq(name, "CloudStorage") || str_eq(
        name,
        "Mobile Documents",
    ))
}


/// How many of `refused` are children of `parent`.
pub open spec fn count_children(refused: Seq<PathView>, parent: PathView) -> nat
    decreases refused.len(),
{
    if refused.len() == 0 {
        0
    } else {
        count_children(refused.drop_last(), parent) + if refused.last().len() > 0
            && refused.last().drop_last() == parent {
            1nat
        } else {
            0nat
        }
    }
}

/// One step of a walk as its tally counts it: an entry taken from a
/// listing, a directory found closed without being opened, or a directory
/// that refused to open.
pub enum Step {
    Took(DirEntryInfo),
    Closed,
    Refused,
}

/// `x` saturated into `u64`.
pub open spec fn clamp_u64(x: int) -> u64 {
    if x > u64::MAX {
        u64::MAX
    } else if x < 0 {
        0
    } else {
        x as u64
    }
}

/// The (device, inode) of every multiply-linked file counted in `steps`, in
/// the order they were first met.
pub open spec fn linked_keys(steps: Seq<Step>) -> Seq<(u64, u64)>
    decreases steps.len(),
{
    if steps.len() == 0 {
        Seq::empty()
    } else {
        let prev = linked_keys(steps.drop_last());
        match steps.last() {
            Step::Took(DirEntryInfo::File { dev, ino, nlink, blocks }) => if nlink > 1 && !prev.contains(
                (dev, ino),
            ) {
                prev.push((dev, ino))
            } else {
                prev
            },
            _ => prev,
        }
    }
}

/// What the last of `steps` adds to the tally, as (bytes, files,
/// unreadable): a file its allocated bytes and one file, unless it is a
/// further link to an inode already counted; an unreadable entry, a closed
/// directory or a refused one, one unreadable; anything else nothing.
pub open spec fn last_step_adds(steps: Seq<Step>) -> (int, int, int) {
    match steps.last() {
        Step::Took(DirEntryInfo::Unreadable) => (0, 0, 1),
        Step::Took(DirEntryInfo::File { dev, ino, nlink, blocks }) => if nlink > 1 && linked_keys(
            steps.drop_last(),
        ).contains((dev, ino)) {
            (0, 0, 0)
        } else {
            (blocks * 512, 1, 0)
        },
        Step::Took(_) => (0, 0, 0),
        Step::Closed => (0, 0, 1),
        Step::Refused => (0, 0, 1),
    }
}

pub open spec fn add3(a: (int, int, int), b: (int, int, int)) -> (int, int, int) {
    (a.0 + b.0, a.1 + b.1, a.2 + b.2)
}

/// The exact (bytes, files, unreadable) that `steps` add up to.
pub open spec fn tally(steps: Seq<Step>) -> (int, int, int)
    decreases steps.len(),
{
    if steps.len() == 0 {
        (0, 0, 0)
    } else {
        add3(tally(steps.drop_last()), last_step_adds(steps))
    }
}

/// The entries taken in `steps`.
pub open spec fn taken(steps: Seq<Step>) -> Multiset<DirEntryInfo>
    decreases steps.len(),
{
    if steps.len() == 0 {
        Multiset::empty()
    } else {
        match steps.last() {
            Step::Took(e) => taken(steps.drop_last()).insert(e),
            _ => taken(steps.drop_last()),
        }
    }
}

/// `s` holds the saturated value of the exact totals `e`.
pub open spec fn sub_is(s: Subtotal, e: (int, int, int)) -> bool {
    &&& e.0 >= 0 && e.1 >= 0 && e.2 >= 0
    &&& s.size_bytes == clamp_u64(e.0)
    &&& s.file_count == clamp_u64(e.1)
    &&& s.unreadable == clamp_u64(e.2)
}

proof fn lemma_sat_add_clamp(a: int, b: int)
    requires
        a >= 0,
        b >= 0,
    ensures
        sat_add(clamp_u64(a), clamp_u64(b)) == clamp_u64(a + b),
{
}

proof fn lemma_absorb_exact(s: Subtotal, a: (int, int, int), t: Subtotal, b: (int, int, int))
    requires
        sub_is(s, a),
        sub_is(t, b),
    ensures
        sub_is(
            Subtotal {
                size_bytes: sat_add(s.size_bytes, t.size_bytes),
                file_count: sat_add(s.file_count, t.file_count),
                unreadable: sat_add(s.unreadable, t.unreadable),
            },
            add3(a, b),
        ),
{
    lemma_sat_add_clamp(a.0, b.0);
    lemma_sat_add_clamp(a.1, b.1);
    lemma_sat_add_clamp(a.2, b.2);
}

proof fn lemma_skip_one(s: Seq<DirEntryInfo>, i: int)
    requires
        0 <= i < s.len(),
    ensures
        s.skip(i).to_multiset() == s.skip(i + 1).to_multiset().insert(s[i]),
{
    assert(s.skip(i) =~= s.skip(i + 1).insert(0, s[i]));
    vstd::seq_lib::to_multiset_insert(s.skip(i + 1), 0, s[i]);
}

proof fn lemma_skip_all(s: Seq<DirEntryInfo>, i: int)
    requires
        i == s.len(),
    ensures
        s.skip(i).to_multiset() == Multiset::<DirEntryInfo>::empty(),
{
    assert(s.skip(i).len() == 0);
    vstd::seq_lib::to_multiset_len(s.skip(i));
    vstd::multiset::lemma_multiset_empty_len(s.skip(i).to_multiset());
}

/// Taking a step that is not an entry changes neither the links counted
/// nor the entries taken, and adds what the step adds to the tally.
proof fn lemma_push_step(steps: Seq<Step>, st: Step)
    ensures
        tally(steps.push(st)) == add3(tally(steps), last_step_adds(steps.push(st))),
        st !is Took ==> linked_keys(steps.push(st)) == linked_keys(steps),
        st !is Took ==> taken(steps.push(st)) == taken(steps),
        st matches Step::Took(e) ==> taken(steps.push(st)) == taken(steps).insert(e),
{
    assert(steps.push(st).drop_last() == steps);
}

/// Result of one traversal.
pub struct ScanResult {
    /// Every directory at or above [`MIN_SIZE_BYTES`], then the root itself,
    /// which is reported whatever its size.
    pub folders: Vec<FolderSize>,
    /// Wall-clock milliseconds the traversal took.
    pub elapsed_ms: u64,
    /// True if a deadline cut the walk short; totals are then lower bounds.
    pub truncated: bool,
    /// Directories that never answered, plus any parent collapsed under
    /// [`BLOCKED_SIBLINGS_BEFORE_COLLAPSE`]. Feeding these back as `skip` on the
    /// next walk keeps the cost of a closed directory a one-off.
    pub blocked: Vec<Vec<String>>,
    /// Threads left blocked opening a directory.
    pub abandoned_threads: u32,
}

/// A directory that has been opened and whose entries are being accounted.
struct Frame {
    path: Vec<String>,
    depth: u32,
    entries: Vec<DirEntryInfo>,
    next: usize,
    total: Subtotal,
    /// The exact totals `total` saturates.
    exact: Ghost<(int, int, int)>,
    /// The steps taken before this directory was entered.
    entered: Ghost<Seq<Step>>,
}

/// What the walk needs from its caller next.
pub enum WalkAction {
    /// Progress was made without any filesystem work; call `next` again.
    Continue,
    /// Open this directory and report back with [`Walk::opened`].
    Open(Vec<String>),
    /// The walk is over; collect the result with [`Walk::finish`].
    Done,
}

/// An in-progress traversal. See the module documentation.
pub struct Walk {
    root: Vec<String>,
    root_dev: Option<u64>,
    skip: Vec<Vec<String>>,
    blocked: Vec<Vec<String>>,
    refused: Vec<Vec<String>>,
    seen: Vec<(u64, u64)>,
    folders: Vec<FolderSize>,
    truncated: bool,
    stack: Vec<Frame>,
    awaiting: Option<(Vec<String>, u32)>,
    started: bool,
    root_total: Option<Subtotal>,
    /// Every step taken so far, in order.
    steps: Ghost<Seq<Step>>,
    /// Every entry handed in through [`Walk::opened`].
    handed: Ghost<Multiset<DirEntryInfo>>,
    /// The exact totals `root_total` saturates.
    root_exact: Ghost<(int, int, int)>,
    /// Every directory beneath the root whose subtree has been finished, in
    /// the order they finished: its path, the steps taken before it was
    /// entered and the steps taken by the time it was finished.
    spans: Ghost<Seq<Span>>,
    /// For each recorded folder, the index of its span.
    recorded: Ghost<Seq<int>>,
}

/// A finished subtree: its path, the steps taken before it was entered, and
/// the steps taken by the time it was finished.
pub type Span = (PathView, Seq<Step>, Seq<Step>);

/// What the steps from `a` on to `b` add to the tally.
pub open spec fn between(a: Seq<Step>, b: Seq<Step>) -> (int, int, int) {
    (tally(b).0 - tally(a).0, tally(b).1 - tally(a).1, tally(b).2 - tally(a).2)
}

/// `f` is the folder recorded for the finished subtree `sp`.
pub open spec fn folder_matches(f: FolderSize, sp: Span) -> bool {
    &&& f.path.deep_view() == sp.0
    &&& f.size_bytes == clamp_u64(between(sp.1, sp.2).0)
    &&& f.file_count == clamp_u64(between(sp.1, sp.2).1)
    &&& f.unreadable == clamp_u64(between(sp.1, sp.2).2)
}

/// Whether a finished subtree clears the size floor.
pub open spec fn span_is_large(sp: Span) -> bool {
    clamp_u64(between(sp.1, sp.2).0) >= MIN_SIZE_BYTES
}

proof fn lemma_prefix_trans(a: Seq<Step>, b: Seq<Step>, c: Seq<Step>)
    requires
        a.is_prefix_of(b),
        b.is_prefix_of(c),
    ensures
        a.is_prefix_of(c),
{
    assert(c.subrange(0, a.len() as int) =~= b.subrange(0, a.len() as int));
}

/// The recorded folders are exactly the large finished subtrees, in the
/// order they finished, each with the totals of its own steps: `recorded`
/// gives, for each folder, the index of its span.
#[verifier::opaque]
spec fn record_ok(folders: Seq<FolderSize>, spans: Seq<Span>, recorded: Seq<int>) -> bool {
    &&& recorded.len() == folders.len()
    &&& forall|i: int| 0 <= i < recorded.len() ==> 0 <= #[trigger] recorded[i] < spans.len()
    &&& forall|i: int, i2: int| 0 <= i < i2 < recorded.len() ==> recorded[i] < recorded[i2]
    &&& forall|i: int|
        0 <= i < folders.len() ==> folder_matches(#[trigger] folders[i], spans[recorded[i]])
    &&& forall|j: int| 0 <= j < spans.len() && span_is_large(#[trigger] spans[j]) ==> recorded.contains(j)
}

proof fn lemma_record_small(folders: Seq<FolderSize>, spans: Seq<Span>, recorded: Seq<int>, sp: Span)
    requires
        record_ok(folders, spans, recorded),
        !span_is_large(sp),
    ensures
        record_ok(folders, spans.push(sp), recorded),
{
    reveal(record_ok);
    let s2 = spans.push(sp);
    assert(forall|j: int| 0 <= j < spans.len() ==> s2[j] == spans[j]);
}

proof fn lemma_record_large(
    folders: Seq<FolderSize>,
    spans: Seq<Span>,
    recorded: Seq<int>,
    sp: Span,
    f: FolderSize,
)
    requires
        record_ok(folders, spans, recorded),
        folder_matches(f, sp),
    ensures
        record_ok(folders.push(f), spans.push(sp), recorded.push(spans.len() as int)),
{
    reveal(record_ok);
    let s2 = spans.push(sp);
    let r2 = recorded.push(spans.len() as int);
    let f2 = folders.push(f);
    assert(forall|j: int| 0 <= j < spans.len() ==> s2[j] == spans[j]);
    assert(forall|i: int| 0 <= i < recorded.len() ==> r2[i] == recorded[i]);
    assert(forall|i: int| 0 <= i < folders.len() ==> f2[i] == folders[i]);
    assert forall|j: int| 0 <= j < s2.len() && span_is_large(#[trigger] s2[j]) implies r2.contains(j) by {
        if j < spans.len() {
            let i = choose|i: int| 0 <= i < recorded.len() && recorded[i] == j;
            assert(r2[i] == j);
        } else {
            assert(r2[recorded.len() as int] == j);
        }
    }
}

/// Each open directory's exact totals carry the tally from where it was
/// entered to where the next one down was entered.
#[verifier::opaque]
spec fn chain_ok(s: Seq<Frame>) -> bool {
    forall|k: int|
        0 <= k < s.len() - 1 ==> add3(#[trigger] s[k].exact@, tally(s[k].entered@)) == tally(
            s[k + 1].entered@,
        )
}

/// The chain survives a change to the innermost directory's totals.
proof fn lemma_chain_same(s1: Seq<Frame>, s2: Seq<Frame>)
    requires
        chain_ok(s1),
        s1.len() == s2.len(),
        forall|k: int| 0 <= k < s1.len() - 1 ==> #[trigger] s2[k] == s1[k],
        s1.len() > 0 ==> s2.last().entered@ == s1.last().entered@,
    ensures
        chain_ok(s2),
{
    reveal(chain_ok);
    assert forall|k: int| 0 <= k < s2.len() - 1 implies add3(
        #[trigger] s2[k].exact@,
        tally(s2[k].entered@),
    ) == tally(s2[k + 1].entered@) by {
        assert(s2[k] == s1[k]);
        assert(add3(s1[k].exact@, tally(s1[k].entered@)) == tally(s1[k + 1].entered@));
        if k + 1 < s1.len() - 1 {
            assert(s2[k + 1] == s1[k + 1]);
        } else {
            assert(s2[k + 1] == s2.last());
            assert(s1[k + 1] == s1.last());
        }
    }
}

/// Closing the innermost directory: the chain holds of the rest, and the new
/// innermost directory's totals reach where the closed one was entered.
proof fn lemma_chain_pop(s: Seq<Frame>)
    requires
        chain_ok(s),
        s.len() > 0,
    ensures
        chain_ok(s.drop_last()),
        s.len() > 1 ==> add3(s.drop_last().last().exact@, tally(s.drop_last().last().entered@))
            == tally(s.last().entered@),
{
    reveal(chain_ok);
    let d = s.drop_last();
    assert forall|k: int| 0 <= k < d.len() - 1 implies add3(
        #[trigger] d[k].exact@,
        tally(d[k].entered@),
    ) == tally(d[k + 1].entered@) by {
        assert(d[k] == s[k]);
        assert(d[k + 1] == s[k + 1]);
        assert(add3(s[k].exact@, tally(s[k].entered@)) == tally(s[k + 1].entered@));
    }
    if s.len() > 1 {
        let k = s.len() - 2;
        assert(d.last() == s[k]);
        assert(add3(s[k].exact@, tally(s[k].entered@)) == tally(s[k + 1].entered@));
    }
}

/// Opening a directory entered where the innermost one's totals reach.
proof fn lemma_chain_push(s: Seq<Frame>, f: Frame)
    requires
        chain_ok(s),
        s.len() > 0 ==> add3(s.last().exact@, tally(s.last().entered@)) == tally(f.entered@),
    ensures
        chain_ok(s.push(f)),
{
    reveal(chain_ok);
    let t = s.push(f);
    assert forall|k: int| 0 <= k < t.len() - 1 implies add3(
        #[trigger] t[k].exact@,
        tally(t[k].entered@),
    ) == tally(t[k + 1].entered@) by {
        assert(t[k] == s[k]);
        if k + 1 < s.len() {
            assert(t[k + 1] == s[k + 1]);
            assert(add3(s[k].exact@, tally(s[k].entered@)) == tally(s[k + 1].entered@));
        } else {
            assert(t[k + 1] == f);
            assert(s[k] == s.last());
        }
    }
}

/// `inner` lies strictly beneath `outer`, with totals no larger.
pub open spec fn span_within(inner: Span, outer: Span) -> bool {
    &&& strictly_within(inner.0, outer.0)
    &&& between(inner.1, inner.2).0 <= between(outer.1, outer.2).0
    &&& between(inner.1, inner.2).1 <= between(outer.1, outer.2).1
    &&& between(inner.1, inner.2).2 <= between(outer.1, outer.2).2
}

proof fn lemma_tally_monotone(a: Seq<Step>, b: Seq<Step>)
    requires
        a.is_prefix_of(b),
    ensures
        tally(a).0 <= tally(b).0,
        tally(a).1 <= tally(b).1,
        tally(a).2 <= tally(b).2,
    decreases b.len(),
{
    if a.len() < b.len() {
        assert(b.drop_last().subrange(0, a.len() as int) =~= b.subrange(0, a.len() as int));
        lemma_tally_monotone(a, b.drop_last());
    } else {
        assert(a =~= b);
    }
}

proof fn lemma_prefix_by_len(a: Seq<Step>, b: Seq<Step>, s: Seq<Step>)
    requires
        a.is_prefix_of(s),
        b.is_prefix_of(s),
        a.len() <= b.len(),
    ensures
        a.is_prefix_of(b),
{
    assert(b.subrange(0, a.len() as int) =~= s.subrange(0, a.len() as int));
}

/// `a` lies strictly beneath `b`.
pub open spec fn strictly_within(a: PathView, b: PathView) -> bool {
    is_within(a, b) && b.len() < a.len()
}

proof fn lemma_within_trans(a: PathView, b: PathView, c: PathView)
    requires
        strictly_within(a, b),
        strictly_within(b, c),
    ensures
        strictly_within(a, c),
{
    assert(a.take(c.len() as int) =~= a.take(b.len() as int).take(c.len() as int));
}

proof fn lemma_child_within(c: PathView, p: PathView)
    requires
        c.len() > 0,
        c.drop_last() == p,
    ensures
        strictly_within(c, p),
{
    assert(c.take(p.len() as int) =~= c.drop_last());
}

/// Subtrees and open directories nest as directories do: subtrees finish in
/// order of their end; a subtree that ends after another subtree, or an open
/// directory, was entered lies strictly beneath it and was entered no
/// earlier; and each open directory lies strictly beneath the ones below it
/// on the stack, entered no earlier.
#[verifier::opaque]
spec fn nesting_ok(stack: Seq<Frame>, spans: Seq<Span>) -> bool {
    &&& forall|j: int, j2: int|
        #![trigger spans[j], spans[j2]]
        0 <= j < j2 < spans.len() ==> spans[j].2.len() <= spans[j2].2.len()
    &&& forall|j: int, j2: int|
        #![trigger spans[j], spans[j2]]
        0 <= j < j2 < spans.len() && spans[j].2.len() > spans[j2].1.len() ==> spans[j].1.len()
            >= spans[j2].1.len() && strictly_within(spans[j].0, spans[j2].0)
    &&& forall|j: int, k: int|
        #![trigger spans[j], stack[k]]
        0 <= j < spans.len() && 0 <= k < stack.len() && spans[j].2.len() > stack[k].entered@.len()
            ==> spans[j].1.len() >= stack[k].entered@.len() && strictly_within(
            spans[j].0,
            stack[k].path.deep_view(),
        )
    &&& forall|k: int, m: int|
        #![trigger stack[k], stack[m]]
        0 <= k < m < stack.len() ==> stack[k].entered@.len() <= stack[m].entered@.len()
            && strictly_within(stack[m].path.deep_view(), stack[k].path.deep_view())
}

proof fn lemma_nesting_frames_same(s1: Seq<Frame>, s2: Seq<Frame>, spans: Seq<Span>)
    requires
        nesting_ok(s1, spans),
        s1.len() == s2.len(),
        forall|k: int|
            0 <= k < s1.len() ==> (#[trigger] s2[k]).entered@ == s1[k].entered@
                && s2[k].path.deep_view() == s1[k].path.deep_view(),
    ensures
        nesting_ok(s2, spans),
{
    reveal(nesting_ok);
    assert forall|j: int, k: int|
        #![trigger spans[j], s2[k]]
        0 <= j < spans.len() && 0 <= k < s2.len() && spans[j].2.len() > s2[k].entered@.len()
            implies spans[j].1.len() >= s2[k].entered@.len() && strictly_within(
            spans[j].0,
            s2[k].path.deep_view(),
        ) by {
        assert(s2[k].entered@ == s1[k].entered@);
    }
    assert forall|k: int, m: int|
        #![trigger s2[k], s2[m]]
        0 <= k < m < s2.len() implies s2[k].entered@.len() <= s2[m].entered@.len()
            && strictly_within(s2[m].path.deep_view(), s2[k].path.deep_view()) by {
        assert(s2[k].entered@ == s1[k].entered@);
        assert(s2[m].entered@ == s1[m].entered@);
    }
}

/// Closing the innermost directory keeps the nesting, and what it says of
/// that directory remains known.
proof fn lemma_nesting_pop(s: Seq<Frame>, spans: Seq<Span>)
    requires
        nesting_ok(s, spans),
        s.len() > 0,
    ensures
        nesting_ok(s.drop_last(), spans),
        forall|j: int|
            0 <= j < spans.len() && (#[trigger] spans[j]).2.len() > s.last().entered@.len()
                ==> spans[j].1.len() >= s.last().entered@.len() && strictly_within(
                spans[j].0,
                s.last().path.deep_view(),
            ),
        forall|k: int|
            0 <= k < s.len() - 1 ==> (#[trigger] s[k]).entered@.len() <= s.last().entered@.len()
                && strictly_within(s.last().path.deep_view(), s[k].path.deep_view()),
{
    reveal(nesting_ok);
    let d = s.drop_last();
    let n = s.len() - 1;
    assert(s.last() == s[n]);
    assert forall|j: int, k: int|
        #![trigger spans[j], d[k]]
        0 <= j < spans.len() && 0 <= k < d.len() && spans[j].2.len() > d[k].entered@.len()
            implies spans[j].1.len() >= d[k].entered@.len() && strictly_within(
            spans[j].0,
            d[k].path.deep_view(),
        ) by {
        assert(d[k] == s[k]);
    }
    assert forall|k: int, m: int|
        #![trigger d[k], d[m]]
        0 <= k < m < d.len() implies d[k].entered@.len() <= d[m].entered@.len()
            && strictly_within(d[m].path.deep_view(), d[k].path.deep_view()) by {
        assert(d[k] == s[k]);
        assert(d[m] == s[m]);
    }
    assert forall|j: int|
        0 <= j < spans.len() && (#[trigger] spans[j]).2.len() > s.last().entered@.len()
            implies spans[j].1.len() >= s.last().entered@.len() && strictly_within(
            spans[j].0,
            s.last().path.deep_view(),
        ) by {
        assert(s[n] == s.last());
    }
    assert forall|k: int| 0 <= k < s.len() - 1 implies (#[trigger] s[k]).entered@.len()
        <= s.last().entered@.len() && strictly_within(
        s.last().path.deep_view(),
        s[k].path.deep_view(),
    ) by {
        assert(s[n] == s.last());
    }
}

/// A directory just beneath the innermost open one lies strictly beneath
/// every open directory.
proof fn lemma_nesting_child(s: Seq<Frame>, spans: Seq<Span>, c: PathView)
    requires
        nesting_ok(s, spans),
        s.len() > 0,
        c.len() > 0,
        c.drop_last() == s.last().path.deep_view(),
    ensures
        forall|k: int| 0 <= k < s.len() ==> strictly_within(c, (#[trigger] s[k]).path.deep_view()),
{
    reveal(nesting_ok);
    let n = s.len() - 1;
    lemma_child_within(c, s.last().path.deep_view());
    assert forall|k: int| 0 <= k < s.len() implies strictly_within(
        c,
        (#[trigger] s[k]).path.deep_view(),
    ) by {
        assert(s[n] == s.last());
        if k < n {
            lemma_within_trans(c, s[n].path.deep_view(), s[k].path.deep_view());
        }
    }
}

proof fn lemma_nesting_push_frame(s: Seq<Frame>, spans: Seq<Span>, f: Frame)
    requires
        nesting_ok(s, spans),
        forall|j: int| 0 <= j < spans.len() ==> (#[trigger] spans[j]).2.len() <= f.entered@.len(),
        forall|k: int|
            0 <= k < s.len() ==> (#[trigger] s[k]).entered@.len() <= f.entered@.len()
                && strictly_within(f.path.deep_view(), s[k].path.deep_view()),
    ensures
        nesting_ok(s.push(f), spans),
{
    reveal(nesting_ok);
    let t = s.push(f);
    assert forall|j: int, k: int|
        #![trigger spans[j], t[k]]
        0 <= j < spans.len() && 0 <= k < t.len() && spans[j].2.len() > t[k].entered@.len()
            implies spans[j].1.len() >= t[k].entered@.len() && strictly_within(
            spans[j].0,
            t[k].path.deep_view(),
        ) by {
        if k < s.len() {
            assert(t[k] == s[k]);
        } else {
            assert(t[k] == f);
        }
    }
    assert forall|k: int, m: int|
        #![trigger t[k], t[m]]
        0 <= k < m < t.len() implies t[k].entered@.len() <= t[m].entered@.len()
            && strictly_within(t[m].path.deep_view(), t[k].path.deep_view()) by {
        assert(t[k] == s[k]);
        if m < s.len() {
            assert(t[m] == s[m]);
        } else {
            assert(t[m] == f);
        }
    }
}

proof fn lemma_nesting_push_span(s: Seq<Frame>, spans: Seq<Span>, sp: Span)
    requires
        nesting_ok(s, spans),
        forall|j: int| 0 <= j < spans.len() ==> (#[trigger] spans[j]).2.len() <= sp.2.len(),
        forall|j: int|
            0 <= j < spans.len() && (#[trigger] spans[j]).2.len() > sp.1.len() ==> spans[j].1.len()
                >= sp.1.len() && strictly_within(spans[j].0, sp.0),
        forall|k: int|
            0 <= k < s.len() ==> (#[trigger] s[k]).entered@.len() <= sp.1.len() && strictly_within(
                sp.0,
                s[k].path.deep_view(),
            ),
    ensures
        nesting_ok(s, spans.push(sp)),
{
    reveal(nesting_ok);
    let t = spans.push(sp);
    assert forall|j: int, j2: int|
        #![trigger t[j], t[j2]]
        0 <= j < j2 < t.len() implies t[j].2.len() <= t[j2].2.len() by {
        assert(t[j] == spans[j]);
        if j2 < spans.len() {
            assert(t[j2] == spans[j2]);
        } else {
            assert(t[j2] == sp);
        }
    }
    assert forall|j: int, j2: int|
        #![trigger t[j], t[j2]]
        0 <= j < j2 < t.len() && t[j].2.len() > t[j2].1.len() implies t[j].1.len() >= t[j2].1.len()
            && strictly_within(t[j].0, t[j2].0) by {
        assert(t[j] == spans[j]);
        if j2 < spans.len() {
            assert(t[j2] == spans[j2]);
        } else {
            assert(t[j2] == sp);
        }
    }
    assert forall|j: int, k: int|
        #![trigger t[j], s[k]]
        0 <= j < t.len() && 0 <= k < s.len() && t[j].2.len() > s[k].entered@.len() implies t[j].1.len()
            >= s[k].entered@.len() && strictly_within(t[j].0, s[k].path.deep_view()) by {
        if j < spans.len() {
            assert(t[j] == spans[j]);
        } else {
            assert(t[j] == sp);
        }
    }
}

/// Every history recorded in `stack` and `spans` is a prefix of `steps`.
#[verifier::opaque]
spec fn histories_follow(stack: Seq<Frame>, spans: Seq<Span>, steps: Seq<Step>) -> bool {
    &&& forall|k: int| 0 <= k < stack.len() ==> (#[trigger] stack[k]).entered@.is_prefix_of(steps)
    &&& forall|j: int|
        0 <= j < spans.len() ==> (#[trigger] spans[j]).1.is_prefix_of(spans[j].2)
            && spans[j].2.is_prefix_of(steps)
}

proof fn lemma_histories_follow(stack: Seq<Frame>, spans: Seq<Span>, a: Seq<Step>, b: Seq<Step>)
    requires
        histories_follow(stack, spans, a),
        a.is_prefix_of(b),
    ensures
        histories_follow(stack, spans, b),
{
    reveal(histories_follow);
    assert forall|k: int| 0 <= k < stack.len() implies (#[trigger] stack[k]).entered@.is_prefix_of(
        b,
    ) by {
        lemma_prefix_trans(stack[k].entered@, a, b);
    }
    assert forall|j: int| 0 <= j < spans.len() implies (#[trigger] spans[j]).2.is_prefix_of(b) by {
        lemma_prefix_trans(spans[j].2, a, b);
    }
}

/// The histories stay prefixes when the open directories change without
/// changing when they were entered, when a directory entered just now is
/// opened, and when a subtree finished just now is added to the spans.
proof fn lemma_histories_carry(
    s1: Seq<Frame>,
    spans1: Seq<Span>,
    s2: Seq<Frame>,
    spans2: Seq<Span>,
    steps: Seq<Step>,
)
    requires
        histories_follow(s1, spans1, steps),
        forall|k: int|
            0 <= k < s2.len() ==> (k < s1.len() && (#[trigger] s2[k]).entered@ == s1[k].entered@)
                || s2[k].entered@ == steps,
        spans1.len() <= spans2.len(),
        forall|j: int| 0 <= j < spans1.len() ==> #[trigger] spans2[j] == spans1[j],
        forall|j: int|
            spans1.len() <= j < spans2.len() ==> (#[trigger] spans2[j]).1.is_prefix_of(spans2[j].2)
                && spans2[j].2 == steps,
    ensures
        histories_follow(s2, spans2, steps),
{
    reveal(histories_follow);
    assert forall|k: int| 0 <= k < s2.len() implies (#[trigger] s2[k]).entered@.is_prefix_of(
        steps,
    ) by {
        if k < s1.len() && s2[k].entered@ == s1[k].entered@ {
            assert(s1[k].entered@.is_prefix_of(steps));
        } else {
            assert(steps.subrange(0, steps.len() as int) =~= steps);
        }
    }
    assert forall|j: int| 0 <= j < spans2.len() implies (#[trigger] spans2[j]).1.is_prefix_of(
        spans2[j].2,
    ) && spans2[j].2.is_prefix_of(steps) by {
        if j < spans1.len() {
            assert(spans2[j] == spans1[j]);
        } else {
            assert(steps.subrange(0, steps.len() as int) =~= steps);
        }
    }
}

/// What the histories being prefixes says of their lengths.
proof fn lemma_histories_lens(stack: Seq<Frame>, spans: Seq<Span>, steps: Seq<Step>)
    requires
        histories_follow(stack, spans, steps),
    ensures
        forall|k: int| 0 <= k < stack.len() ==> (#[trigger] stack[k]).entered@.len() <= steps.len(),
        forall|j: int|
            0 <= j < spans.len() ==> (#[trigger] spans[j]).1.len() <= spans[j].2.len()
                && spans[j].2.len() <= steps.len(),
{
    reveal(histories_follow);
}

/// The innermost open directory was entered at a prefix of `steps`.
proof fn lemma_histories_top(stack: Seq<Frame>, spans: Seq<Span>, steps: Seq<Step>)
    requires
        histories_follow(stack, spans, steps),
        stack.len() > 0,
    ensures
        stack.last().entered@.is_prefix_of(steps),
{
    reveal(histories_follow);
    assert(stack.last() == stack[stack.len() - 1]);
}

/// The entries the open directories have yet to take.
spec fn remaining(s: Seq<Frame>) -> Multiset<DirEntryInfo>
    decreases s.len(),
{
    if s.len() == 0 {
        Multiset::empty()
    } else {
        remaining(s.drop_last()).add(s.last().entries@.skip(s.last().next as int).to_multiset())
    }
}

/// What one step of a walk keeps: the walk stays consistent; its root,
/// skip list, refusals and written-off directories stay as they are; what it
/// has counted and recorded only grows; and a directory it asks to be opened
/// lies within the root, above the depth limit, and is not known closed.
spec fn advanced(pre: Walk, post: Walk, expired: bool, r: WalkAction) -> bool {
    &&& post.wf()
    &&& post.root_view() == pre.root_view()
    &&& post.skip_view() == pre.skip_view()
    &&& post.blocked_view() == pre.blocked_view()
    &&& post.refused_view() == pre.refused_view()
    &&& pre.counted_links().is_prefix_of(post.counted_links())
    &&& (pre.is_truncated() ==> post.is_truncated())
    &&& (post.is_truncated() && !pre.is_truncated() ==> expired)
    &&& pre.folder_count() <= post.folder_count()
    &&& (forall|i: int| 0 <= i < pre.folder_count() ==> post.folder_at(i) == pre.folder_at(i))
    &&& pre.steps_view().is_prefix_of(post.steps_view())
    &&& pre.spans_view().is_prefix_of(post.spans_view())
    &&& post.handed_view() == pre.handed_view()
    &&& (r is Done ==> post.is_done())
    &&& (r matches WalkAction::Open(p) ==> {
        &&& post.awaiting_view() == Some(p.deep_view())
        &&& !post.closed_spec(p.deep_view())
        &&& is_within(p.deep_view(), post.root_view())
        &&& p.deep_view().len() < post.root_view().len() + MAX_DEPTH
    })
}

impl Walk {
    /// The steps taken so far.
    pub closed spec fn steps_view(&self) -> Seq<Step> {
        self.steps@
    }

    /// The entries handed in so far.
    pub closed spec fn handed_view(&self) -> Multiset<DirEntryInfo> {
        self.handed@
    }

    /// Every directory beneath the root whose subtree has been finished, in
    /// the order they finished, with the steps taken before it was entered
    /// and the steps taken by the time it was finished.
    pub closed spec fn spans_view(&self) -> Seq<Span> {
        self.spans@
    }

    /// For each recorded folder, the index in [`Walk::spans_view`] of the
    /// subtree it records.
    pub closed spec fn recorded_view(&self) -> Seq<int> {
        self.recorded@
    }

    /// The bookkeeping, with `flight` still on its way to a parent.
    spec fn ledger(&self, flight: (int, int, int)) -> bool {
        &&& forall|k: int|
            0 <= k < self.stack@.len() ==> sub_is(
                (#[trigger] self.stack@[k]).total,
                self.stack@[k].exact@,
            )
        &&& chain_ok(self.stack@)
        &&& (self.stack@.len() > 0 ==> tally(self.stack@[0].entered@) == (0int, 0int, 0int))
        &&& (self.stack@.len() > 0 ==> add3(
            add3(self.stack@.last().exact@, tally(self.stack@.last().entered@)),
            flight,
        ) == tally(self.steps@))
        &&& (self.stack@.len() == 0 && self.root_total is None ==> flight == tally(self.steps@))
        &&& (self.root_total matches Some(t) ==> sub_is(t, self.root_exact@) && self.root_exact@
            == tally(self.steps@))
        &&& histories_follow(self.stack@, self.spans@, self.steps@)
        &&& self.seen@ == linked_keys(self.steps@)
        &&& self.handed@ == taken(self.steps@).add(remaining(self.stack@))
    }

    pub closed spec fn root_view(&self) -> PathView {
        self.root.deep_view()
    }

    pub closed spec fn skip_view(&self) -> Seq<PathView> {
        self.skip.deep_view()
    }

    /// Directories this walk found closed so far.
    pub closed spec fn blocked_view(&self) -> Seq<PathView> {
        self.blocked.deep_view()
    }

    /// Directories that refused to open during this walk, in order.
    pub closed spec fn refused_view(&self) -> Seq<PathView> {
        self.refused.deep_view()
    }

    /// (device, inode) of every multiply-linked file counted so far.
    pub closed spec fn counted_links(&self) -> Seq<(u64, u64)> {
        self.seen@
    }

    pub closed spec fn is_truncated(&self) -> bool {
        self.truncated
    }

    pub closed spec fn is_done(&self) -> bool {
        self.root_total is Some
    }

    /// Whether the first call of [`Walk::next`] has been made.
    pub closed spec fn is_started(&self) -> bool {
        self.started
    }

    /// The root's device, when the caller knew it.
    pub closed spec fn root_dev_view(&self) -> Option<u64> {
        self.root_dev
    }

    /// The innermost open directory and its depth below the root.
    pub closed spec fn current_dir(&self) -> Option<(PathView, int)> {
        if self.stack@.len() > 0 {
            Some((self.stack@.last().path.deep_view(), self.stack@.last().depth as int))
        } else {
            None
        }
    }

    /// The next entry the innermost open directory has yet to take.
    pub closed spec fn pending_entry(&self) -> Option<DirEntryInfo> {
        if self.stack@.len() > 0 && self.stack@.last().next < self.stack@.last().entries@.len() {
            Some(self.stack@.last().entries@[self.stack@.last().next as int])
        } else {
            None
        }
    }

    /// The subdirectory the pending entry names, when it is a directory on
    /// the root's device (or the root's device is unknown).
    pub open spec fn next_subdir(&self) -> Option<PathView> {
        match (self.pending_entry(), self.current_dir()) {
            (Some(DirEntryInfo::Dir { name, dev }), Some((p, _))) => {
                let same_device = match self.root_dev_view() {
                    Some(rd) => rd == dev,
                    None => true,
                };
                if same_device {
                    Some(p.push(name@))
                } else {
                    None
                }
            },
            _ => None,
        }
    }

    /// Whether taking the pending entry descends into the subdirectory it
    /// names: one on the root's device, within the depth limit, not known
    /// closed, and the deadline neither passed now nor before.
    pub open spec fn descends_next(&self, expired: bool) -> bool {
        match self.next_subdir() {
            Some(c) => self.visits_next() && !self.is_truncated() && !expired && !self.closed_spec(c),
            None => false,
        }
    }

    /// Whether taking the pending entry visits the subdirectory it names:
    /// one on the root's device, within the depth limit. Such a visit is
    /// where the deadline is consulted.
    pub open spec fn visits_next(&self) -> bool {
        match (self.next_subdir(), self.current_dir()) {
            (Some(_), Some((_, d))) => d + 1 < MAX_DEPTH,
            _ => false,
        }
    }

    /// The directory the caller has been asked to open, if any.
    pub closed spec fn awaiting_view(&self) -> Option<PathView> {
        match self.awaiting {
            Some((p, _)) => Some(p.deep_view()),
            None => None,
        }
    }

    /// Number of folders recorded so far.
    pub closed spec fn folder_count(&self) -> nat {
        self.folders@.len()
    }

    pub closed spec fn folder_at(&self, i: int) -> FolderSize {
        self.folders@[i]
    }

    /// Whether `p` is known closed: a cloud-provider area, skipped by the
    /// caller, blocked earlier in this walk, or the child of a blocked
    /// directory.
    pub open spec fn closed_spec(&self, p: PathView) -> bool {
        ||| cloud_area_spec(p)
        ||| self.skip_view().contains(p)
        ||| self.blocked_view().contains(p)
        ||| (p.len() > 0 && self.blocked_view().contains(p.drop_last()))
    }

    spec fn frame_ok(&self, f: Frame) -> bool {
        &&& is_within(f.path.deep_view(), self.root.deep_view())
        &&& f.path.deep_view().len() == self.root.deep_view().len() + f.depth
        &&& f.depth < MAX_DEPTH
        &&& f.next <= f.entries@.len()
    }

    spec fn folder_ok(&self, f: FolderSize) -> bool {
        &&& f.size_bytes >= MIN_SIZE_BYTES
        &&& is_within(f.path.deep_view(), self.root.deep_view())
        &&& f.path.deep_view().len() > self.root.deep_view().len()
        &&& f.path.deep_view().drop_last() == f.parent.deep_view()
    }

    /// The walk's internal consistency.
    pub closed spec fn wf(&self) -> bool {
        &&& self.wf_core()
        &&& self.ledger((0, 0, 0))
        &&& record_ok(self.folders@, self.spans@, self.recorded@)
        &&& nesting_ok(self.stack@, self.spans@)
        &&& (self.started && self.root_total is None && self.awaiting is None
            ==> self.stack@.len() > 0)
    }

    spec fn wf_core(&self) -> bool {
        &&& forall|k: int| 0 <= k < self.stack@.len() ==> self.frame_ok(#[trigger] self.stack@[k])
        &&& forall|k: int| 0 <= k < self.stack@.len() ==> (#[trigger] self.stack@[k]).depth == k
        &&& (self.stack@.len() > 0 ==> self.stack@[0].path.deep_view() == self.root.deep_view())
        &&& forall|k: int|
            0 < k < self.stack@.len() ==> (#[trigger] self.stack@[k]).path.deep_view().drop_last()
                == self.stack@[k - 1].path.deep_view()
        &&& forall|i: int| 0 <= i < self.folders@.len() ==> self.folder_ok(#[trigger] self.folders@[i])
        &&& self.seen@.no_duplicates()
        &&& (self.blocked.deep_view().contains(self.root.deep_view())
            ==> self.refused.deep_view().contains(self.root.deep_view()))
        &&& (!self.started ==> self.stack@.len() == 0 && self.awaiting is None
            && self.root_total is None)
        &&& (self.root_total is Some ==> self.stack@.len() == 0 && self.awaiting is None)
        &&& match self.awaiting {
            Some((p, d)) => {
                &&& is_within(p.deep_view(), self.root.deep_view())
                &&& p.deep_view().len() == self.root.deep_view().len() + d
                &&& d < MAX_DEPTH
                &&& d == self.stack@.len()
                &&& !self.closed_spec(p.deep_view())
                &&& (self.stack@.len() == 0 ==> p.deep_view() == self.root.deep_view())
                &&& (self.stack@.len() > 0 ==> p.deep_view().len() > 0 && p.deep_view().drop_last()
                    == self.stack@.last().path.deep_view())
            },
            None => true,
        }
    }

    /// Start a walk of `root`, never probing the directories in `skip`.
    /// `root_dev` is the root's device; subdirectories on another device are
    /// not entered.
    pub fn new(root: Vec<String>, skip: Vec<Vec<String>>, root_dev: Option<u64>) -> (w: Walk)
        ensures
            w.wf(),
            w.root_view() == root.deep_view(),
            w.skip_view() == skip.deep_view(),
            w.blocked_view() == Seq::<PathView>::empty(),
            w.refused_view() == Seq::<PathView>::empty(),
            w.counted_links() == Seq::<(u64, u64)>::empty(),
            w.folder_count() == 0,
            !w.is_started(),
            !w.is_done(),
            !w.is_truncated(),
            w.awaiting_view() is None,
            w.current_dir() is None,
            w.steps_view() == Seq::<Step>::empty(),
            w.handed_view() == Multiset::<DirEntryInfo>::empty(),
    {
        let w = Walk {
            root,
            root_dev,
            skip,
            blocked: Vec::new(),
            refused: Vec::new(),
            seen: Vec::new(),
            folders: Vec::new(),
            truncated: false,
            stack: Vec::new(),
            awaiting: None,
            started: false,
            root_total: None,
            steps: Ghost(Seq::empty()),
            handed: Ghost(Multiset::empty()),
            root_exact: Ghost((0, 0, 0)),
            spans: Ghost(Seq::empty()),
            recorded: Ghost(Seq::empty()),
        };
        assert(w.blocked.deep_view() =~= Seq::<PathView>::empty());
        assert(w.refused.deep_view() =~= Seq::<PathView>::empty());
        assert(taken(w.steps@).add(remaining(w.stack@)) =~= Multiset::<DirEntryInfo>::empty());
        assert(record_ok(w.folders@, w.spans@, w.recorded@)) by {
            reveal(record_ok);
        }
        assert(histories_follow(w.stack@, w.spans@, w.steps@)) by {
            reveal(histories_follow);
        }
        assert(chain_ok(w.stack@)) by {
            reveal(chain_ok);
        }
        assert(nesting_ok(w.stack@, w.spans@)) by {
            reveal(nesting_ok);
        }
        w
    }

    fn closed(&self, p: &Vec<String>) -> (r: bool)
        ensures
            r == self.closed_spec(p.deep_view()),
    {
        if is_cloud_provider_area(p) || path_in(&self.skip, p) || path_in(&self.blocked, p) {
            return true;
        }
        match parent_path(p) {
            Some(q) => path_in(&self.blocked, &q),
            None => false,
        }
    }


    /// Number of refused directories whose parent is `parent`.
    fn refused_children(&self, parent: &Vec<String>) -> (n: u32)
        ensures
            n as nat == count_children(self.refused.deep_view(), parent.deep_view())
                || (n == u32::MAX && count_children(self.refused.deep_view(), parent.deep_view())
                >= u32::MAX),
    {
        let mut n: u32 = 0;
        let len = self.refused.len();
        for i in 0..len
            invariant
                len == self.refused@.len(),
                n as nat == count_children(self.refused.deep_view().take(i as int), parent.deep_view())
                    || (n == u32::MAX && count_children(
                    self.refused.deep_view().take(i as int),
                    parent.deep_view(),
                ) >= u32::MAX),
        {
            let ghost pre = self.refused.deep_view().take(i as int);
            assert(self.refused.deep_view().take(i + 1).drop_last() == pre);
            assert(self.refused.deep_view().take(i + 1).last() == self.refused@[i as int].deep_view());
            let q = parent_path(&self.refused[i]);
            let hit = match q {
                Some(qq) => same_path(&qq, parent),
                None => false,
            };
            if hit && n < u32::MAX {
                n = n + 1;
            }
        }
        assert(self.refused.deep_view().take(len as int) == self.refused.deep_view());
        n
    }

    /// Remember a directory that would not open, and write off its parent
    /// once enough of its siblings have refused too. The directory the walk
    /// was pointed at is never written off this way.
    fn record_blocked(&mut self, dir: &Vec<String>)
        requires
            old(self).wf_core(),
            old(self).awaiting is None,
            is_within(dir.deep_view(), old(self).root.deep_view()),
        ensures
            final(self).wf_core(),
            final(self).refused_view() == old(self).refused_view().push(dir.deep_view()),
            final(self).blocked_view() == blocked_after(
                old(self).blocked_view(),
                final(self).refused_view(),
                dir.deep_view(),
                old(self).root_view(),
            ),
            final(self).root == old(self).root,
            final(self).skip == old(self).skip,
            final(self).seen == old(self).seen,
            final(self).folders == old(self).folders,
            final(self).truncated == old(self).truncated,
            final(self).stack == old(self).stack,
            final(self).awaiting == old(self).awaiting,
            final(self).started == old(self).started,
            final(self).root_total == old(self).root_total,
            final(self).root_dev == old(self).root_dev,
            final(self).steps == old(self).steps,
            final(self).handed == old(self).handed,
            final(self).root_exact == old(self).root_exact,
            final(self).spans == old(self).spans,
            final(self).recorded == old(self).recorded,
    {
        let ghost b0 = self.blocked.deep_view();
        let ghost r0 = self.refused.deep_view();
        let ghost dv = dir.deep_view();
        self.refused.push(clone_path(dir));
        assert(self.refused.deep_view() =~= r0.push(dv));
        insert_path(&mut self.blocked, clone_path(dir));
        let ghost b1 = self.blocked.deep_view();
        assert(b1 == insert_view(b0, dv));
        match parent_path(dir) {
            None => {},
            Some(parent) => {
                if !same_path(&parent, &self.root) {
                    let n = self.refused_children(&parent);
                    if n == BLOCKED_SIBLINGS_BEFORE_COLLAPSE {
                        insert_path(&mut self.blocked, parent);
                    }
                }
            },
        }
        proof {
            if self.blocked.deep_view().contains(self.root.deep_view()) {
                if !b0.contains(self.root.deep_view()) {
                    if !b1.contains(self.root.deep_view()) {
                        assert(false);
                    }
                    assert(dv == self.root.deep_view());
                }
                assert(self.refused.deep_view().last() == dv);
                assert(self.refused.deep_view().contains(self.root.deep_view()) || r0.contains(
                    self.root.deep_view(),
                ));
                if r0.contains(self.root.deep_view()) {
                    let k = choose|k: int| 0 <= k < r0.len() && r0[k] == self.root.deep_view();
                    assert(self.refused.deep_view()[k] == self.root.deep_view());
                }
            }
        }
    }


    /// The checks that precede opening a directory. `None` means the
    /// directory should be opened; otherwise its subtree's contribution.
    fn visit_start(&mut self, path: &Vec<String>, depth: u32, expired: bool) -> (r: Option<
        Subtotal,
    >)
        ensures
            final(self).root == old(self).root,
            final(self).skip == old(self).skip,
            final(self).blocked == old(self).blocked,
            final(self).refused == old(self).refused,
            final(self).seen == old(self).seen,
            final(self).folders == old(self).folders,
            final(self).stack == old(self).stack,
            final(self).awaiting == old(self).awaiting,
            final(self).started == old(self).started,
            final(self).root_total == old(self).root_total,
            final(self).root_dev == old(self).root_dev,
            final(self).steps == old(self).steps,
            final(self).handed == old(self).handed,
            final(self).root_exact == old(self).root_exact,
            final(self).spans == old(self).spans,
            final(self).recorded == old(self).recorded,
            depth >= MAX_DEPTH ==> r == Some(Subtotal { size_bytes: 0, file_count: 0, unreadable: 0 })
                && final(self).truncated == old(self).truncated,
            depth < MAX_DEPTH && (old(self).truncated || expired) ==> r == Some(
                Subtotal { size_bytes: 0, file_count: 0, unreadable: 0 },
            ) && final(self).truncated,
            depth < MAX_DEPTH && !old(self).truncated && !expired ==> final(self).truncated
                == old(self).truncated && (if old(self).closed_spec(path.deep_view()) {
                r == Some(Subtotal { size_bytes: 0, file_count: 0, unreadable: 1 })
            } else {
                r is None
            }),
    {
        if depth >= MAX_DEPTH {
            return Some(Subtotal::zero());
        }
        if self.truncated {
            return Some(Subtotal::zero());
        }
        if expired {
            self.truncated = true;
            return Some(Subtotal::zero());
        }
        if self.closed(path) {
            return Some(Subtotal { size_bytes: 0, file_count: 0, unreadable: 1 });
        }
        None
    }

    /// Hand a finished subtree at `path` to its parent frame, or make it the
    /// root's total when there is no parent. `from` is the steps taken
    /// before the subtree was entered.
    #[verifier::spinoff_prover]
    fn deliver(
        &mut self,
        path: Vec<String>,
        sub: Subtotal,
        Ghost(e): Ghost<(int, int, int)>,
        Ghost(from): Ghost<Seq<Step>>,
    )
        requires
            old(self).wf_core(),
            old(self).ledger(e),
            record_ok(old(self).folders@, old(self).spans@, old(self).recorded@),
            nesting_ok(old(self).stack@, old(self).spans@),
            old(self).stack@.len() > 0 ==> forall|j: int|
                0 <= j < old(self).spans@.len() && (#[trigger] old(self).spans@[j]).2.len()
                    > from.len() ==> old(self).spans@[j].1.len() >= from.len() && strictly_within(
                    old(self).spans@[j].0,
                    path.deep_view(),
                ),
            old(self).stack@.len() > 0 ==> forall|k: int|
                0 <= k < old(self).stack@.len() ==> (#[trigger] old(self).stack@[k]).entered@.len()
                    <= from.len() && strictly_within(
                    path.deep_view(),
                    old(self).stack@[k].path.deep_view(),
                ),
            sub_is(sub, e),
            from.is_prefix_of(old(self).steps@),
            add3(tally(from), e) == tally(old(self).steps@),
            old(self).started,
            old(self).awaiting is None,
            old(self).root_total is None,
            is_within(path.deep_view(), old(self).root.deep_view()),
            old(self).stack@.len() == 0 ==> path.deep_view() == old(self).root.deep_view(),
            old(self).stack@.len() > 0 ==> path.deep_view().len() > 0
                && path.deep_view().drop_last() == old(self).stack@.last().path.deep_view(),
        ensures
            final(self).wf(),
            final(self).root == old(self).root,
            final(self).skip == old(self).skip,
            final(self).blocked == old(self).blocked,
            final(self).refused == old(self).refused,
            final(self).seen == old(self).seen,
            final(self).truncated == old(self).truncated,
            final(self).awaiting == old(self).awaiting,
            final(self).started == old(self).started,
            final(self).root_dev == old(self).root_dev,
            old(self).folders@.is_prefix_of(final(self).folders@),
            old(self).stack@.len() == 0 ==> final(self).root_total == Some(sub),
            old(self).stack@.len() > 0 ==> final(self).root_total is None
                && final(self).stack@.len() == old(self).stack@.len(),
            final(self).steps == old(self).steps,
            final(self).handed == old(self).handed,
            old(self).spans@.is_prefix_of(final(self).spans@),
            old(self).stack@.len() == 0 ==> final(self).stack@ == old(self).stack@
                && final(self).spans@ == old(self).spans@ && final(self).folders@ == old(self).folders@,
            old(self).stack@.len() > 0 ==> {
                let (o, n) = (old(self).stack@.last(), final(self).stack@.last());
                &&& forall|k: int|
                    0 <= k < old(self).stack@.len() - 1 ==> #[trigger] final(self).stack@[k]
                        == old(self).stack@[k]
                &&& n.path == o.path && n.depth == o.depth && n.entries == o.entries
                &&& n.next == o.next && n.entered == o.entered
                &&& n.total == Subtotal {
                    size_bytes: sat_add(o.total.size_bytes, sub.size_bytes),
                    file_count: sat_add(o.total.file_count, sub.file_count),
                    unreadable: sat_add(o.total.unreadable, sub.unreadable),
                }
                &&& n.exact@ == add3(o.exact@, e)
                &&& final(self).spans@ == old(self).spans@.push(
                    (path.deep_view(), from, old(self).steps@),
                )
            },
    {
        if self.stack.len() == 0 {
            self.root_total = Some(sub);
            self.root_exact = Ghost(e);
            return;
        }
        let ghost old_stack = self.stack@;
        let ghost pv = path.deep_view();
        let ghost sp: Span = (pv, from, self.steps@);
        let mut top = self.stack.pop().unwrap();
        assert(self.stack@ == old_stack.drop_last());
        let ghost top_exact = top.exact@;
        proof {
            assert(old_stack.last() == top);
            assert(sub_is(top.total, top_exact));
            lemma_absorb_exact(top.total, top_exact, sub, e);
            assert(between(from, self.steps@) == e);
        }
        top.total.absorb(sub);
        top.exact = Ghost(add3(top_exact, e));
        let ghost old_spans = self.spans@;
        let ghost old_recorded = self.recorded@;
        let ghost old_folders = self.folders@;
        self.spans = Ghost(old_spans.push(sp));
        if sub.size_bytes >= MIN_SIZE_BYTES {
            let parent = clone_path(&top.path);
            let f = FolderSize {
                path,
                parent,
                size_bytes: sub.size_bytes,
                file_count: sub.file_count,
                unreadable: sub.unreadable,
            };
            proof {
                assert(top.path.deep_view().len() >= self.root.deep_view().len());
                lemma_record_large(old_folders, old_spans, old_recorded, sp, f);
            }
            self.folders.push(f);
            self.recorded = Ghost(old_recorded.push(old_spans.len() as int));
        } else {
            proof {
                lemma_record_small(old_folders, old_spans, old_recorded, sp);
            }
        }
        self.stack.push(top);
        assert(forall|k: int| 0 <= k < old_stack.len() - 1 ==> self.stack@[k] == old_stack[k]);
        proof {
            assert(self.stack@.drop_last() == old_stack.drop_last());
            assert(remaining(self.stack@) == remaining(old_stack));
            assert(self.stack@.last() == top);
            assert(sp.1.is_prefix_of(sp.2));
            assert(forall|j: int| 0 <= j < old_spans.len() ==> #[trigger] self.spans@[j] == old_spans[j]);
            lemma_histories_carry(old_stack, old_spans, self.stack@, self.spans@, self.steps@);
            lemma_chain_same(old_stack, self.stack@);
            lemma_histories_lens(old_stack, old_spans, self.steps@);
            lemma_nesting_push_span(old_stack, old_spans, sp);
            lemma_nesting_frames_same(old_stack, self.stack@, self.spans@);
        }
    }


    fn seen_contains(&self, key: (u64, u64)) -> (r: bool)
        ensures
            r == self.seen@.contains(key),
    {
        let n = self.seen.len();
        for i in 0..n
            invariant
                n == self.seen@.len(),
                forall|j: int| 0 <= j < i ==> self.seen@[j] != key,
        {
            let (d, ino) = self.seen[i];
            if d == key.0 && ino == key.1 {
                assert(self.seen@[i as int] == key);
                return true;
            }
        }
        false
    }

    /// Advance the walk by one step.
    ///
    /// `expired` says whether the caller's deadline has passed; once it is
    /// seen at a directory, the walk stops descending and reports itself
    /// truncated.
    pub fn next(&mut self, expired: bool) -> (r: WalkAction)
        requires
            old(self).wf(),
        ensures
            final(self).wf(),
            final(self).root_view() == old(self).root_view(),
            final(self).skip_view() == old(self).skip_view(),
            final(self).blocked_view() == old(self).blocked_view(),
            final(self).refused_view() == old(self).refused_view(),
            old(self).counted_links().is_prefix_of(final(self).counted_links()),
            old(self).is_truncated() ==> final(self).is_truncated(),
            final(self).is_truncated() && !old(self).is_truncated() ==> expired,
            old(self).folder_count() <= final(self).folder_count(),
            forall|i: int|
                0 <= i < old(self).folder_count() ==> final(self).folder_at(i) == old(
                    self,
                ).folder_at(i),
            old(self).steps_view().is_prefix_of(final(self).steps_view()),
            old(self).spans_view().is_prefix_of(final(self).spans_view()),
            final(self).handed_view() == old(self).handed_view(),
            old(self).is_done() ==> r is Done,
            !old(self).is_started() && !expired && !old(self).is_truncated()
                && !old(self).closed_spec(old(self).root_view()) ==> (r matches WalkAction::Open(p)
                && p.deep_view() == old(self).root_view()),
            !old(self).is_started() && (expired || old(self).is_truncated()
                || old(self).closed_spec(old(self).root_view())) ==> r is Continue
                && final(self).is_done() && final(self).folder_count() == old(self).folder_count(),
            !old(self).is_started() && (expired || old(self).is_truncated()) ==> {
                &&& final(self).is_truncated()
                &&& final(self).steps_view() == old(self).steps_view()
                &&& final(self).root_total_view().size_bytes == 0
                &&& final(self).root_total_view().file_count == 0
                &&& final(self).root_total_view().unreadable == 0
            },
            old(self).is_started() && !old(self).is_done() && old(self).awaiting_view() is None
                && expired && old(self).visits_next() ==> final(self).is_truncated(),
            old(self).is_started() && !old(self).is_done() && old(self).awaiting_view() is None
                ==> match old(self).pending_entry() {
                None => r is Continue,
                Some(_) => (r is Open <==> old(self).descends_next(expired)) && (r matches WalkAction::Open(p)
                    ==> old(self).next_subdir() == Some(p.deep_view())),
            },
            old(self).awaiting_view() is Some ==> r is Open && final(self).awaiting_view()
                == old(self).awaiting_view(),
            r is Done ==> final(self).is_done(),
            r matches WalkAction::Open(p) ==> {
                &&& final(self).awaiting_view() == Some(p.deep_view())
                &&& !final(self).closed_spec(p.deep_view())
                &&& is_within(p.deep_view(), final(self).root_view())
                &&& p.deep_view().len() < final(self).root_view().len() + MAX_DEPTH
            },
    {
        if self.root_total.is_some() {
            return WalkAction::Done;
        }
        match &self.awaiting {
            Some((p, _)) => {
                return WalkAction::Open(clone_path(p));
            },
            None => {},
        }
        if !self.started {
            self.started = true;
            let root = clone_path(&self.root);
            assert(is_within(root.deep_view(), self.root.deep_view())) by {
                assert(root.deep_view().take(root.deep_view().len() as int) == root.deep_view());
            }
            match self.visit_start(&root, 0, expired) {
                Some(sub) => {
                    let ghost before = self.steps@;
                    proof {
                        if sub.unreadable == 1 {
                            self.steps@ = before.push(Step::Closed);
                            lemma_push_step(before, Step::Closed);
                            lemma_histories_follow(self.stack@, self.spans@, before, self.steps@);
                        }
                    }
                    self.deliver(
                        root,
                        sub,
                        Ghost((0int, 0int, sub.unreadable as int)),
                        Ghost(before),
                    );
                    return WalkAction::Continue;
                },
                None => {
                    self.awaiting = Some((clone_path(&root), 0));
                    return WalkAction::Open(root);
                },
            }
        }
        let n = self.stack.len();
        if self.stack[n - 1].next >= self.stack[n - 1].entries.len() {
            self.close_top()
        } else {
            self.take_entry(expired)
        }
    }

    /// Finish the innermost open directory, whose entries are all taken, and
    /// hand its totals up.
    #[verifier::spinoff_prover]
    fn close_top(&mut self) -> (r: WalkAction)
        requires
            old(self).wf(),
            old(self).started,
            old(self).root_total is None,
            old(self).awaiting is None,
            old(self).stack@.len() > 0,
            old(self).stack@.last().next >= old(self).stack@.last().entries@.len(),
        ensures
            advanced(*old(self), *final(self), false, r),
            r is Continue,
            final(self).steps == old(self).steps,
            final(self).stack@.len() == old(self).stack@.len() - 1,
            old(self).stack@.len() == 1 ==> final(self).root_total == Some(
                old(self).stack@.last().total,
            ),
            old(self).stack@.len() > 1 ==> {
                let (closed, parent) = (
                    old(self).stack@.last(),
                    old(self).stack@[old(self).stack@.len() - 2],
                );
                &&& final(self).stack@.last().total == Subtotal {
                    size_bytes: sat_add(parent.total.size_bytes, closed.total.size_bytes),
                    file_count: sat_add(parent.total.file_count, closed.total.file_count),
                    unreadable: sat_add(parent.total.unreadable, closed.total.unreadable),
                }
                &&& final(self).spans@ == old(self).spans@.push(
                    (closed.path.deep_view(), closed.entered@, old(self).steps@),
                )
            },
    {
        let ghost old_stack = self.stack@;
        let mut top = self.stack.pop().unwrap();
        assert(self.stack@ == old_stack.drop_last());
        assert(self.frame_ok(top));
        assert(old_stack.last() == top);
        let sub = top.total;
        let ghost ex = top.exact@;
        proof {
            if self.stack@.len() > 0 {
                let k = old_stack.len() - 1;
                assert(old_stack[k] == top);
                assert(0 < k < old_stack.len());
                assert(old_stack[k].path.deep_view().drop_last() == old_stack[k
                    - 1].path.deep_view());
                assert(self.stack@.last() == old_stack[k - 1]);
            }
            lemma_skip_all(top.entries@, top.next as int);
            assert(remaining(old_stack) =~= remaining(self.stack@));
            if self.stack@.len() > 0 {
                let k = old_stack.len() - 2;
                assert(self.stack@.last() == old_stack[k]);
                assert(old_stack[k + 1] == top);
            }
            lemma_histories_top(old_stack, self.spans@, self.steps@);
            assert(forall|k: int| 0 <= k < self.stack@.len() ==> #[trigger] self.stack@[k] == old_stack[k]);
            lemma_histories_carry(old_stack, self.spans@, self.stack@, self.spans@, self.steps@);
            lemma_chain_pop(old_stack);
            lemma_nesting_pop(old_stack, self.spans@);
        }
        let ghost from = top.entered@;
        let path = top.path;
        self.deliver(path, sub, Ghost(ex), Ghost(from));
        WalkAction::Continue
    }

    /// Take the next entry of the innermost open directory into its totals,
    /// or start on it when it is a subdirectory.
    #[verifier::spinoff_prover]
    #[verifier::rlimit(40)]
    fn take_entry(&mut self, expired: bool) -> (r: WalkAction)
        requires
            old(self).wf(),
            old(self).started,
            old(self).root_total is None,
            old(self).awaiting is None,
            old(self).stack@.len() > 0,
            old(self).stack@.last().next < old(self).stack@.last().entries@.len(),
        ensures
            advanced(*old(self), *final(self), expired, r),
            final(self).stack@.len() == old(self).stack@.len(),
            final(self).stack@.last().entries == old(self).stack@.last().entries,
            final(self).stack@.last().next == old(self).stack@.last().next + 1,
            ({
                let e = old(self).stack@.last().entries@[old(self).stack@.last().next as int];
                ||| final(self).steps@ == old(self).steps@.push(Step::Took(e))
                ||| (e is Dir && final(self).steps@ == old(self).steps@.push(Step::Took(e)).push(
                    Step::Closed,
                ))
            }),
            r is Open <==> old(self).descends_next(expired),
            r matches WalkAction::Open(p) ==> old(self).next_subdir() == Some(p.deep_view()),
            expired && old(self).visits_next() ==> final(self).is_truncated(),
    {
        let ghost old_stack = self.stack@;
        let mut top = self.stack.pop().unwrap();
        assert(self.stack@ == old_stack.drop_last());
        assert(self.frame_ok(top));
        assert(old_stack.last() == top);
        let n_entries = top.entries.len();
        let i = top.next;
        assert(i < n_entries);
        top.next = i + 1;
        let ghost e_i = top.entries@[i as int];
        let ghost before = self.steps@;
        let ghost ex0 = top.exact@;
        proof {
            self.steps@ = before.push(Step::Took(e_i));
            lemma_push_step(before, Step::Took(e_i));
            lemma_skip_one(top.entries@, i as int);
            assert(self.steps@.drop_last() == before);
        }
        let (kind, dev, ino, nlink, blocks, name) = match &top.entries[i] {
            DirEntryInfo::Unreadable => (0u8, 0u64, 0u64, 0u64, 0u64, None),
            DirEntryInfo::Symlink => (1u8, 0u64, 0u64, 0u64, 0u64, None),
            DirEntryInfo::Dir { name, dev } => (2u8, *dev, 0u64, 0u64, 0u64, Some(name.clone())),
            DirEntryInfo::File { dev, ino, nlink, blocks } => (
                3u8,
                *dev,
                *ino,
                *nlink,
                *blocks,
                None,
            ),
        };
        let mut child: Option<(Vec<String>, u32)> = None;
        if kind == 0 {
            proof {
                lemma_sat_add_clamp(ex0.2, 1);
            }
            top.total.unreadable = top.total.unreadable.saturating_add(1);
        } else if kind == 3 {
            let mut counts = true;
            if nlink > 1 {
                if self.seen_contains((dev, ino)) {
                    counts = false;
                } else {
                    let ghost old_seen = self.seen@;
                    self.seen.push((dev, ino));
                    assert(old_seen.is_prefix_of(self.seen@));
                }
            }
            if counts {
                let bytes = if blocks > u64::MAX / 512 {
                    assert(blocks * 512 > u64::MAX) by (nonlinear_arith)
                        requires
                            blocks > u64::MAX / 512,
                    ;
                    u64::MAX
                } else {
                    assert(blocks * 512 <= u64::MAX) by (nonlinear_arith)
                        requires
                            blocks <= u64::MAX / 512,
                    ;
                    blocks * 512
                };
                proof {
                    assert(bytes == clamp_u64(blocks * 512));
                    lemma_sat_add_clamp(ex0.0, blocks * 512);
                    lemma_sat_add_clamp(ex0.1, 1);
                }
                top.total.size_bytes = top.total.size_bytes.saturating_add(bytes);
                top.total.file_count = top.total.file_count.saturating_add(1);
            }
        } else if kind == 2 {
            let on_other_device = match self.root_dev {
                Some(d) => dev != d,
                None => false,
            };
            if !on_other_device {
                let name = match name {
                    Some(n) => n,
                    None => String::new(),
                };
                let c = child_path(&top.path, &name);
                proof {
                    let cv = c.deep_view();
                    let rv = self.root.deep_view();
                    assert(cv.drop_last() == top.path.deep_view());
                    assert(cv.take(rv.len() as int) == top.path.deep_view().take(rv.len() as int));
                }
                child = Some((c, top.depth + 1));
            }
        }
        top.exact = Ghost(add3(ex0, last_step_adds(self.steps@)));
        assert(sub_is(top.total, top.exact@));
        self.stack.push(top);
        assert(forall|k: int| 0 <= k < old_stack.len() - 1 ==> self.stack@[k] == old_stack[k]);
        assert(self.stack@.last() == top);
        proof {
            assert(self.stack@.drop_last() == old_stack.drop_last());
            assert(self.seen@ == linked_keys(self.steps@));
            lemma_histories_follow(old_stack, self.spans@, before, self.steps@);
            assert(self.stack@.last() == top);
            assert forall|k: int| 0 <= k < self.stack@.len() implies (
            #[trigger] self.stack@[k]).entered@ == old_stack[k].entered@ && self.stack@[k].exact@
                == (if k == self.stack@.len() - 1 {
                self.stack@[k].exact@
            } else {
                old_stack[k].exact@
            }) by {
                if k < self.stack@.len() - 1 {
                    assert(self.stack@[k] == old_stack[k]);
                }
            }
            lemma_histories_carry(old_stack, self.spans@, self.stack@, self.spans@, self.steps@);
            lemma_chain_same(old_stack, self.stack@);
            lemma_nesting_frames_same(old_stack, self.stack@, self.spans@);
            assert(remaining(old_stack) == remaining(old_stack.drop_last()).add(
                top.entries@.skip(i as int).to_multiset(),
            ));
            assert(remaining(self.stack@) == remaining(old_stack.drop_last()).add(
                top.entries@.skip(i + 1).to_multiset(),
            ));
            assert(taken(before).add(remaining(old_stack)) =~= taken(self.steps@).add(
                remaining(self.stack@),
            ));
        }
        match child {
            None => WalkAction::Continue,
            Some((c, depth)) => match self.visit_start(&c, depth, expired) {
                Some(sub) => {
                    let ghost mid = self.steps@;
                    proof {
                        lemma_histories_lens(self.stack@, self.spans@, mid);
                        lemma_nesting_child(self.stack@, self.spans@, c.deep_view());
                        if sub.unreadable == 1 {
                            self.steps@ = mid.push(Step::Closed);
                            lemma_push_step(mid, Step::Closed);
                            lemma_histories_follow(self.stack@, self.spans@, mid, self.steps@);
                        }
                    }
                    self.deliver(
                        c,
                        sub,
                        Ghost((0int, 0int, sub.unreadable as int)),
                        Ghost(mid),
                    );
                    WalkAction::Continue
                },
                None => {
                    self.awaiting = Some((clone_path(&c), depth));
                    WalkAction::Open(c)
                },
            },
        }
    }

    /// The caller's answer to [`WalkAction::Open`]: the directory's entries,
    /// or `None` if it refused to open or never answered.
    #[verifier::spinoff_prover]
    pub fn opened(&mut self, listing: Option<Vec<DirEntryInfo>>)
        requires
            old(self).wf(),
            old(self).awaiting_view() is Some,
        ensures
            final(self).wf(),
            final(self).awaiting_view() is None,
            final(self).root_view() == old(self).root_view(),
            final(self).skip_view() == old(self).skip_view(),
            final(self).counted_links() == old(self).counted_links(),
            final(self).is_truncated() == old(self).is_truncated(),
            old(self).folder_count() <= final(self).folder_count(),
            forall|i: int|
                0 <= i < old(self).folder_count() ==> final(self).folder_at(i) == old(
                    self,
                ).folder_at(i),
            listing is None ==> {
                let dir = old(self).awaiting_view()->0;
                &&& final(self).refused_view() == old(self).refused_view().push(dir)
                &&& final(self).blocked_view() == blocked_after(
                    old(self).blocked_view(),
                    final(self).refused_view(),
                    dir,
                    old(self).root_view(),
                )
            },
            listing is Some ==> final(self).refused_view() == old(self).refused_view()
                && final(self).blocked_view() == old(self).blocked_view(),
            listing is None ==> final(self).steps_view() == old(self).steps_view().push(Step::Refused)
                && final(self).handed_view() == old(self).handed_view(),
            listing matches Some(l) ==> final(self).steps_view() == old(self).steps_view()
                && final(self).handed_view() == old(self).handed_view().add(l@.to_multiset()),
            old(self).spans_view().is_prefix_of(final(self).spans_view()),
    {
        let (p, d) = self.awaiting.take().unwrap();
        match listing {
            None => {
                self.record_blocked(&p);
                let ghost before = self.steps@;
                proof {
                    lemma_histories_lens(self.stack@, self.spans@, before);
                    if self.stack@.len() > 0 {
                        lemma_nesting_child(self.stack@, self.spans@, p.deep_view());
                    }
                }
                self.steps = Ghost(before.push(Step::Refused));
                proof {
                    assert(self.steps@.drop_last() == before);
                    assert(linked_keys(self.steps@) == linked_keys(before));
                    assert(taken(self.steps@) == taken(before));
                    assert(tally(self.steps@) == add3(tally(before), (0int, 0int, 1int)));
                    lemma_histories_follow(self.stack@, self.spans@, before, self.steps@);
                }
                self.deliver(
                    p,
                    Subtotal { size_bytes: 0, file_count: 0, unreadable: 1 },
                    Ghost((0int, 0int, 1int)),
                    Ghost(before),
                );
            },
            Some(entries) => {
                let ghost old_stack = self.stack@;
                let ghost listed = entries@;
                proof {
                    lemma_histories_lens(old_stack, self.spans@, self.steps@);
                    if old_stack.len() > 0 {
                        lemma_nesting_child(old_stack, self.spans@, p.deep_view());
                    }
                }
                let frame = Frame {
                    path: p,
                    depth: d,
                    entries,
                    next: 0,
                    total: Subtotal::zero(),
                    exact: Ghost((0int, 0int, 0int)),
                    entered: Ghost(self.steps@),
                };
                self.stack.push(frame);
                self.handed = Ghost(self.handed@.add(listed.to_multiset()));
                assert(forall|k: int| 0 <= k < old_stack.len() ==> self.stack@[k] == old_stack[k]);
                assert(self.stack@.last() == frame);
                proof {
                    assert(self.stack@.drop_last() == old_stack);
                    assert(listed.skip(0) == listed);
                    assert(remaining(self.stack@) == remaining(old_stack).add(listed.to_multiset()));
                    if old_stack.len() > 0 {
                        assert(self.stack@[old_stack.len() - 1] == old_stack.last());
                    }
                    assert(self.handed@ == taken(self.steps@).add(remaining(old_stack)).add(
                        listed.to_multiset(),
                    ));
                    assert(taken(self.steps@).add(remaining(old_stack)).add(listed.to_multiset())
                        =~= taken(self.steps@).add(remaining(self.stack@)));
                    lemma_histories_carry(old_stack, self.spans@, self.stack@, self.spans@, self.steps@);
                    lemma_chain_push(old_stack, frame);
                    lemma_nesting_push_frame(old_stack, self.spans@, frame);
                }
            },
        }
    }

    /// The root's totals, once the walk is done.
    pub closed spec fn root_total_view(&self) -> Subtotal {
        self.root_total->0
    }

    /// Collect the result of a finished walk. The root is reported last,
    /// whatever its size, because callers need a total for it.
    pub fn finish(self, elapsed_ms: u64, abandoned_threads: u32) -> (r: ScanResult)
        requires
            self.wf(),
            self.is_done(),
        ensures
            r.folders@.len() == self.folder_count() + 1,
            forall|i: int| 0 <= i < self.folder_count() ==> r.folders@[i] == self.folder_at(i),
            r.folders@.last().path.deep_view() == self.root_view(),
            r.folders@.last().parent.deep_view() == (if self.root_view().len() > 0 {
                self.root_view().drop_last()
            } else {
                self.root_view()
            }),
            r.folders@.last().size_bytes == self.root_total_view().size_bytes,
            r.folders@.last().file_count == self.root_total_view().file_count,
            r.folders@.last().unreadable == self.root_total_view().unreadable,
            r.folders@.last().size_bytes == clamp_u64(tally(self.steps_view()).0),
            r.folders@.last().file_count == clamp_u64(tally(self.steps_view()).1),
            r.folders@.last().unreadable == clamp_u64(tally(self.steps_view()).2),
            r.truncated == self.is_truncated(),
            r.blocked.deep_view() == self.blocked_view(),
            r.elapsed_ms == elapsed_ms,
            r.abandoned_threads == abandoned_threads,
    {
        let total = self.root_total.unwrap();
        let parent = match parent_path(&self.root) {
            Some(q) => q,
            None => clone_path(&self.root),
        };
        let mut folders = self.folders;
        let ghost before = folders@;
        folders.push(
            FolderSize {
                path: self.root,
                parent,
                size_bytes: total.size_bytes,
                file_count: total.file_count,
                unreadable: total.unreadable,
            },
        );
        assert(forall|i: int| 0 <= i < before.len() ==> folders@[i] == before[i]);
        ScanResult {
            folders,
            elapsed_ms,
            truncated: self.truncated,
            blocked: self.blocked,
            abandoned_threads,
        }
    }

    /// Every folder a walk records beneath its root is at least
    /// [`MIN_SIZE_BYTES`] and is recorded with its actual parent.
    pub proof fn law_recorded_folders_clear_the_floor(&self)
        requires
            self.wf(),
        ensures
            forall|i: int|
                0 <= i < self.folder_count() ==> recorded_folder_ok(
                    #[trigger] self.folder_at(i),
                    self.root_view(),
                ),
    {
        assert forall|i: int| 0 <= i < self.folder_count() implies recorded_folder_ok(
            #[trigger] self.folder_at(i),
            self.root_view(),
        ) by {
            assert(self.folder_ok(self.folders@[i]));
        }
    }

    /// The directory a walk is pointed at is only ever written off when it
    /// refused to open itself, never because its children did.
    pub proof fn law_root_is_never_collapsed(&self)
        requires
            self.wf(),
        ensures
            self.blocked_view().contains(self.root_view()) ==> self.refused_view().contains(
                self.root_view(),
            ),
    {
    }

    /// Once a walk is done, every entry handed to it through
    /// [`Walk::opened`] has been taken into its tally exactly once.
    pub proof fn law_every_entry_taken_once(&self)
        requires
            self.wf(),
            self.is_done(),
        ensures
            taken(self.steps_view()) == self.handed_view(),
    {
        assert(remaining(self.stack@) =~= Multiset::<DirEntryInfo>::empty());
        assert(taken(self.steps@).add(Multiset::<DirEntryInfo>::empty()) =~= taken(self.steps@));
    }

    /// The folders a walk records are exactly the finished subtrees beneath
    /// its root that clear [`MIN_SIZE_BYTES`], in the order they finished,
    /// each with the totals of the steps taken inside it.
    pub proof fn law_folders_are_the_large_finished_subtrees(&self)
        requires
            self.wf(),
        ensures
            self.recorded_view().len() == self.folder_count(),
            forall|i: int|
                0 <= i < self.folder_count() ==> 0 <= #[trigger] self.recorded_view()[i]
                    < self.spans_view().len() && folder_matches(
                    self.folder_at(i),
                    self.spans_view()[self.recorded_view()[i]],
                ),
            forall|i: int, i2: int|
                0 <= i < i2 < self.folder_count() ==> self.recorded_view()[i]
                    < self.recorded_view()[i2],
            forall|j: int|
                0 <= j < self.spans_view().len() ==> (span_is_large(#[trigger] self.spans_view()[j])
                    <==> self.recorded_view().contains(j)),
            forall|j: int|
                0 <= j < self.spans_view().len() ==> (#[trigger] self.spans_view()[j]).1.is_prefix_of(
                    self.spans_view()[j].2,
                ) && self.spans_view()[j].2.is_prefix_of(self.steps_view()),
    {
        reveal(record_ok);
        reveal(histories_follow);
        assert forall|j: int| 0 <= j < self.spans_view().len() && self.recorded_view().contains(j)
            implies span_is_large(#[trigger] self.spans_view()[j]) by {
            let i = choose|i: int| 0 <= i < self.recorded@.len() && self.recorded@[i] == j;
            assert(folder_matches(self.folders@[i], self.spans@[self.recorded@[i]]));
            assert(self.folder_ok(self.folders@[i]));
        }
    }

    /// Finished subtrees nest as directories do. Of two, the one that
    /// finished first but after the other was entered lies strictly beneath
    /// the other, with totals no larger; so a folder recorded from within
    /// another recorded folder's subtree lies beneath it and is no larger.
    pub proof fn law_nested_subtrees_roll_up(&self)
        requires
            self.wf(),
        ensures
            forall|j: int, j2: int|
                #![trigger self.spans_view()[j], self.spans_view()[j2]]
                0 <= j < j2 < self.spans_view().len() && self.spans_view()[j].2.len()
                    > self.spans_view()[j2].1.len() ==> span_within(
                    self.spans_view()[j],
                    self.spans_view()[j2],
                ),
            forall|i: int, i2: int|
                #![trigger self.folder_at(i), self.folder_at(i2)]
                0 <= i < i2 < self.folder_count() && self.spans_view()[self.recorded_view()[i]].2.len()
                    > self.spans_view()[self.recorded_view()[i2]].1.len() ==> {
                    &&& strictly_within(self.folder_at(i).path_view(), self.folder_at(i2).path_view())
                    &&& self.folder_at(i).size_bytes <= self.folder_at(i2).size_bytes
                    &&& self.folder_at(i).file_count <= self.folder_at(i2).file_count
                    &&& self.folder_at(i).unreadable <= self.folder_at(i2).unreadable
                },
    {
        reveal(nesting_ok);
        reveal(record_ok);
        let sp = self.spans@;
        lemma_histories_lens(self.stack@, sp, self.steps@);
        assert forall|j: int, j2: int|
            #![trigger sp[j], sp[j2]]
            0 <= j < j2 < sp.len() && sp[j].2.len() > sp[j2].1.len() implies span_within(
                sp[j],
                sp[j2],
            ) by {
            reveal(histories_follow);
            assert(sp[j].1.is_prefix_of(sp[j].2));
            assert(sp[j].2.is_prefix_of(self.steps@));
            assert(sp[j2].1.is_prefix_of(sp[j2].2));
            assert(sp[j2].2.is_prefix_of(self.steps@));
            lemma_prefix_trans(sp[j].1, sp[j].2, self.steps@);
            lemma_prefix_trans(sp[j2].1, sp[j2].2, self.steps@);
            lemma_prefix_by_len(sp[j2].1, sp[j].1, self.steps@);
            lemma_prefix_by_len(sp[j].2, sp[j2].2, self.steps@);
            lemma_tally_monotone(sp[j2].1, sp[j].1);
            lemma_tally_monotone(sp[j].2, sp[j2].2);
        }
        assert forall|i: int, i2: int|
            #![trigger self.folder_at(i), self.folder_at(i2)]
            0 <= i < i2 < self.folder_count() && sp[self.recorded@[i]].2.len()
                > sp[self.recorded@[i2]].1.len() implies {
                &&& strictly_within(self.folder_at(i).path_view(), self.folder_at(i2).path_view())
                &&& self.folder_at(i).size_bytes <= self.folder_at(i2).size_bytes
                &&& self.folder_at(i).file_count <= self.folder_at(i2).file_count
                &&& self.folder_at(i).unreadable <= self.folder_at(i2).unreadable
            } by {
            let (a, b) = (self.recorded@[i], self.recorded@[i2]);
            assert(a < b);
            assert(folder_matches(self.folders@[i], sp[a]));
            assert(folder_matches(self.folders@[i2], sp[b]));
            assert(span_within(sp[a], sp[b]));
        }
    }

    /// A file with several hard links is counted once per (device, inode).
    pub proof fn law_hard_links_counted_once(&self)
        requires
            self.wf(),
        ensures
            self.counted_links().no_duplicates(),
    {
    }

} // impl Walk

/// What holds of every folder recorded beneath `root`.
pub open spec fn recorded_folder_ok(f: FolderSize, root: PathView) -> bool {
    &&& f.size_bytes >= MIN_SIZE_BYTES
    &&& is_within(f.path.deep_view(), root)
    &&& f.path.deep_view().len() > root.len()
    &&& f.parent.deep_view() == f.path.deep_view().drop_last()
}

/// `list` with `p` added unless already present.
pub open spec fn insert_view(list: Seq<PathView>, p: PathView) -> Seq<PathView> {
    if list.contains(p) {
        list
    } else {
        list.push(p)
    }
}

/// The blocked set after `dir` refused to open, given every refusal so far.
pub open spec fn blocked_after(
    blocked: Seq<PathView>,
    refused: Seq<PathView>,
    dir: PathView,
    root: PathView,
) -> Seq<PathView> {
    let b1 = insert_view(blocked, dir);
    if dir.len() > 0 && dir.drop_last() != root && count_children(refused, dir.drop_last())
        == BLOCKED_SIBLINGS_BEFORE_COLLAPSE {
        insert_view(b1, dir.drop_last())
    } else {
        b1
    }
}


/// `(cost, index)` of `a` comes strictly before that of `b`.
pub open spec fn cheaper(costs: Seq<u64>, a: usize, b: usize) -> bool {
    costs[a as int] < costs[b as int] || (costs[a as int] == costs[b as int] && a < b)
}

/// `order` lists every index of `costs` exactly once, cheapest first, ties in
/// the order they were given in.
pub open spec fn is_budget_order(costs: Seq<u64>, order: Seq<usize>) -> bool {
    &&& order.len() == costs.len()
    &&& forall|k: int| 0 <= k < order.len() ==> order[k] < costs.len()
    &&& order.no_duplicates()
    &&& forall|a: int, b: int|
        0 <= a < b < order.len() ==> cheaper(costs, #[trigger] order[a], #[trigger] order[b])
}

/// The order in which a budgeted refresh visits folders whose last measured
/// file counts are `costs`: cheapest first, so the most folders get verified
/// per second of budget. Ties keep the order they were given in.
pub fn budget_order(costs: &Vec<u64>) -> (order: Vec<usize>)
    ensures
        is_budget_order(costs@, order@),
{
    let n = costs.len();
    let mut order: Vec<usize> = Vec::new();
    for i in 0..n
        invariant
            n == costs@.len(),
            order@.len() == i,
            forall|k: int| 0 <= k < order@.len() ==> order@[k] < i,
            order@.no_duplicates(),
            forall|a: int, b: int|
                0 <= a < b < order@.len() ==> cheaper(costs@, #[trigger] order@[a], #[trigger] order@[b]),
    {
        let mut pos: usize = 0;
        while pos < order.len() && costs[order[pos]] <= costs[i]
            invariant
                n == costs@.len(),
                i < n,
                pos <= order@.len(),
                forall|k: int| 0 <= k < order@.len() ==> order@[k] < i,
                forall|k: int| 0 <= k < pos ==> costs@[order@[k] as int] <= costs@[i as int],
            decreases order@.len() - pos,
        {
            pos += 1;
        }
        let ghost before = order@;
        proof {
            assert forall|k: int| pos <= k < before.len() implies costs@[before[k] as int] > costs@[i as int] by {
                assert(costs@[before[pos as int] as int] > costs@[i as int]);
                if k > pos {
                    assert(cheaper(costs@, before[pos as int], before[k]));
                }
            }
        }
        order.insert(pos, i);
        proof {
            let o = order@;
            assert(o == before.insert(pos as int, i));
            assert forall|k: int| 0 <= k < o.len() implies o[k] < i + 1 by {
                if k < pos {
                    assert(o[k] == before[k]);
                } else if k > pos {
                    assert(o[k] == before[k - 1]);
                }
            }
            assert forall|a: int, b: int| 0 <= a < b < o.len() implies cheaper(
                costs@,
                #[trigger] o[a],
                #[trigger] o[b],
            ) by {
                if b < pos {
                    assert(o[a] == before[a] && o[b] == before[b]);
                } else if b == pos {
                    assert(o[a] == before[a]);
                } else if a == pos {
                    assert(o[b] == before[b - 1]);
                } else if a < pos {
                    assert(o[a] == before[a] && o[b] == before[b - 1]);
                } else {
                    assert(o[a] == before[a - 1] && o[b] == before[b - 1]);
                }
            }
            assert forall|a: int, b: int| 0 <= a < o.len() && 0 <= b < o.len() && a != b implies o[a] != o[b] by {
                if a < b {
                    assert(cheaper(costs@, o[a], o[b]));
                } else {
                    assert(cheaper(costs@, o[b], o[a]));
                }
            }
        }
    }
    order
}


/// `list` with each of `items` added unless already present, in order.
pub open spec fn insert_all(list: Seq<PathView>, items: Seq<PathView>) -> Seq<PathView>
    decreases items.len(),
{
    if items.len() == 0 {
        list
    } else {
        insert_view(insert_all(list, items.drop_last()), items.last())
    }
}

/// Add every path of `items` to `list`, skipping ones already there.
pub fn insert_paths(list: &mut Vec<Vec<String>>, items: &Vec<Vec<String>>)
    ensures
        final(list).deep_view() == insert_all(old(list).deep_view(), items.deep_view()),
{
    let n = items.len();
    for i in 0..n
        invariant
            n == items@.len(),
            list.deep_view() == insert_all(old(list).deep_view(), items.deep_view().take(i as int)),
    {
        let ghost pre = items.deep_view().take(i as int);
        assert(items.deep_view().take(i + 1).drop_last() == pre);
        assert(items.deep_view().take(i + 1).last() == items@[i as int].deep_view());
        insert_path(list, clone_path(&items[i]));
    }
    assert(items.deep_view().take(n as int) == items.deep_view());
}

/// A budgeted refresh of several folders: each is measured by its own walk,
/// cheapest first, until the deadline passes.
///
/// [`BudgetScan::next_path`] names the next folder to walk and the directories
/// the walk must not probe; [`BudgetScan::record`] takes that walk's result.
/// Folders whose turn never comes, and walks cut short by the deadline, are
/// absent from the result and keep whatever value the caller had cached: a
/// truncated subtree would report a total that is too low.
pub struct BudgetScan {
    costs: Vec<(Vec<String>, u64)>,
    order: Vec<usize>,
    pos: usize,
    skip: Vec<Vec<String>>,
    learned: Vec<Vec<String>>,
    measured: Vec<FolderSize>,
    stopped: bool,
    current: Option<usize>,
}

impl BudgetScan {
    pub closed spec fn paths_view(&self) -> Seq<PathView> {
        Seq::new(self.costs@.len(), |i: int| self.costs@[i].0.deep_view())
    }

    pub closed spec fn costs_view(&self) -> Seq<u64> {
        Seq::new(self.costs@.len(), |i: int| self.costs@[i].1)
    }

    pub closed spec fn order_view(&self) -> Seq<usize> {
        self.order@
    }

    /// How many folders have been handed out so far.
    pub closed spec fn offered(&self) -> nat {
        self.pos as nat
    }

    pub closed spec fn skip_view(&self) -> Seq<PathView> {
        self.skip.deep_view()
    }

    /// Directories earlier walks of this refresh found closed.
    pub closed spec fn learned_view(&self) -> Seq<PathView> {
        self.learned.deep_view()
    }

    pub closed spec fn measured_view(&self) -> Seq<FolderSize> {
        self.measured@
    }

    pub closed spec fn is_stopped(&self) -> bool {
        self.stopped
    }

    /// The folder being walked, between `next_path` and `record`.
    pub closed spec fn current_view(&self) -> Option<PathView> {
        match self.current {
            Some(i) => Some(self.costs@[i as int].0.deep_view()),
            None => None,
        }
    }

    pub closed spec fn wf(&self) -> bool {
        &&& is_budget_order(self.costs_view(), self.order@)
        &&& self.pos <= self.order@.len()
        &&& (self.current matches Some(i) ==> i < self.costs@.len())
        &&& forall|a: int, b: int|
            0 <= a < b < self.measured@.len() ==> (#[trigger] self.measured@[a]).path.deep_view()
                != (#[trigger] self.measured@[b]).path.deep_view()
    }

    /// Plan a refresh of `costs`, pairs of a folder and the file count it had
    /// at the last full scan. `skip` names directories earlier walks found
    /// closed.
    pub fn new(costs: Vec<(Vec<String>, u64)>, skip: Vec<Vec<String>>) -> (b: BudgetScan)
        ensures
            b.wf(),
            b.paths_view() == Seq::new(costs@.len(), |i: int| costs@[i].0.deep_view()),
            b.costs_view() == Seq::new(costs@.len(), |i: int| costs@[i].1),
            b.skip_view() == skip.deep_view(),
            b.learned_view() == Seq::<PathView>::empty(),
            b.measured_view() == Seq::<FolderSize>::empty(),
            b.offered() == 0,
            !b.is_stopped(),
            b.current_view() is None,
    {
        let mut numbers: Vec<u64> = Vec::new();
        let n = costs.len();
        for i in 0..n
            invariant
                n == costs@.len(),
                numbers@ == Seq::new(i as nat, |k: int| costs@[k].1),
        {
            numbers.push(costs[i].1);
            assert(numbers@ =~= Seq::new((i + 1) as nat, |k: int| costs@[k].1));
        }
        let order = budget_order(&numbers);
        let b = BudgetScan {
            costs,
            order,
            pos: 0,
            skip,
            learned: Vec::new(),
            measured: Vec::new(),
            stopped: false,
            current: None,
        };
        assert(b.costs_view() =~= numbers@);
        assert(b.learned.deep_view() =~= Seq::<PathView>::empty());
        b
    }

    /// The next folder to walk, with the directories its walk must not probe
    /// (the caller's `skip` plus whatever earlier walks learned), or `None`
    /// once the deadline has passed or every folder has had its turn.
    pub fn next_path(&mut self, expired: bool) -> (r: Option<(Vec<String>, Vec<Vec<String>>)>)
        requires
            old(self).wf(),
            old(self).current_view() is None,
        ensures
            final(self).wf(),
            final(self).paths_view() == old(self).paths_view(),
            final(self).costs_view() == old(self).costs_view(),
            final(self).order_view() == old(self).order_view(),
            final(self).skip_view() == old(self).skip_view(),
            final(self).learned_view() == old(self).learned_view(),
            final(self).measured_view() == old(self).measured_view(),
            old(self).is_stopped() ==> r is None,
            r is None ==> final(self).is_stopped() && final(self).current_view() is None
                && final(self).offered() == old(self).offered(),
            (!old(self).is_stopped() && !expired && old(self).offered() < old(self).order_view().len())
                <==> r is Some,
            r matches Some((p, known)) ==> {
                let i = old(self).order_view()[old(self).offered() as int];
                &&& final(self).offered() == old(self).offered() + 1
                &&& p.deep_view() == old(self).paths_view()[i as int]
                &&& final(self).current_view() == Some(p.deep_view())
                &&& known.deep_view() == insert_all(old(self).skip_view(), old(self).learned_view())
            },
    {
        if self.stopped || expired || self.pos >= self.order.len() {
            self.stopped = true;
            return None;
        }
        let i = self.order[self.pos];
        self.pos = self.pos + 1;
        self.current = Some(i);
        let mut known = clone_paths(&self.skip);
        let p = clone_path(&self.costs[i].0);
        insert_paths(&mut known, &self.learned);
        Some((p, known))
    }


    /// Take the result of walking the current folder: remember what it found
    /// closed, and keep its total unless the deadline cut it short.
    pub fn record(&mut self, result: ScanResult)
        requires
            old(self).wf(),
            old(self).current_view() is Some,
        ensures
            final(self).wf(),
            final(self).current_view() is None,
            final(self).paths_view() == old(self).paths_view(),
            final(self).costs_view() == old(self).costs_view(),
            final(self).order_view() == old(self).order_view(),
            final(self).offered() == old(self).offered(),
            final(self).skip_view() == old(self).skip_view(),
            final(self).is_stopped() == old(self).is_stopped(),
            final(self).learned_view() == insert_all(
                old(self).learned_view(),
                result.blocked.deep_view(),
            ),
            final(self).measured_view() == (if result.truncated {
                old(self).measured_view()
            } else {
                match find_path(result.folders@, old(self).current_view()->0) {
                    Some(f) => replace_or_push(old(self).measured_view(), f),
                    None => old(self).measured_view(),
                }
            }),
    {
        let i = self.current.unwrap();
        self.current = None;
        insert_paths(&mut self.learned, &result.blocked);
        if result.truncated {
            return;
        }
        let ghost fs = result.folders@;
        let ghost target = self.costs@[i as int].0.deep_view();
        let mut folders = result.folders;
        let n = folders.len();
        let mut k: usize = 0;
        assert(fs.skip(0) == fs);
        while k < n && !same_path(&folders[k].path, &self.costs[i].0)
            invariant
                n == folders@.len(),
                folders@ == fs,
                k <= n,
                i < self.costs@.len(),
                target == self.costs@[i as int].0.deep_view(),
                find_path(fs, target) == find_path(fs.skip(k as int), target),
            decreases n - k,
        {
            assert(fs.skip(k as int).drop_first() == fs.skip(k + 1));
            k += 1;
        }
        if k == n {
            assert(fs.skip(n as int).len() == 0);
            return;
        }
        assert(fs.skip(k as int)[0] == fs[k as int]);
        let f = folders.remove(k);
        self.upsert(f);
    }

    fn upsert(&mut self, f: FolderSize)
        requires
            old(self).wf(),
        ensures
            final(self).wf(),
            final(self).measured@ == replace_or_push(old(self).measured@, f),
            final(self).costs == old(self).costs,
            final(self).order == old(self).order,
            final(self).pos == old(self).pos,
            final(self).skip == old(self).skip,
            final(self).learned == old(self).learned,
            final(self).stopped == old(self).stopped,
            final(self).current == old(self).current,
    {
        let ghost ms = self.measured@;
        let n = self.measured.len();
        let mut j: usize = 0;
        while j < n && !same_path(&self.measured[j].path, &f.path)
            invariant
                n == self.measured@.len(),
                self.measured@ == ms,
                j <= n,
                forall|q: int| 0 <= q < j ==> ms[q].path.deep_view() != f.path.deep_view(),
            decreases n - j,
        {
            j += 1;
        }
        if j == n {
            self.measured.push(f);
            assert(!exists|q: int| 0 <= q < ms.len() && ms[q].path.deep_view() == f.path.deep_view());
            proof {
                let m2 = self.measured@;
                assert forall|a: int, b: int| 0 <= a < b < m2.len() implies (#[trigger] m2[a]).path.deep_view()
                    != (#[trigger] m2[b]).path.deep_view() by {
                    if b == m2.len() - 1 {
                        assert(m2[a] == ms[a]);
                    } else {
                        assert(m2[a] == ms[a] && m2[b] == ms[b]);
                    }
                }
            }
        } else {
            let ghost jj = choose|q: int| 0 <= q < ms.len() && ms[q].path.deep_view() == f.path.deep_view();
            proof {
                if jj != j {
                    if jj < j {
                        assert(ms[jj].path.deep_view() != f.path.deep_view());
                    } else {
                        assert(ms[j as int].path.deep_view() != ms[jj].path.deep_view());
                    }
                }
            }
            self.measured.set(j, f);
            proof {
                let m2 = self.measured@;
                assert forall|a: int, b: int| 0 <= a < b < m2.len() implies (#[trigger] m2[a]).path.deep_view()
                    != (#[trigger] m2[b]).path.deep_view() by {
                    if a == j {
                        assert(ms[a].path.deep_view() == f.path.deep_view());
                    } else if b == j {
                        assert(ms[b].path.deep_view() == f.path.deep_view());
                    }
                }
            }
        }
    }

    /// What the refresh measured, and every directory its walks found closed.
    pub fn finish(self) -> (r: (Vec<FolderSize>, Vec<Vec<String>>))
        requires
            self.wf(),
        ensures
            r.0@ == self.measured_view(),
            r.1.deep_view() == self.learned_view(),
            forall|a: int, b: int|
                0 <= a < b < r.0@.len() ==> (#[trigger] r.0@[a]).path.deep_view() != (
                #[trigger] r.0@[b]).path.deep_view(),
    {
        (self.measured, self.learned)
    }

} // impl BudgetScan

/// The first folder of `fs` whose path is `p`.
pub open spec fn find_path(fs: Seq<FolderSize>, p: PathView) -> Option<FolderSize>
    decreases fs.len(),
{
    if fs.len() == 0 {
        None
    } else if fs[0].path.deep_view() == p {
        Some(fs[0])
    } else {
        find_path(fs.drop_first(), p)
    }
}

/// `ms` with the entry for `f`'s path replaced by `f`, or `f` appended when
/// there is none.
pub open spec fn replace_or_push(ms: Seq<FolderSize>, f: FolderSize) -> Seq<FolderSize> {
    if exists|q: int| 0 <= q < ms.len() && ms[q].path.deep_view() == f.path.deep_view() {
        let q = choose|q: int| 0 <= q < ms.len() && ms[q].path.deep_view() == f.path.deep_view();
        ms.update(q, f)
    } else {
        ms.push(f)
    }
}

} // verus!
