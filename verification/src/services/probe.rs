//! Judging what a declared service is doing right now.
//!
//! Three sources are joined per service: launchd's job table (is it
//! registered, what PID, how did it last exit), the `ps` process table (the
//! tree's shape, memory, age), and a TCP connect to its port (is it serving).
//! Gathering them is I/O; this module parses what they print and decides the
//! service's state from the answers.
use vstd::prelude::*;
use crate::text::{
    lines, trim, words, parse_u32_spec, parse_i32_spec, parse_u64_spec, first_of, split_on,
    chars_of, split_lines, trim_bounds, range_is, words_of, parse_u32_in, parse_i32_in,
    parse_u64_in, string_of, split_chars, find_char_from, copy_range, lemma_split_on_nonempty,
    parse_u64_of, parse_u32_of, parse_i32_of, lemma_first_of_bound,
};

verus! {

/// How long a service may sit with its PID up but its port closed before it
/// stops counting as starting and counts as unhealthy. Sized for the slowest
/// legitimate start: a model server reading tens of gigabytes of weights.
pub const STARTUP_GRACE_SEC: u64 = 600;

/// How long a service may keep running after SIGTERM before it is killed.
pub const RESTART_GRACE_SEC: u64 = 30;

#[derive(Clone, Copy, Debug, PartialEq, Eq, Structural)]
pub enum ServiceState {
    /// Up, and its port (if it declares one) accepts connections.
    Running,
    /// Up, port not open yet, and not up long enough for that to alarm.
    Starting,
    /// Up, port closed, grace period over. launchd thinks all is well, so
    /// nothing else on the machine will say otherwise.
    Unhealthy,
    /// Registered with launchd but no process.
    Down,
    /// In the manifest but not registered with launchd at all.
    Unregistered,
    /// Not registered with launchd, yet its port is serving: something runs
    /// it outside the supervisor.
    Rogue,
}

/// What launchd knows about one job.
#[derive(Clone, Copy, Debug, PartialEq, Eq, Structural)]
pub struct LaunchdEntry {
    /// `None` when launchd reports PID 0: registered, not running.
    pub pid: Option<u32>,
    /// Exit status of the last run; `None` while it has not exited.
    pub last_exit: Option<i32>,
}

/// A PID of 0 means "not running".
pub open spec fn running_pid(p: Option<u32>) -> Option<u32> {
    match p {
        Some(v) => if v != 0 {
            Some(v)
        } else {
            None
        },
        None => None,
    }
}

/// One row of the `services` block: `<pid> <status> <label>`, exactly three
/// fields.
pub open spec fn launchd_row(t: Seq<char>) -> Option<(Seq<char>, LaunchdEntry)> {
    let w = words(t);
    if w.len() == 3 {
        Some(
            (
                w[2],
                LaunchdEntry { pid: running_pid(parse_u32_spec(w[0])), last_exit: parse_i32_spec(w[1]) },
            ),
        )
    } else {
        None
    }
}

/// The rows of the `services = {` block, in order. Everything before the
/// block is ignored (`launchctl print` has other blocks with other row
/// shapes), and the block ends at its closing brace.
pub open spec fn services_rows(ls: Seq<Seq<char>>, inside: bool) -> Seq<(Seq<char>, LaunchdEntry)>
    decreases ls.len(),
{
    if ls.len() == 0 {
        Seq::empty()
    } else {
        let t = trim(ls[0]);
        let rest = ls.drop_first();
        if !inside {
            services_rows(rest, t == "services = {"@)
        } else if t == "}"@ {
            Seq::empty()
        } else {
            match launchd_row(t) {
                Some(r) => seq![r] + services_rows(rest, true),
                None => services_rows(rest, true),
            }
        }
    }
}

/// Index of the last entry labelled `l`, or -1.
pub open spec fn find_label<E>(acc: Seq<(Seq<char>, E)>, l: Seq<char>) -> int
    decreases acc.len(),
{
    if acc.len() == 0 {
        -1
    } else if acc.last().0 == l {
        acc.len() - 1
    } else {
        find_label(acc.drop_last(), l)
    }
}

/// `acc` with `row` stored under its label, replacing an earlier one.
pub open spec fn upsert<E>(acc: Seq<(Seq<char>, E)>, row: (Seq<char>, E)) -> Seq<(Seq<char>, E)> {
    let i = find_label(acc, row.0);
    if i >= 0 {
        acc.update(i, row)
    } else {
        acc.push(row)
    }
}

/// Rows stored one after another: a label seen twice keeps its later row.
pub open spec fn upsert_all<E>(rows: Seq<(Seq<char>, E)>) -> Seq<(Seq<char>, E)>
    decreases rows.len(),
{
    if rows.len() == 0 {
        Seq::empty()
    } else {
        upsert(upsert_all(rows.drop_last()), rows.last())
    }
}

/// What is stored under `l`.
pub open spec fn lookup<E>(acc: Seq<(Seq<char>, E)>, l: Seq<char>) -> Option<E> {
    let i = find_label(acc, l);
    if i >= 0 {
        Some(acc[i].1)
    } else {
        None
    }
}

/// Labels as character sequences.
pub open spec fn entries_view(r: Seq<(String, LaunchdEntry)>) -> Seq<(Seq<char>, LaunchdEntry)> {
    Seq::new(r.len(), |i: int| (r[i].0@, r[i].1))
}

pub(crate) proof fn lemma_find_label_range<E>(acc: Seq<(Seq<char>, E)>, l: Seq<char>)
    ensures
        -1 <= find_label(acc, l) < acc.len(),
        find_label(acc, l) >= 0 ==> acc[find_label(acc, l)].0 == l,
        find_label(acc, l) < 0 ==> forall|j: int| 0 <= j < acc.len() ==> acc[j].0 != l,
        find_label(acc, l) >= 0 ==> forall|j: int| find_label(acc, l) < j < acc.len() ==> acc[j].0 != l,
    decreases acc.len(),
{
    if acc.len() > 0 && acc.last().0 != l {
        lemma_find_label_range(acc.drop_last(), l);
        assert forall|j: int| 0 <= j < acc.len() - 1 implies acc[j] == acc.drop_last()[j] by {}
    }
}

pub(crate) proof fn lemma_find_label_at<E>(acc: Seq<(Seq<char>, E)>, l: Seq<char>, k: int)
    requires
        0 <= k < acc.len(),
        acc[k].0 == l,
        forall|j: int| k < j < acc.len() ==> acc[j].0 != l,
    ensures
        find_label(acc, l) == k,
    decreases acc.len(),
{
    if acc.len() - 1 != k {
        assert(acc.last().0 != l);
        let d = acc.drop_last();
        assert forall|j: int| k < j < d.len() implies d[j].0 != l by {
            assert(d[j] == acc[j]);
        }
        lemma_find_label_at(d, l, k);
    }
}

/// Store `e` under `label`, replacing an earlier entry with that label.
fn upsert_entry(acc: &mut Vec<(String, LaunchdEntry)>, label: String, e: LaunchdEntry)
    ensures
        entries_view(final(acc)@) == upsert(entries_view(old(acc)@), (label@, e)),
{
    let ghost v = entries_view(acc@);
    let ghost lv = label@;
    proof {
        lemma_find_label_range(v, lv);
    }
    let mut i = acc.len();
    let mut found = false;
    while i > 0
        invariant
            i <= acc@.len(),
            v == entries_view(acc@),
            lv == label@,
            found ==> i > 0 && acc@[i - 1].0@ == lv,
            forall|j: int| i <= j < acc@.len() ==> acc@[j].0@ != lv,
        ensures
            found || i == 0,
        decreases i,
    {
        if acc[i - 1].0 == label {
            found = true;
            break;
        }
        i -= 1;
    }
    if found {
        proof {
            assert forall|j: int| i - 1 < j < v.len() implies v[j].0 != lv by {
                assert(v[j].0 == acc@[j].0@);
            }
            lemma_find_label_at(v, lv, i - 1);
        }
        acc.set(i - 1, (label, e));
        assert(entries_view(acc@) =~= v.update(i - 1, (lv, e)));
    } else {
        assert(i == 0);
        assert(find_label(v, lv) < 0) by {
            let f = find_label(v, lv);
            if f >= 0 {
                assert(v[f].0 == lv);
                assert(v[f].0 == acc@[f].0@);
            }
        }
        acc.push((label, e));
        assert(entries_view(acc@) =~= v.push((lv, e)));
    }
}

/// What launchd reports for `label`.
pub fn launchd_entry(entries: &Vec<(String, LaunchdEntry)>, label: &str) -> (r: Option<LaunchdEntry>)
    ensures
        r == lookup(entries_view(entries@), label@),
{
    let ghost v = entries_view(entries@);
    proof {
        lemma_find_label_range(v, label@);
    }
    let lv = chars_of(label);
    let mut i = entries.len();
    while i > 0
        invariant
            i <= entries@.len(),
            v == entries_view(entries@),
            lv@ == label@,
            forall|j: int| i <= j < entries@.len() ==> entries@[j].0@ != label@,
        decreases i,
    {
        let name = chars_of(entries[i - 1].0.as_str());
        if name.len() == lv.len() && crate::text::occurs_at_exec(name.as_slice(), lv.as_slice(), 0) {
            assert(name@.subrange(0, lv@.len() as int) == name@);
            proof {
                assert forall|j: int| i - 1 < j < v.len() implies v[j].0 != label@ by {
                    assert(v[j].0 == entries@[j].0@);
                }
                lemma_find_label_at(v, label@, i - 1);
            }
            return Some(entries[i - 1].1);
        }
        proof {
            if entries@[i - 1].0@ == label@ {
                assert(name@.subrange(0, lv@.len() as int) == name@);
            }
        }
        i -= 1;
    }
    assert(find_label(v, label@) < 0) by {
        if find_label(v, label@) >= 0 {
            assert(v[find_label(v, label@)].0 == label@);
        }
    }
    None
}

/// Parse the `services = { … }` block of `launchctl print system` into one
/// entry per label. Rows that do not have exactly three fields are skipped;
/// a label listed twice keeps its later row.
pub fn parse_launchd_services(text: &str) -> (r: Vec<(String, LaunchdEntry)>)
    ensures
        entries_view(r@) == upsert_all(services_rows(lines(text@), false)),
{
    let cs = chars_of(text);
    let ls = split_lines(cs.as_slice());
    let ghost all = ls.deep_view();
    let mut out: Vec<(String, LaunchdEntry)> = Vec::new();
    let mut inside = false;
    let n = ls.len();
    let mut i: usize = 0;
    proof {
        assert(all.skip(0) =~= all);
        assert(entries_view(out@) =~= Seq::<(Seq<char>, LaunchdEntry)>::empty());
        lemma_upsert_all_append(Seq::empty(), services_rows(all, false));
        assert(Seq::<(Seq<char>, LaunchdEntry)>::empty() + services_rows(all, false) =~= services_rows(all, false));
    }
    while i < n
        invariant
            n == ls@.len(),
            all == ls.deep_view(),
            all == lines(text@),
            i <= n,
            upsert_all(services_rows(all, false)) == upsert_rows_from(entries_view(out@), services_rows(all.skip(i as int), inside)),
        decreases n - i,
    {
        let line = &ls[i];
        let ghost rest = all.skip(i as int);
        assert(rest[0] == line@);
        assert(rest.drop_first() =~= all.skip(i + 1));
        let (a, b) = trim_bounds(line.as_slice(), 0, line.len());
        assert(line@.subrange(0, line@.len() as int) == line@);
        if !inside {
            inside = range_is(line.as_slice(), a, b, "services = {");
        } else if range_is(line.as_slice(), a, b, "}") {
            assert(services_rows(rest, true) =~= Seq::<(Seq<char>, LaunchdEntry)>::empty());
            return out;
        } else {
            let mut t: Vec<char> = Vec::new();
            let mut k = a;
            while k < b
                invariant
                    a <= k <= b <= line@.len(),
                    t@ == line@.subrange(a as int, k as int),
                decreases b - k,
            {
                t.push(line[k]);
                assert(line@.subrange(a as int, k + 1) == line@.subrange(a as int, k as int).push(line@[k as int]));
                k += 1;
            }
            let w = words_of(t.as_slice());
            if w.len() == 3 {
                assert(w@[0]@.subrange(0, w@[0]@.len() as int) == w@[0]@);
                assert(w@[1]@.subrange(0, w@[1]@.len() as int) == w@[1]@);
                assert(w@[2]@.subrange(0, w@[2]@.len() as int) == w@[2]@);
                assert(w.deep_view()[0] == w@[0]@);
                assert(w.deep_view()[1] == w@[1]@);
                assert(w.deep_view()[2] == w@[2]@);
                let pid = match parse_u32_in(w[0].as_slice(), 0, w[0].len()) {
                    Some(p) => if p != 0 {
                        Some(p)
                    } else {
                        None
                    },
                    None => None,
                };
                let last_exit = parse_i32_in(w[1].as_slice(), 0, w[1].len());
                let label = string_of(w[2].as_slice());
                let e = LaunchdEntry { pid, last_exit };
                let ghost before = entries_view(out@);
                let ghost row = (label@, e);
                assert(launchd_row(t@) == Some(row));
                upsert_entry(&mut out, label, e);
                proof {
                    assert(services_rows(rest, true) == seq![row] + services_rows(all.skip(i + 1), true));
                    lemma_upsert_rows_cons(before, row, services_rows(all.skip(i + 1), true));
                }
            } else {
                assert(launchd_row(t@) is None);
            }
        }
        i += 1;
    }
    proof {
        assert(all.skip(n as int) =~= Seq::<Seq<char>>::empty());
        assert(upsert_rows_from(entries_view(out@), Seq::empty()) == entries_view(out@));
    }
    out
}

/// `acc` with each of `rows` stored in turn.
pub open spec fn upsert_rows_from<E>(acc: Seq<(Seq<char>, E)>, rows: Seq<(Seq<char>, E)>) -> Seq<(Seq<char>, E)>
    decreases rows.len(),
{
    if rows.len() == 0 {
        acc
    } else {
        upsert_rows_from(upsert(acc, rows[0]), rows.drop_first())
    }
}

proof fn lemma_upsert_rows_cons<E>(acc: Seq<(Seq<char>, E)>, row: (Seq<char>, E), rows: Seq<(Seq<char>, E)>)
    ensures
        upsert_rows_from(acc, seq![row] + rows) == upsert_rows_from(upsert(acc, row), rows),
{
    assert((seq![row] + rows)[0] == row);
    assert((seq![row] + rows).drop_first() =~= rows);
}

proof fn lemma_upsert_rows_snoc<E>(acc: Seq<(Seq<char>, E)>, rows: Seq<(Seq<char>, E)>, row: (Seq<char>, E))
    ensures
        upsert_rows_from(acc, rows.push(row)) == upsert(upsert_rows_from(acc, rows), row),
    decreases rows.len(),
{
    if rows.len() == 0 {
        assert(rows.push(row) =~= seq![row]);
        assert(seq![row].drop_first() =~= Seq::<(Seq<char>, E)>::empty());
        assert(upsert_rows_from(upsert(acc, row), Seq::<(Seq<char>, E)>::empty()) == upsert(acc, row));
        assert(upsert_rows_from(acc, rows) == acc);
    } else {
        assert(rows.push(row)[0] == rows[0]);
        assert(rows.push(row).drop_first() =~= rows.drop_first().push(row));
        lemma_upsert_rows_snoc(upsert(acc, rows[0]), rows.drop_first(), row);
    }
}

proof fn lemma_upsert_all_append<E>(acc: Seq<(Seq<char>, E)>, rows: Seq<(Seq<char>, E)>)
    requires
        acc.len() == 0,
    ensures
        upsert_all(rows) == upsert_rows_from(acc, rows),
    decreases rows.len(),
{
    if rows.len() > 0 {
        lemma_upsert_all_append(acc, rows.drop_last());
        lemma_upsert_rows_snoc(acc, rows.drop_last(), rows.last());
        assert(rows.drop_last().push(rows.last()) =~= rows);
    }
}

/// Whether no label appears twice.
pub open spec fn labels_distinct<E>(acc: Seq<(Seq<char>, E)>) -> bool {
    forall|a: int, b: int| 0 <= a < b < acc.len() ==> #[trigger] acc[a].0 != #[trigger] acc[b].0
}

pub(crate) proof fn lemma_find_label_same_labels<E>(a: Seq<(Seq<char>, E)>, b: Seq<(Seq<char>, E)>, l: Seq<char>)
    requires
        a.len() == b.len(),
        forall|j: int| 0 <= j < a.len() ==> #[trigger] a[j].0 == b[j].0,
    ensures
        find_label(a, l) == find_label(b, l),
    decreases a.len(),
{
    if a.len() > 0 {
        assert(a.last().0 == b.last().0);
        let (da, db) = (a.drop_last(), b.drop_last());
        assert forall|j: int| 0 <= j < da.len() implies #[trigger] da[j].0 == db[j].0 by {
            assert(da[j] == a[j] && db[j] == b[j]);
        }
        lemma_find_label_same_labels(da, db, l);
    }
}

proof fn lemma_upsert_lookup<E>(acc: Seq<(Seq<char>, E)>, row: (Seq<char>, E), l: Seq<char>)
    ensures
        lookup(upsert(acc, row), l) == if l == row.0 {
            Some(row.1)
        } else {
            lookup(acc, l)
        },
        labels_distinct(acc) ==> labels_distinct(upsert(acc, row)),
{
    lemma_find_label_range(acc, row.0);
    lemma_find_label_range(acc, l);
    let i = find_label(acc, row.0);
    if i >= 0 {
        let u = acc.update(i, row);
        assert forall|j: int| 0 <= j < acc.len() implies #[trigger] acc[j].0 == u[j].0 by {}
        lemma_find_label_same_labels(acc, u, l);
        if l != row.0 {
            let f = find_label(acc, l);
            if f >= 0 {
                assert(f != i);
                assert(u[f] == acc[f]);
            }
        }
        if labels_distinct(acc) {
            assert forall|a: int, b: int| 0 <= a < b < u.len() implies #[trigger] u[a].0 != #[trigger] u[b].0 by {
                assert(u[a].0 == acc[a].0 && u[b].0 == acc[b].0);
            }
        }
    } else {
        let u = acc.push(row);
        assert(u.drop_last() =~= acc);
        if labels_distinct(acc) {
            assert forall|a: int, b: int| 0 <= a < b < u.len() implies #[trigger] u[a].0 != #[trigger] u[b].0 by {
                if b == acc.len() {
                    assert(acc[a].0 != row.0);
                } else {
                    assert(u[a] == acc[a] && u[b] == acc[b]);
                }
            }
        }
        if l != row.0 {
            let f = find_label(acc, l);
            if f >= 0 {
                assert(u[f] == acc[f]);
            }
        }
    }
}

/// Parsing keeps one entry per label, and the entry kept for a label is the
/// one from its last row.
pub proof fn law_one_entry_per_label_last_row_wins<E>(rows: Seq<(Seq<char>, E)>, l: Seq<char>)
    ensures
        labels_distinct(upsert_all(rows)),
        lookup(upsert_all(rows), l) == lookup(rows, l),
    decreases rows.len(),
{
    if rows.len() > 0 {
        let d = rows.drop_last();
        law_one_entry_per_label_last_row_wins(d, l);
        lemma_upsert_lookup(upsert_all(d), rows.last(), l);
        lemma_find_label_range(rows, l);
        if l != rows.last().0 {
            assert(find_label(rows, l) == find_label(d, l));
            if find_label(d, l) >= 0 {
                assert(rows[find_label(d, l)] == d[find_label(d, l)]);
            }
        }
    }
}

/// The optional `dd-` day prefix of a `ps` elapsed time, and what follows
/// it; `None` when a prefix is there but is not a number.
pub open spec fn etime_days(s: Seq<char>) -> Option<(nat, Seq<char>)> {
    let k = first_of(s, '-');
    if k < s.len() {
        match parse_u64_spec(s.take(k as int)) {
            Some(d) => Some((d as nat, s.skip((k + 1) as int))),
            None => None,
        }
    } else {
        Some((0, s))
    }
}

/// The field `back` places from the end of `p`, parsed; zero when absent.
pub open spec fn field_from_end(p: Seq<Seq<char>>, back: int) -> Option<u64> {
    if p.len() > back {
        parse_u64_spec(p[p.len() - 1 - back])
    } else {
        Some(0)
    }
}

/// `ps` elapsed time, `[[dd-]hh:]mm:ss`, in seconds. Fields are read from
/// the right; a missing one counts as zero. `None` when a field is not a
/// number, or the total does not fit in a `u64` (no clock runs that long).
pub open spec fn etime_seconds(s: Seq<char>) -> Option<u64> {
    match etime_days(s) {
        None => None,
        Some((days, rest)) => {
            let p = split_on(rest, ':');
            match (field_from_end(p, 0), field_from_end(p, 1), field_from_end(p, 2)) {
                (Some(sec), Some(min), Some(hours)) => {
                    let t = days * 86400 + hours * 3600 + min * 60 + sec;
                    if t <= u64::MAX {
                        Some(t as u64)
                    } else {
                        None
                    }
                },
                _ => None,
            }
        },
    }
}

fn field_from_end_exec(p: &Vec<Vec<char>>, back: usize) -> (r: Option<u64>)
    ensures
        r == field_from_end(p.deep_view(), back as int),
{
    if p.len() > back {
        let w = &p[p.len() - 1 - back];
        assert(p.deep_view()[p.deep_view().len() - 1 - back] == w@);
        parse_u64_of(w)
    } else {
        Some(0)
    }
}

/// `ps` elapsed time as seconds.
pub fn parse_etime(s: &str) -> (r: Option<u64>)
    ensures
        r == etime_seconds(s@),
{
    let cs = chars_of(s);
    let n = cs.len();
    let k = find_char_from(cs.as_slice(), 0, '-');
    assert(cs@.skip(0) == cs@);
    let (days, from) = if k < n {
        assert(cs@.subrange(0, k as int) == cs@.take(k as int));
        match parse_u64_in(cs.as_slice(), 0, k) {
            Some(d) => (d, k + 1),
            None => return None,
        }
    } else {
        (0u64, 0usize)
    };
    let rest = copy_range(cs.as_slice(), from, n);
    assert(etime_days(s@) == Some((days as nat, rest@))) by {
        if k >= n {
            assert(cs@.subrange(0, n as int) == cs@);
        }
    }
    let p = split_chars(rest.as_slice(), ':');
    proof {
        lemma_split_on_nonempty(rest@, ':');
    }
    let sec = match field_from_end_exec(&p, 0) {
        Some(v) => v,
        None => return None,
    };
    let min = match field_from_end_exec(&p, 1) {
        Some(v) => v,
        None => return None,
    };
    let hours = match field_from_end_exec(&p, 2) {
        Some(v) => v,
        None => return None,
    };
    let ghost t = days * 86400 + hours * 3600 + min * 60 + sec;
    let d = match days.checked_mul(86400) {
        Some(v) => v,
        None => return None,
    };
    let h = match hours.checked_mul(3600) {
        Some(v) => v,
        None => return None,
    };
    let m = match min.checked_mul(60) {
        Some(v) => v,
        None => return None,
    };
    let a = match d.checked_add(h) {
        Some(v) => v,
        None => return None,
    };
    let b = match a.checked_add(m) {
        Some(v) => v,
        None => return None,
    };
    b.checked_add(sec)
}

/// One process from the `ps` table: who it is, who its parent is, what it
/// owns and how long it has run.
#[derive(Clone, Copy, Debug, PartialEq, Eq, Structural)]
pub struct ProcRow {
    pub pid: u32,
    pub ppid: u32,
    /// Physical footprint where the kernel reports it, else resident size.
    pub mem_bytes: u64,
    pub uptime_sec: u64,
}

/// Resource usage of one process tree. CPU is summed by the caller over
/// [`TreeUsage::members`].
#[derive(Debug)]
pub struct TreeUsage {
    pub mem_bytes: u64,
    pub proc_count: u32,
    /// Age of the tree's root, in seconds.
    pub uptime_sec: u64,
    /// The processes of the tree, root first, each once.
    pub members: Vec<u32>,
}

/// Whether some row says `b` is a child of `a`.
pub open spec fn is_child(rows: Seq<ProcRow>, a: u32, b: u32) -> bool {
    exists|r: int| 0 <= r < rows.len() && #[trigger] rows[r].ppid == a && rows[r].pid == b
}

/// A parent-to-child path through the table.
pub open spec fn is_chain(rows: Seq<ProcRow>, p: Seq<u32>) -> bool {
    p.len() > 0 && forall|i: int| 0 <= i < p.len() - 1 ==> #[trigger] is_child(rows, p[i], p[i + 1])
}

/// Whether `x` is `root` or a descendant of it.
pub open spec fn reachable(rows: Seq<ProcRow>, root: u32, x: u32) -> bool {
    exists|p: Seq<u32>| #[trigger] is_chain(rows, p) && p[0] == root && p.last() == x
}

/// Index of the last row for `pid`, or -1: a later row of the same process
/// overrides an earlier one.
pub open spec fn row_of(rows: Seq<ProcRow>, pid: u32) -> int
    decreases rows.len(),
{
    if rows.len() == 0 {
        -1
    } else if rows.last().pid == pid {
        rows.len() - 1
    } else {
        row_of(rows.drop_last(), pid)
    }
}

pub open spec fn mem_of(rows: Seq<ProcRow>, pid: u32) -> nat {
    let i = row_of(rows, pid);
    if i >= 0 {
        rows[i].mem_bytes as nat
    } else {
        0
    }
}

pub open spec fn uptime_of(rows: Seq<ProcRow>, pid: u32) -> u64 {
    let i = row_of(rows, pid);
    if i >= 0 {
        rows[i].uptime_sec
    } else {
        0
    }
}

/// Memory of the listed processes, summed.
pub open spec fn mem_total(rows: Seq<ProcRow>, ms: Seq<u32>) -> nat
    decreases ms.len(),
{
    if ms.len() == 0 {
        0
    } else {
        mem_total(rows, ms.drop_last()) + mem_of(rows, ms.last())
    }
}

/// Whether `ms` holds every child of each of its members.
pub open spec fn closed_under_children(rows: Seq<ProcRow>, ms: Seq<u32>) -> bool {
    forall|j: int, r: int|
        0 <= j < ms.len() && 0 <= r < rows.len() && #[trigger] rows[r].ppid == #[trigger] ms[j]
            ==> ms.contains(rows[r].pid)
}

pub open spec fn count_true(s: Seq<bool>) -> nat
    decreases s.len(),
{
    if s.len() == 0 {
        0
    } else {
        count_true(s.drop_last()) + if s.last() {
            1nat
        } else {
            0nat
        }
    }
}

proof fn lemma_count_true_bound(s: Seq<bool>)
    ensures
        count_true(s) <= s.len(),
    decreases s.len(),
{
    if s.len() > 0 {
        lemma_count_true_bound(s.drop_last());
    }
}

proof fn lemma_count_true_set(s: Seq<bool>, k: int)
    requires
        0 <= k < s.len(),
        !s[k],
    ensures
        count_true(s.update(k, true)) == count_true(s) + 1,
    decreases s.len(),
{
    let u = s.update(k, true);
    if k == s.len() - 1 {
        assert(u.drop_last() =~= s.drop_last());
    } else {
        assert(u.drop_last() =~= s.drop_last().update(k, true));
        lemma_count_true_set(s.drop_last(), k);
    }
}

proof fn lemma_extend_chain(rows: Seq<ProcRow>, root: u32, m: u32, r: int)
    requires
        reachable(rows, root, m),
        0 <= r < rows.len(),
        rows[r].ppid == m,
    ensures
        reachable(rows, root, rows[r].pid),
{
    let p = choose|p: Seq<u32>| #[trigger] is_chain(rows, p) && p[0] == root && p.last() == m;
    let q = p.push(rows[r].pid);
    assert(is_child(rows, m, rows[r].pid));
    assert forall|i: int| 0 <= i < q.len() - 1 implies #[trigger] is_child(rows, q[i], q[i + 1]) by {
        if i < p.len() - 1 {
            assert(q[i] == p[i] && q[i + 1] == p[i + 1]);
        }
    }
    assert(is_chain(rows, q));
}

fn vec_contains(v: &Vec<u32>, x: u32) -> (r: bool)
    ensures
        r == v@.contains(x),
{
    let n = v.len();
    for i in 0..n
        invariant
            n == v@.len(),
            forall|j: int| 0 <= j < i ==> v@[j] != x,
    {
        if v[i] == x {
            assert(v@[i as int] == x);
            return true;
        }
    }
    false
}

/// The last row for `pid`.
fn find_row(rows: &Vec<ProcRow>, pid: u32) -> (r: Option<usize>)
    ensures
        match r {
            Some(i) => i == row_of(rows@, pid) && i < rows@.len(),
            None => row_of(rows@, pid) < 0,
        },
{
    let mut i = rows.len();
    assert(rows@.take(i as int) =~= rows@);
    while i > 0
        invariant
            i <= rows@.len(),
            row_of(rows@, pid) == row_of(rows@.take(i as int), pid),
        decreases i,
    {
        let ghost t = rows@.take(i as int);
        assert(t.drop_last() =~= rows@.take(i - 1));
        if rows[i - 1].pid == pid {
            assert(t.last() == rows@[i - 1]);
            return Some(i - 1);
        }
        i -= 1;
    }
    None
}

/// Sum memory and count processes over `root`'s **entire** process tree.
///
/// launchd's PID for a service is often a wrapper shell holding a few
/// megabytes, with the real consumer levels below it; reading the root
/// alone would under-report by orders of magnitude. The walk keeps a
/// visited set, so a cycle in a `ps` snapshot (a non-atomic view of a
/// changing table) cannot hang it. Sums saturate.
pub fn tree_usage(rows: &Vec<ProcRow>, root: u32) -> (u: TreeUsage)
    ensures
        u.members@.len() >= 1,
        u.members@[0] == root,
        u.members@.no_duplicates(),
        closed_under_children(rows@, u.members@),
        forall|j: int| 0 <= j < u.members@.len() ==> reachable(rows@, root, #[trigger] u.members@[j]),
        u.mem_bytes == if mem_total(rows@, u.members@) > u64::MAX {
            u64::MAX as nat
        } else {
            mem_total(rows@, u.members@)
        },
        u.proc_count == if u.members@.len() > u32::MAX {
            u32::MAX as nat
        } else {
            u.members@.len()
        },
        u.uptime_sec == uptime_of(rows@, root),
{
    let n = rows.len();
    let mut members: Vec<u32> = Vec::new();
    members.push(root);
    let mut taken: Vec<bool> = Vec::new();
    for r in 0..n
        invariant
            n == rows@.len(),
            taken@.len() == r,
            forall|k: int| 0 <= k < r ==> !taken@[k],
    {
        taken.push(false);
    }
    proof {
        assert(count_true(taken@) == 0) by {
            lemma_count_true_zero(taken@);
        }
        let p = seq![root];
        assert(is_chain(rows@, p));
        assert(reachable(rows@, root, root));
    }
    let mut i: usize = 0;
    while i < members.len()
        invariant
            n == rows@.len(),
            taken@.len() == n,
            members@.len() >= 1,
            members@[0] == root,
            members@.len() == 1 + count_true(taken@),
            i <= members@.len(),
            members@.no_duplicates(),
            forall|k: int| 0 <= k < n && taken@[k] ==> members@.contains(#[trigger] rows@[k].pid),
            forall|j: int, r: int|
                0 <= j < i && 0 <= r < n && #[trigger] rows@[r].ppid == #[trigger] members@[j]
                    ==> members@.contains(rows@[r].pid),
            forall|j: int| 0 <= j < members@.len() ==> reachable(rows@, root, #[trigger] members@[j]),
        decreases n + 1 - i,
    {
        proof {
            lemma_count_true_bound(taken@);
        }
        let m = members[i];
        let ghost start = members@;
        for r in 0..n
            invariant
                n == rows@.len(),
                taken@.len() == n,
                members@.len() >= 1,
                members@[0] == root,
                members@.len() == 1 + count_true(taken@),
                i < members@.len(),
                m == members@[i as int],
                members@.no_duplicates(),
                members@.take(start.len() as int) == start,
                start.len() >= 1,
                start.len() <= members@.len(),
                forall|k: int| 0 <= k < n && taken@[k] ==> members@.contains(#[trigger] rows@[k].pid),
                forall|j: int, q: int|
                    0 <= j < i && 0 <= q < n && #[trigger] rows@[q].ppid == #[trigger] members@[j]
                        ==> members@.contains(rows@[q].pid),
                forall|q: int| 0 <= q < r && #[trigger] rows@[q].ppid == m ==> members@.contains(rows@[q].pid),
                forall|j: int| 0 <= j < members@.len() ==> reachable(rows@, root, #[trigger] members@[j]),
        {
            let row = rows[r];
            if row.ppid == m && !vec_contains(&members, row.pid) {
                let ghost before = members@;
                proof {
                    if taken@[r as int] {
                        assert(members@.contains(rows@[r as int].pid));
                    }
                    lemma_count_true_set(taken@, r as int);
                    lemma_extend_chain(rows@, root, m, r as int);
                }
                members.push(row.pid);
                taken.set(r, true);
                proof {
                    assert forall|y: u32| before.contains(y) implies members@.contains(y) by {
                        let w = choose|w: int| 0 <= w < before.len() && before[w] == y;
                        assert(members@[w] == y);
                    }
                    assert(members@[before.len() as int] == row.pid);
                    assert forall|a: int, b: int| 0 <= a < b < members@.len() implies members@[a] != members@[b] by {
                        if b == before.len() {
                            assert(before[a] == members@[a]);
                            assert(before.contains(members@[a]));
                        } else {
                            assert(before[a] == members@[a] && before[b] == members@[b]);
                        }
                    }
                    assert forall|k: int| 0 <= k < n && taken@[k] implies members@.contains(#[trigger] rows@[k].pid) by {
                        if k != r {
                            assert(before.contains(rows@[k].pid));
                        }
                    }
                    assert forall|j: int| 0 <= j < members@.len() implies reachable(rows@, root, #[trigger] members@[j]) by {
                        if j < before.len() {
                            assert(members@[j] == before[j]);
                        }
                    }
                    assert(members@.take(start.len() as int) =~= before.take(start.len() as int));
                    assert forall|j: int| 0 <= j <= i implies members@[j] == before[j] by {}
                }
            }
        }
        proof {
            assert forall|j: int, q: int|
                0 <= j < i + 1 && 0 <= q < n && #[trigger] rows@[q].ppid == #[trigger] members@[j]
                    implies members@.contains(rows@[q].pid) by {
                if j == i {
                    assert(rows@[q].ppid == m);
                }
            }
        }
        i += 1;
    }
    let mut total: u64 = 0;
    let k_end = members.len();
    for k in 0..k_end
        invariant
            k_end == members@.len(),
            total == if mem_total(rows@, members@.take(k as int)) > u64::MAX {
                u64::MAX as nat
            } else {
                mem_total(rows@, members@.take(k as int))
            },
    {
        assert(members@.take(k + 1).drop_last() =~= members@.take(k as int));
        let mem = match find_row(rows, members[k]) {
            Some(idx) => rows[idx].mem_bytes,
            None => 0,
        };
        total = total.saturating_add(mem);
    }
    assert(members@.take(k_end as int) =~= members@);
    let count: u32 = if members.len() > 4294967295 {
        4294967295
    } else {
        members.len() as u32
    };
    let uptime = match find_row(rows, root) {
        Some(idx) => rows[idx].uptime_sec,
        None => 0,
    };
    TreeUsage { mem_bytes: total, proc_count: count, uptime_sec: uptime, members }
}

proof fn lemma_count_true_zero(s: Seq<bool>)
    requires
        forall|k: int| 0 <= k < s.len() ==> !s[k],
    ensures
        count_true(s) == 0,
    decreases s.len(),
{
    if s.len() > 0 {
        lemma_count_true_zero(s.drop_last());
    }
}

/// A set of processes that holds the root and every child of its members
/// holds every descendant of the root: the walk misses no grandchild.
pub proof fn law_tree_reaches_every_descendant(rows: Seq<ProcRow>, root: u32, ms: Seq<u32>, p: Seq<u32>)
    requires
        ms.contains(root),
        closed_under_children(rows, ms),
        is_chain(rows, p),
        p[0] == root,
    ensures
        ms.contains(p.last()),
    decreases p.len(),
{
    if p.len() > 1 {
        let q = p.drop_last();
        assert forall|i: int| 0 <= i < q.len() - 1 implies #[trigger] is_child(rows, q[i], q[i + 1]) by {
            assert(is_child(rows, p[i], p[i + 1]));
        }
        law_tree_reaches_every_descendant(rows, root, ms, q);
        let i = p.len() - 2;
        assert(is_child(rows, p[i], p[i + 1]));
        let r = choose|r: int| 0 <= r < rows.len() && #[trigger] rows[r].ppid == p[p.len() - 2] && rows[r].pid == p[p.len() - 1];
        let j = choose|j: int| 0 <= j < ms.len() && ms[j] == q.last();
        assert(rows[r].ppid == ms[j]);
    }
}

/// One line of `ps -Ao pid=,ppid=,rss=,%cpu=,etime=`, as read.
#[derive(Debug)]
pub struct PsRow {
    pub pid: u32,
    pub ppid: u32,
    /// Resident size in bytes (`ps` prints kilobytes); zero when unreadable.
    pub rss_bytes: u64,
    /// The `%cpu` column as printed, for the caller to read as a number.
    pub cpu_field: String,
    /// Elapsed time in seconds; zero when unreadable.
    pub uptime_sec: u64,
}

pub open spec fn sat_mul_u64(a: u64, b: u64) -> u64 {
    if a * b > u64::MAX {
        u64::MAX
    } else {
        (a * b) as u64
    }
}

/// What a `ps` line says: `None` for a line with fewer than five fields or
/// without a numeric pid and ppid.
pub open spec fn ps_line(line: Seq<char>) -> Option<(u32, u32, u64, Seq<char>, u64)> {
    let f = words(line);
    if f.len() < 5 {
        None
    } else {
        match (parse_u32_spec(f[0]), parse_u32_spec(f[1])) {
            (Some(pid), Some(ppid)) => {
                let kb = match parse_u64_spec(f[2]) {
                    Some(v) => v,
                    None => 0,
                };
                let up = match etime_seconds(f[4]) {
                    Some(v) => v,
                    None => 0,
                };
                Some((pid, ppid, sat_mul_u64(kb, 1024), f[3], up))
            },
            _ => None,
        }
    }
}

/// The rows the lines describe, in order.
pub open spec fn ps_lines(ls: Seq<Seq<char>>) -> Seq<(u32, u32, u64, Seq<char>, u64)>
    decreases ls.len(),
{
    if ls.len() == 0 {
        Seq::empty()
    } else {
        match ps_line(ls.last()) {
            Some(r) => ps_lines(ls.drop_last()).push(r),
            None => ps_lines(ls.drop_last()),
        }
    }
}

pub open spec fn ps_row_view(r: PsRow) -> (u32, u32, u64, Seq<char>, u64) {
    (r.pid, r.ppid, r.rss_bytes, r.cpu_field@, r.uptime_sec)
}

/// Parse the output of `ps -Ao pid=,ppid=,rss=,%cpu=,etime=`. Every field is
/// free of spaces, so splitting on whitespace is safe.
pub fn parse_ps_rows(text: &str) -> (r: Vec<PsRow>)
    ensures
        r@.map_values(|x: PsRow| ps_row_view(x)) == ps_lines(lines(text@)),
{
    let cs = chars_of(text);
    let ls = split_lines(cs.as_slice());
    let mut out: Vec<PsRow> = Vec::new();
    let n = ls.len();
    for i in 0..n
        invariant
            n == ls@.len(),
            ls.deep_view() == lines(text@),
            out@.map_values(|x: PsRow| ps_row_view(x)) == ps_lines(ls.deep_view().take(i as int)),
    {
        let ghost pre = ls.deep_view().take(i as int);
        assert(ls.deep_view().take(i + 1).drop_last() == pre);
        assert(ls.deep_view().take(i + 1).last() == ls@[i as int]@);
        let f = words_of(ls[i].as_slice());
        if f.len() >= 5 {
            assert(f.deep_view()[0] == f@[0]@);
            assert(f.deep_view()[1] == f@[1]@);
            assert(f.deep_view()[2] == f@[2]@);
            assert(f.deep_view()[3] == f@[3]@);
            assert(f.deep_view()[4] == f@[4]@);
            let pid = parse_u32_of(&f[0]);
            let ppid = parse_u32_of(&f[1]);
            if pid.is_some() && ppid.is_some() {
                let kb = match parse_u64_of(&f[2]) {
                    Some(v) => v,
                    None => 0,
                };
                let up = match parse_etime_chars(&f[4]) {
                    Some(v) => v,
                    None => 0,
                };
                let row = PsRow {
                    pid: pid.unwrap(),
                    ppid: ppid.unwrap(),
                    rss_bytes: match kb.checked_mul(1024) {
                        Some(v) => v,
                        None => u64::MAX,
                    },
                    cpu_field: string_of(f[3].as_slice()),
                    uptime_sec: up,
                };
                let ghost before = out@;
                out.push(row);
                assert(out@.map_values(|x: PsRow| ps_row_view(x)) =~= before.map_values(
                    |x: PsRow| ps_row_view(x),
                ).push(ps_row_view(row)));
            }
        }
    }
    assert(ls.deep_view().take(n as int) =~= ls.deep_view());
    out
}

/// [`parse_etime`] on characters already split out of a line.
fn parse_etime_chars(w: &Vec<char>) -> (r: Option<u64>)
    ensures
        r == etime_seconds(w@),
{
    let s = string_of(w.as_slice());
    parse_etime(s.as_str())
}

/// Which port to probe for liveness, if any: a service that declares one
/// and is either running under launchd or not registered at all (a port
/// that serves anyway reveals a process outside the supervisor).
pub open spec fn port_to_probe_spec(entry: Option<LaunchdEntry>, port: Option<u16>) -> Option<u16> {
    match port {
        None => None,
        Some(p) => match entry {
            None => Some(p),
            Some(e) => if e.pid is Some {
                Some(p)
            } else {
                None
            },
        },
    }
}

pub fn port_to_probe(entry: Option<LaunchdEntry>, port: Option<u16>) -> (r: Option<u16>)
    ensures
        r == port_to_probe_spec(entry, port),
{
    match port {
        None => None,
        Some(p) => match entry {
            None => Some(p),
            Some(e) => if e.pid.is_some() {
                Some(p)
            } else {
                None
            },
        },
    }
}

/// A service's state from what launchd says (`entry`), whether it declares
/// a port, whether that port accepted a connection, and the age of its
/// process tree.
pub open spec fn service_state_spec(
    entry: Option<LaunchdEntry>,
    port: Option<u16>,
    open: bool,
    uptime_sec: u64,
) -> ServiceState {
    match entry {
        None => if open {
            ServiceState::Rogue
        } else {
            ServiceState::Unregistered
        },
        Some(e) => match e.pid {
            None => ServiceState::Down,
            Some(_) => if port is None || open {
                ServiceState::Running
            } else if uptime_sec < STARTUP_GRACE_SEC {
                ServiceState::Starting
            } else {
                ServiceState::Unhealthy
            },
        },
    }
}

pub fn service_state(entry: Option<LaunchdEntry>, port: Option<u16>, open: bool, uptime_sec: u64) -> (st: ServiceState)
    ensures
        st == service_state_spec(entry, port, open, uptime_sec),
{
    match entry {
        None => if open {
            ServiceState::Rogue
        } else {
            ServiceState::Unregistered
        },
        Some(e) => match e.pid {
            None => ServiceState::Down,
            Some(_) => if port.is_none() || open {
                ServiceState::Running
            } else if uptime_sec < STARTUP_GRACE_SEC {
                ServiceState::Starting
            } else {
                ServiceState::Unhealthy
            },
        },
    }
}

/// Which process a restart signals: the root of the running tree. A
/// service that is not running cannot be restarted this way.
pub fn restart_target(name: &str, pid: Option<u32>) -> (r: Result<u32, String>)
    ensures
        match pid {
            Some(p) => r == Ok::<u32, String>(p),
            None => r is Err && r->Err_0@ == name@ + " is not running"@,
        },
{
    match pid {
        Some(p) => Ok(p),
        None => {
            let mut msg = String::new();
            crate::text::push_str(&mut msg, name);
            crate::text::push_str(&mut msg, " is not running");
            Err(msg)
        },
    }
}

/// What the two-phase stop does next after SIGTERM was sent.
#[derive(Clone, Copy, Debug, PartialEq, Eq, Structural)]
pub enum EscalationStep {
    /// The process is gone: no escalation was needed.
    Finished,
    /// Still alive past the grace period: send SIGKILL.
    Kill,
    /// Still alive, still within the grace period: wait and look again.
    Wait,
}

/// Decide the next step of the two-phase stop at `now_ms`, given whether
/// the process is still alive and when the grace period ends.
pub fn escalation_step(alive: bool, now_ms: u64, deadline_ms: u64) -> (st: EscalationStep)
    ensures
        !alive ==> st == EscalationStep::Finished,
        alive && now_ms >= deadline_ms ==> st == EscalationStep::Kill,
        alive && now_ms < deadline_ms ==> st == EscalationStep::Wait,
{
    if !alive {
        EscalationStep::Finished
    } else if now_ms >= deadline_ms {
        EscalationStep::Kill
    } else {
        EscalationStep::Wait
    }
}

} // verus!
