//! Reading the system `ps` for the process list.
//!
//! `/bin/ps` is setuid-root, so it reports every process's figures without
//! the server holding any privilege. This module parses its two outputs:
//! `pid=,user=,time=,rss=,comm=` for the figures and `pid=,args=` for
//! command lines. CPU time arrives as text here; turning it into seconds and
//! then into a utilisation is floating-point work done by the caller.
use vstd::prelude::*;
use crate::text::{
    is_ws, is_whitespace, leading_ws, trim, trim_start, parse_u32_spec, parse_u64_spec, lines,
    chars_of, split_lines, trim_bounds, string_of_range, parse_u32_in, parse_u64_in,
    leading_ws_in, find_ws_from, first_ws, lemma_first_ws_bound, string_of, copy_range,
};

verus! {

/// Cap on a stored command line, in bytes. Chrome and Electron helpers
/// carry kilobytes of argv and the list ships in every frame; 512 keeps the
/// distinguishing flags that often come late in the line.
pub const ARGS_MAX: usize = 512;

/// One parsed row of `ps -Axo pid=,user=,time=,rss=,comm=`.
#[derive(Debug)]
pub struct PsRow {
    pub pid: u32,
    pub user: String,
    /// Cumulative CPU time as printed, `[DD-][HH:]MM:SS.ss`.
    pub cpu_time_field: String,
    /// Resident size as `ps` reports it, in kilobytes.
    pub rss_kb: u64,
    /// What the process owns, in bytes. Parsing fills in the resident size
    /// as a fallback; the sampler overwrites it with the footprint.
    pub mem_bytes: u64,
    /// Basename of the executable path.
    pub name: String,
    /// Full command line, truncated; empty until the sampler fills it.
    pub args: String,
}

/// The token that starts after the whitespace at `s`, as `(start, end)`
/// positions; `None` when only whitespace remains.
pub open spec fn token_at(s: Seq<char>, pos: int) -> Option<(int, int)> {
    let t = s.skip(pos);
    let start = pos + leading_ws(t);
    let end = start + first_ws(s.skip(start));
    if end == start {
        None
    } else {
        Some((start, end))
    }
}

/// Pop the first whitespace-delimited token of `cs[pos..]`: its bounds, the
/// end of which is where the rest begins.
pub fn next_token(cs: &[char], pos: usize) -> (r: Option<(usize, usize)>)
    requires
        pos <= cs@.len(),
    ensures
        match r {
            Some((a, b)) => token_at(cs@, pos as int) == Some((a as int, b as int)) && pos <= a
                < b <= cs@.len(),
            None => token_at(cs@, pos as int) is None,
        },
{
    let n = cs.len();
    let lead = leading_ws_in(cs, pos, n);
    assert(cs@.subrange(pos as int, n as int) == cs@.skip(pos as int));
    let start = pos + lead;
    let end = find_ws_from(cs, start);
    if end == start {
        None
    } else {
        Some((start, end))
    }
}

/// Index just past the last `/` of `s`, or 0: where the basename starts.
pub open spec fn basename_start(s: Seq<char>) -> nat
    decreases s.len(),
{
    if s.len() == 0 {
        0
    } else if s.last() == '/' {
        s.len()
    } else {
        basename_start(s.drop_last())
    }
}

/// What a `ps` figures line says, as (pid, user, cpu time, rss kB, comm
/// basename); `None` for a blank or malformed line.
pub open spec fn ps_line_spec(s: Seq<char>) -> Option<(u32, Seq<char>, Seq<char>, u64, Seq<char>)> {
    match token_at(s, 0) {
        None => None,
        Some((a0, b0)) => match parse_u32_spec(s.subrange(a0, b0)) {
            None => None,
            Some(pid) => match token_at(s, b0) {
                None => None,
                Some((a1, b1)) => match token_at(s, b1) {
                    None => None,
                    Some((a2, b2)) => match token_at(s, b2) {
                        None => None,
                        Some((a3, b3)) => match parse_u64_spec(s.subrange(a3, b3)) {
                            None => None,
                            Some(rss) => {
                                let comm = trim(s.skip(b3));
                                if comm.len() == 0 {
                                    None
                                } else {
                                    Some(
                                        (
                                            pid,
                                            s.subrange(a1, b1),
                                            s.subrange(a2, b2),
                                            rss,
                                            comm.skip(basename_start(comm) as int),
                                        ),
                                    )
                                }
                            },
                        },
                    },
                },
            },
        },
    }
}

pub open spec fn kb_to_bytes(kb: u64) -> u64 {
    if kb * 1024 > u64::MAX {
        u64::MAX
    } else {
        (kb * 1024) as u64
    }
}

/// Parse one line of `ps -Axo pid=,user=,time=,rss=,comm=`. The executable
/// path comes last because it may contain spaces; its basename is the name
/// users expect to see.
pub fn parse_ps_line(line: &str) -> (r: Option<PsRow>)
    ensures
        match ps_line_spec(line@) {
            None => r is None,
            Some((pid, user, cpu, rss, name)) => r is Some && {
                let row = r->0;
                &&& row.pid == pid
                &&& row.user@ == user
                &&& row.cpu_time_field@ == cpu
                &&& row.rss_kb == rss
                &&& row.mem_bytes == kb_to_bytes(rss)
                &&& row.name@ == name
                &&& row.args@ == Seq::<char>::empty()
            },
        },
{
    let cs = chars_of(line);
    let n = cs.len();
    let (a0, b0) = match next_token(cs.as_slice(), 0) {
        Some(t) => t,
        None => return None,
    };
    let pid = match parse_u32_in(cs.as_slice(), a0, b0) {
        Some(p) => p,
        None => return None,
    };
    let (a1, b1) = match next_token(cs.as_slice(), b0) {
        Some(t) => t,
        None => return None,
    };
    let (a2, b2) = match next_token(cs.as_slice(), b1) {
        Some(t) => t,
        None => return None,
    };
    let (a3, b3) = match next_token(cs.as_slice(), b2) {
        Some(t) => t,
        None => return None,
    };
    let rss = match parse_u64_in(cs.as_slice(), a3, b3) {
        Some(v) => v,
        None => return None,
    };
    let (c0, c1) = trim_bounds(cs.as_slice(), b3, n);
    assert(cs@.subrange(b3 as int, n as int) == cs@.skip(b3 as int));
    if c0 == c1 {
        return None;
    }
    let ghost comm = cs@.subrange(c0 as int, c1 as int);
    let mut k = c1;
    while k > c0 && cs[k - 1] != '/'
        invariant
            c0 <= k <= c1 <= n == cs@.len(),
            comm == cs@.subrange(c0 as int, c1 as int),
            basename_start(comm) == basename_start(cs@.subrange(c0 as int, k as int)),
        decreases k,
    {
        assert(cs@.subrange(c0 as int, k as int).drop_last() =~= cs@.subrange(c0 as int, k - 1));
        k -= 1;
    }
    proof {
        let pre = cs@.subrange(c0 as int, k as int);
        if k > c0 {
            assert(pre.last() == '/');
        }
        assert(basename_start(pre) == k - c0);
        assert(comm.skip(k - c0) =~= cs@.subrange(k as int, c1 as int));
    }
    let mem = match rss.checked_mul(1024) {
        Some(v) => v,
        None => u64::MAX,
    };
    Some(PsRow {
        pid,
        user: string_of_range(cs.as_slice(), a1, b1),
        cpu_time_field: string_of_range(cs.as_slice(), a2, b2),
        rss_kb: rss,
        mem_bytes: mem,
        name: string_of_range(cs.as_slice(), k, c1),
        args: String::new(),
    })
}

/// UTF-8 length of a character (`char::len_utf8`).
pub open spec fn utf8_width(c: char) -> nat {
    if (c as u32) < 0x80 {
        1
    } else if (c as u32) < 0x800 {
        2
    } else if (c as u32) < 0x10000 {
        3
    } else {
        4
    }
}

/// UTF-8 length of a string (`str::len`).
pub open spec fn byte_len(s: Seq<char>) -> nat
    decreases s.len(),
{
    if s.len() == 0 {
        0
    } else {
        byte_len(s.drop_last()) + utf8_width(s.last())
    }
}

/// The last character index from `k` on whose byte offset is within
/// [`ARGS_MAX`], stopping before the final character.
pub open spec fn hard_index(s: Seq<char>, k: nat) -> nat
    decreases s.len() - k,
{
    if k + 1 < s.len() && byte_len(s.take((k + 1) as int)) <= ARGS_MAX {
        hard_index(s, k + 1)
    } else {
        k
    }
}

/// Index of the last whitespace character, or -1.
pub open spec fn last_ws_index(t: Seq<char>) -> int
    decreases t.len(),
{
    if t.len() == 0 {
        -1
    } else if is_ws(t.last()) {
        t.len() - 1
    } else {
        last_ws_index(t.drop_last())
    }
}

/// A command line cut to at most [`ARGS_MAX`] bytes on a whitespace
/// boundary, so the last token shown is always a whole one: `--port 4000`
/// must never become `--port 400`.
pub open spec fn truncated_args(s: Seq<char>) -> Seq<char> {
    if byte_len(s) <= ARGS_MAX {
        s
    } else {
        let t = s.take(hard_index(s, 0) as int);
        let j = last_ws_index(t);
        if j >= 0 {
            t.take(j)
        } else {
            t
        }
    }
}

fn utf8_width_exec(c: char) -> (w: usize)
    ensures
        w == utf8_width(c),
{
    let u = c as u32;
    if u < 0x80 {
        1
    } else if u < 0x800 {
        2
    } else if u < 0x10000 {
        3
    } else {
        4
    }
}

proof fn lemma_byte_len_prefix(s: Seq<char>, i: int)
    requires
        0 <= i <= s.len(),
    ensures
        byte_len(s.take(i)) <= byte_len(s),
    decreases s.len() - i,
{
    if i < s.len() {
        lemma_byte_len_prefix(s, i + 1);
        assert(s.take(i + 1).drop_last() =~= s.take(i));
    } else {
        assert(s.take(i) =~= s);
    }
}

/// Cut `args` to [`ARGS_MAX`] bytes on a whitespace boundary.
pub fn truncate_args(args: &str) -> (r: String)
    ensures
        r@ == truncated_args(args@),
{
    let cs = chars_of(args);
    let n = cs.len();
    let mut i: usize = 0;
    let mut off: usize = 0;
    let mut k: usize = 0;
    while i < n && off <= ARGS_MAX
        invariant
            n == cs@.len(),
            i <= n,
            off == byte_len(cs@.take(i as int)),
            off <= ARGS_MAX + 4,
            i >= 1 ==> k == i - 1 && byte_len(cs@.take(k as int)) <= ARGS_MAX
                && hard_index(cs@, 0) == hard_index(cs@, k as nat),
            i == 0 ==> k == 0,
        decreases n - i,
    {
        proof {
            if i >= 1 {
                assert(hard_index(cs@, (i - 1) as nat) == hard_index(cs@, i as nat));
            }
            assert(cs@.take(i + 1).drop_last() =~= cs@.take(i as int));
        }
        k = i;
        off = off + utf8_width_exec(cs[i]);
        i += 1;
    }
    if i == n && off <= ARGS_MAX {
        assert(cs@.take(n as int) =~= cs@);
        return string_of(cs.as_slice());
    }
    proof {
        lemma_byte_len_prefix(cs@, i as int);
        assert(i >= 1);
        assert(hard_index(cs@, k as nat) == k);
    }
    let mut j = k;
    while j > 0 && !is_whitespace(cs[j - 1])
        invariant
            j <= k < n == cs@.len(),
            last_ws_index(cs@.take(k as int)) == last_ws_index(cs@.take(j as int)),
        decreases j,
    {
        assert(cs@.take(j as int).drop_last() =~= cs@.take(j - 1));
        j -= 1;
    }
    proof {
        let t = cs@.take(k as int);
        if j > 0 {
            assert(cs@.take(j as int).last() == cs@[j - 1]);
            assert(last_ws_index(t) == j - 1);
            assert(t.take(j - 1) =~= cs@.subrange(0, j - 1));
        } else {
            assert(last_ws_index(t) == -1);
            assert(t =~= cs@.subrange(0, k as int));
        }
    }
    if j > 0 {
        string_of_range(cs.as_slice(), 0, j - 1)
    } else {
        string_of_range(cs.as_slice(), 0, k)
    }
}

/// What a line of `ps -Axo pid=,args=` says: the pid and the command line,
/// cut by [`truncated_args`]; `None` without a pid or a command line.
pub open spec fn args_line_spec(s: Seq<char>) -> Option<(u32, Seq<char>)> {
    match token_at(s, 0) {
        None => None,
        Some((a, b)) => match parse_u32_spec(s.subrange(a, b)) {
            None => None,
            Some(pid) => {
                let rest = trim(s.skip(b));
                if rest.len() == 0 {
                    None
                } else {
                    Some((pid, truncated_args(rest)))
                }
            },
        },
    }
}

pub open spec fn args_lines(ls: Seq<Seq<char>>) -> Seq<(u32, Seq<char>)>
    decreases ls.len(),
{
    if ls.len() == 0 {
        Seq::empty()
    } else {
        match args_line_spec(ls.last()) {
            Some(r) => args_lines(ls.drop_last()).push(r),
            None => args_lines(ls.drop_last()),
        }
    }
}

fn parse_args_line(cs: &Vec<char>) -> (r: Option<(u32, String)>)
    ensures
        match args_line_spec(cs@) {
            None => r is None,
            Some((pid, a)) => r is Some && (r->0).0 == pid && (r->0).1@ == a,
        },
{
    let n = cs.len();
    let (a, b) = match next_token(cs.as_slice(), 0) {
        Some(t) => t,
        None => return None,
    };
    let pid = match parse_u32_in(cs.as_slice(), a, b) {
        Some(p) => p,
        None => return None,
    };
    let (c0, c1) = trim_bounds(cs.as_slice(), b, n);
    assert(cs@.subrange(b as int, n as int) == cs@.skip(b as int));
    if c0 == c1 {
        return None;
    }
    let rest = string_of_range(cs.as_slice(), c0, c1);
    Some((pid, truncate_args(rest.as_str())))
}

/// Parse `ps -Axo pid=,args=` into `(pid, command line)` pairs, in order.
pub fn parse_args_output(text: &str) -> (r: Vec<(u32, String)>)
    ensures
        r@.map_values(|x: (u32, String)| (x.0, x.1@)) == args_lines(lines(text@)),
{
    let cs = chars_of(text);
    let ls = split_lines(cs.as_slice());
    let mut out: Vec<(u32, String)> = Vec::new();
    let n = ls.len();
    for i in 0..n
        invariant
            n == ls@.len(),
            ls.deep_view() == lines(text@),
            out@.map_values(|x: (u32, String)| (x.0, x.1@)) == args_lines(ls.deep_view().take(i as int)),
    {
        assert(ls.deep_view().take(i + 1).drop_last() == ls.deep_view().take(i as int));
        assert(ls.deep_view().take(i + 1).last() == ls@[i as int]@);
        match parse_args_line(&ls[i]) {
            Some(entry) => {
                let ghost before = out@;
                let ghost ev = (entry.0, entry.1@);
                out.push(entry);
                assert(out@.map_values(|x: (u32, String)| (x.0, x.1@)) =~= before.map_values(
                    |x: (u32, String)| (x.0, x.1@),
                ).push(ev));
            },
            None => {},
        }
    }
    assert(ls.deep_view().take(n as int) =~= ls.deep_view());
    out
}

/// Each pid once, at its first appearance: the rankings by CPU, GPU and
/// memory are concatenated and merged this way.
pub open spec fn first_occurrences(s: Seq<u32>) -> Seq<u32>
    decreases s.len(),
{
    if s.len() == 0 {
        Seq::empty()
    } else {
        let prev = first_occurrences(s.drop_last());
        if prev.contains(s.last()) {
            prev
        } else {
            prev.push(s.last())
        }
    }
}

pub fn merge_rankings(ranked: &Vec<u32>) -> (r: Vec<u32>)
    ensures
        r@ == first_occurrences(ranked@),
{
    let mut out: Vec<u32> = Vec::new();
    let n = ranked.len();
    for i in 0..n
        invariant
            n == ranked@.len(),
            out@ == first_occurrences(ranked@.take(i as int)),
    {
        assert(ranked@.take(i + 1).drop_last() =~= ranked@.take(i as int));
        assert(ranked@.take(i + 1).last() == ranked@[i as int]);
        let x = ranked[i];
        let mut found = false;
        let m = out.len();
        for j in 0..m
            invariant
                m == out@.len(),
                found == exists|q: int| 0 <= q < j && out@[q] == x,
        {
            if out[j] == x {
                found = true;
            }
        }
        if !found {
            out.push(x);
        }
    }
    assert(ranked@.take(n as int) =~= ranked@);
    out
}

/// The merged list names every ranked pid, exactly once.
pub proof fn law_merge_keeps_each_pid_once(s: Seq<u32>)
    ensures
        first_occurrences(s).no_duplicates(),
        forall|p: u32| s.contains(p) <==> #[trigger] first_occurrences(s).contains(p),
    decreases s.len(),
{
    if s.len() > 0 {
        let d = s.drop_last();
        let x = s.last();
        law_merge_keeps_each_pid_once(d);
        let prev = first_occurrences(d);
        let cur = first_occurrences(s);
        assert forall|p: u32| s.contains(p) implies #[trigger] cur.contains(p) by {
            let i = choose|i: int| 0 <= i < s.len() && s[i] == p;
            if i < s.len() - 1 {
                assert(d[i] == p);
                assert(d.contains(p));
                assert(prev.contains(p));
                if !prev.contains(x) {
                    let w = choose|w: int| 0 <= w < prev.len() && prev[w] == p;
                    assert(cur[w] == p);
                }
            } else if !prev.contains(x) {
                assert(cur[prev.len() as int] == p);
            }
        }
        assert forall|p: u32| cur.contains(p) implies #[trigger] s.contains(p) by {
            if prev.contains(p) {
                assert(d.contains(p));
                let i = choose|i: int| 0 <= i < d.len() && d[i] == p;
                assert(s[i] == p);
            } else {
                let w = choose|w: int| 0 <= w < cur.len() && cur[w] == p;
                if !prev.contains(x) {
                    if w < prev.len() {
                        assert(prev[w] == p);
                    }
                    assert(p == x);
                }
                assert(s[s.len() - 1] == x);
            }
        }
    }
}

} // verus!
