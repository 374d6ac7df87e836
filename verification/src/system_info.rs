//! Static facts about the machine, gathered once at start-up.
//!
//! Asking `sysctl`, `system_profiler` and the system library is the
//! caller's job; this module turns the answers into [`SystemInfo`].
use vstd::prelude::*;
use crate::json::{Json, get, get_spec, text_spec, text_of};
use crate::text::{
    lines, to_lower, contains_seq, is_digit, trim, parse_u32_spec, chars_of, split_lines,
    lowercase, contains_str, trim_bounds, parse_u32_in, push_str,
};

verus! {

/// The link speed assumed when no wired link is found: 1 Gbps, in bytes/s.
pub const DEFAULT_LINK_BYTES_SEC: u64 = 125000000;

#[derive(Debug)]
pub struct SystemInfo {
    pub model: String,
    pub chip: String,
    pub p_core_count: u32,
    pub e_core_count: u32,
    pub gpu_core_count: u32,
    pub mem_total: u64,
    pub disk_total: u64,
    pub os_version: String,
    /// Fastest active wired link, in bytes/s.
    pub net_link_speed_bytes_sec: u64,
    /// `"P"` or `"E"` per logical core, in the order the CPU list uses.
    pub core_kinds: Vec<String>,
}

/// The kind of each logical core: efficiency cores first, then
/// performance cores, as the CPU list orders them; every core `P` when the
/// observed count disagrees with the per-level counts.
pub open spec fn core_kinds_spec(e_logical: nat, p_logical: nat, observed: nat) -> Seq<Seq<char>> {
    if observed == e_logical + p_logical {
        Seq::new(e_logical, |i: int| "E"@) + Seq::new(p_logical, |i: int| "P"@)
    } else {
        Seq::new(observed, |i: int| "P"@)
    }
}

fn letter(c: &str) -> (r: String)
    ensures
        r@ == c@,
{
    let mut r = String::new();
    push_str(&mut r, c);
    r
}

pub fn core_kinds(e_logical: u32, p_logical: u32, observed: u32) -> (r: Vec<String>)
    requires
        e_logical + p_logical <= u32::MAX,
    ensures
        r.deep_view() == core_kinds_spec(e_logical as nat, p_logical as nat, observed as nat),
{
    let mut r: Vec<String> = Vec::new();
    if observed == e_logical + p_logical {
        let mut i: u32 = 0;
        while i < e_logical
            invariant
                i <= e_logical,
                r.deep_view() == Seq::new(i as nat, |k: int| "E"@),
            decreases e_logical - i,
        {
            let ghost before = r.deep_view();
            let s = letter("E");
            let ghost sv = s@;
            r.push(s);
            assert(r.deep_view() =~= before.push(sv));
            assert(r.deep_view() =~= Seq::new((i + 1) as nat, |k: int| "E"@));
            i += 1;
        }
        let mut j: u32 = 0;
        while j < p_logical
            invariant
                j <= p_logical,
                r.deep_view() == Seq::new(e_logical as nat, |k: int| "E"@) + Seq::new(j as nat, |k: int| "P"@),
            decreases p_logical - j,
        {
            let ghost before = r.deep_view();
            let s = letter("P");
            let ghost sv = s@;
            r.push(s);
            assert(r.deep_view() =~= before.push(sv));
            assert(r.deep_view() =~= Seq::new(e_logical as nat, |k: int| "E"@) + Seq::new((j + 1) as nat, |k: int| "P"@));
            j += 1;
        }
    } else {
        let mut i: u32 = 0;
        while i < observed
            invariant
                i <= observed,
                r.deep_view() == Seq::new(i as nat, |k: int| "P"@),
            decreases observed - i,
        {
            let ghost before = r.deep_view();
            let s = letter("P");
            let ghost sv = s@;
            r.push(s);
            assert(r.deep_view() =~= before.push(sv));
            assert(r.deep_view() =~= Seq::new((i + 1) as nat, |k: int| "P"@));
            i += 1;
        }
    }
    r
}

/// The speed, in bytes/s, a `media:` line shows for a wired link; zero when
/// it names none.
pub open spec fn media_line_speed(line: Seq<char>) -> u64 {
    let l = to_lower(line);
    if contains_seq(l, "10gbase"@) || contains_seq(l, "10000base"@) {
        1250000000
    } else if contains_seq(l, "1000base"@) || contains_seq(l, "1gbase"@) {
        125000000
    } else if contains_seq(l, "100base"@) {
        12500000
    } else {
        0
    }
}

/// Where this reading of a `media:` line knows a wired speed, the interface
/// listing reports the same speed in bits/s: eight times the bytes/s here.
/// (The listing also knows 2.5 and 5 Gbit/s, which this reading does not.)
pub proof fn law_media_speeds_agree(line: Seq<char>)
    ensures
        ({
            let l = to_lower(line);
            media_line_speed(line) > 0 && !contains_seq(l, "2.5gbase"@) && !contains_seq(
                l,
                "2500base"@,
            ) && !contains_seq(l, "5gbase"@)
        }) ==> crate::collector::net_interfaces::media_speed_spec(line) == Some(
            (media_line_speed(line) * 8) as u64,
        ),
{
}

/// The fastest of the lines.
pub open spec fn fastest_line(ls: Seq<Seq<char>>) -> u64
    decreases ls.len(),
{
    if ls.len() == 0 {
        0
    } else {
        let rest = fastest_line(ls.drop_last());
        let v = media_line_speed(ls.last());
        if v > rest {
            v
        } else {
            rest
        }
    }
}

/// The fastest active wired link in the `media:` lines of active
/// interfaces, or [`DEFAULT_LINK_BYTES_SEC`] when there is none (a Mac on
/// Wi-Fi only).
pub open spec fn link_speed_spec(text: Seq<char>) -> u64 {
    let f = fastest_line(lines(text));
    if f > 0 {
        f
    } else {
        DEFAULT_LINK_BYTES_SEC
    }
}

pub fn link_speed_from_media(text: &str) -> (r: u64)
    ensures
        r == link_speed_spec(text@),
{
    let cs = chars_of(text);
    let ls = split_lines(cs.as_slice());
    let mut best: u64 = 0;
    let n = ls.len();
    for i in 0..n
        invariant
            n == ls@.len(),
            ls.deep_view() == lines(text@),
            best == fastest_line(ls.deep_view().take(i as int)),
    {
        assert(ls.deep_view().take(i + 1).drop_last() =~= ls.deep_view().take(i as int));
        assert(ls.deep_view().take(i + 1).last() == ls@[i as int]@);
        let lv = lowercase(ls[i].as_slice());
        let l = lv.as_slice();
        let v: u64 = if contains_str(l, "10gbase") || contains_str(l, "10000base") {
            1250000000
        } else if contains_str(l, "1000base") || contains_str(l, "1gbase") {
            125000000
        } else if contains_str(l, "100base") {
            12500000
        } else {
            0
        };
        if v > best {
            best = v;
        }
    }
    assert(ls.deep_view().take(n as int) =~= ls.deep_view());
    if best > 0 {
        best
    } else {
        DEFAULT_LINK_BYTES_SEC
    }
}

/// A `sysctl -n` answer as a number (`trim`, then `parse::<u32>`).
pub fn sysctl_u32(output: Option<&str>) -> (r: Option<u32>)
    ensures
        r == match output {
            Some(o) => parse_u32_spec(trim(o@)),
            None => None,
        },
{
    match output {
        Some(o) => {
            let cs = chars_of(o);
            let (a, b) = trim_bounds(cs.as_slice(), 0, cs.len());
            assert(cs@.subrange(0, cs@.len() as int) =~= cs@);
            parse_u32_in(cs.as_slice(), a, b)
        },
        None => None,
    }
}

/// The ASCII digits of `s`, in order.
pub open spec fn digits_only(s: Seq<char>) -> Seq<char>
    decreases s.len(),
{
    if s.len() == 0 {
        Seq::empty()
    } else if is_digit(s.last()) {
        digits_only(s.drop_last()).push(s.last())
    } else {
        digits_only(s.drop_last())
    }
}

/// The GPU core count from the displays' `sppci_cores` fields (`"38"`, or
/// `"38_gpu_cores"`): the first display that has the field as text decides.
pub open spec fn gpu_cores_spec(fields: Seq<Option<Seq<char>>>) -> Option<u32>
    decreases fields.len(),
{
    if fields.len() == 0 {
        None
    } else {
        match fields[0] {
            Some(s) => parse_u32_spec(digits_only(s)),
            None => gpu_cores_spec(fields.drop_first()),
        }
    }
}

pub open spec fn fields_view(f: Seq<Option<String>>) -> Seq<Option<Seq<char>>> {
    f.map_values(|o: Option<String>| match o {
        Some(s) => Some(s@),
        None => None,
    })
}

/// The `sppci_cores` member of each display in a decoded
/// `system_profiler SPDisplaysDataType -json` report; none when the report
/// has no display list.
pub open spec fn display_cores_spec(report: Json) -> Seq<Option<Seq<char>>> {
    match get_spec(report, "SPDisplaysDataType"@) {
        Some(Json::Array(ds)) => ds@.map_values(|d: Json| text_spec(d, "sppci_cores"@)),
        _ => Seq::empty(),
    }
}

pub fn display_core_fields_of(report: &Json) -> (r: Vec<Option<String>>)
    ensures
        fields_view(r@) == display_cores_spec(*report),
{
    let mut out: Vec<Option<String>> = Vec::new();
    let ds = match get(report, "SPDisplaysDataType") {
        Some(Json::Array(ds)) => ds,
        _ => {
            assert(fields_view(out@) =~= Seq::<Option<Seq<char>>>::empty());
            return out;
        },
    };
    let mut k: usize = 0;
    while k < ds.len()
        invariant
            k <= ds@.len(),
            out@.len() == k,
            fields_view(out@) == ds@.take(k as int).map_values(|d: Json| text_spec(d, "sppci_cores"@)),
        decreases ds@.len() - k,
    {
        let ghost before = out@;
        let f = text_of(&ds[k], "sppci_cores");
        out.push(f);
        proof {
            let want = ds@.take(k + 1).map_values(|d: Json| text_spec(d, "sppci_cores"@));
            assert forall|m: int| 0 <= m < k implies fields_view(out@)[m] == want[m] by {
                assert(out@[m] == before[m]);
                assert(fields_view(before)[m] == ds@.take(k as int).map_values(
                    |d: Json| text_spec(d, "sppci_cores"@),
                )[m]);
                assert(ds@.take(k as int)[m] == ds@[m]);
                assert(ds@.take(k + 1)[m] == ds@[m]);
            }
            assert(ds@.take(k + 1)[k as int] == ds@[k as int]);
            assert(fields_view(out@) =~= want);
        }
        k += 1;
    }
    assert(ds@.take(ds@.len() as int) =~= ds@);
    out
}

pub fn gpu_cores_from_displays(fields: &Vec<Option<String>>) -> (r: Option<u32>)
    ensures
        r == gpu_cores_spec(fields_view(fields@)),
{
    let ghost fv = fields_view(fields@);
    let n = fields.len();
    let mut i: usize = 0;
    assert(fv.skip(0) =~= fv);
    while i < n
        invariant
            i <= n == fields@.len(),
            fv == fields_view(fields@),
            gpu_cores_spec(fv) == gpu_cores_spec(fv.skip(i as int)),
        decreases n - i,
    {
        assert(fv.skip(i as int)[0] == fv[i as int]);
        assert(fv.skip(i as int).drop_first() =~= fv.skip(i + 1));
        match &fields[i] {
            Some(s) => {
                let cs = chars_of(s.as_str());
                let mut d: Vec<char> = Vec::new();
                let m = cs.len();
                for k in 0..m
                    invariant
                        m == cs@.len(),
                        d@ == digits_only(cs@.take(k as int)),
                {
                    assert(cs@.take(k + 1).drop_last() =~= cs@.take(k as int));
                    if '0' <= cs[k] && cs[k] <= '9' {
                        d.push(cs[k]);
                    }
                }
                assert(cs@.take(m as int) =~= cs@);
                return crate::text::parse_u32_of(&d);
            },
            None => {},
        }
        i += 1;
    }
    None
}

/// The boot volume's size, else the largest volume's, else zero; each
/// entry is `(mount point, total bytes)`.
pub open spec fn disk_total_spec(disks: Seq<(Seq<char>, u64)>) -> u64
    decreases disks.len(),
{
    if disks.len() == 0 {
        0
    } else if disks[0].0 == seq!['/'] {
        disks[0].1
    } else {
        let rest = disk_total_spec(disks.drop_first());
        if root_listed(disks.drop_first()) {
            rest
        } else if disks[0].1 > rest {
            disks[0].1
        } else {
            rest
        }
    }
}

pub open spec fn root_listed(disks: Seq<(Seq<char>, u64)>) -> bool {
    exists|i: int| 0 <= i < disks.len() && #[trigger] disks[i].0 == seq!['/']
}

/// The boot volume's size, else the largest volume's, else zero.
pub fn disk_total(disks: &Vec<(String, u64)>) -> (r: u64)
    ensures
        r == disk_total_spec(disks@.map_values(|d: (String, u64)| (d.0@, d.1))),
{
    let ghost v = disks@.map_values(|d: (String, u64)| (d.0@, d.1));
    let n = disks.len();
    let mut i = n;
    let mut best: u64 = 0;
    let mut root: Option<u64> = None;
    assert(v.skip(n as int) =~= Seq::<(Seq<char>, u64)>::empty());
    while i > 0
        invariant
            i <= n == disks@.len(),
            v == disks@.map_values(|d: (String, u64)| (d.0@, d.1)),
            match root {
                Some(t) => root_listed(v.skip(i as int)) && disk_total_spec(v.skip(i as int)) == t,
                None => !root_listed(v.skip(i as int)) && disk_total_spec(v.skip(i as int)) == best,
            },
        decreases i,
    {
        let ghost t = v.skip(i - 1);
        assert(t[0] == v[i - 1]);
        assert(t.drop_first() =~= v.skip(i as int));
        let (ref mount, total) = disks[i - 1];
        let is_root = crate::text::str_eq(mount.as_str(), "/");
        proof {
            reveal_strlit("/");
            assert("/"@ =~= seq!['/']);
            assert(v[i - 1].0 == mount@);
        }
        if is_root {
            root = Some(total);
            assert(root_listed(t)) by {
                assert(t[0].0 == seq!['/']);
            }
        } else {
            match root {
                Some(_) => {
                    assert(root_listed(t)) by {
                        let w = choose|w: int| 0 <= w < v.skip(i as int).len() && #[trigger] v.skip(i as int)[w].0 == seq!['/'];
                        assert(t[w + 1] == v.skip(i as int)[w]);
                    }
                },
                None => {
                    if total > best {
                        best = total;
                    }
                    assert(!root_listed(t)) by {
                        if root_listed(t) {
                            let w = choose|w: int| 0 <= w < t.len() && #[trigger] t[w].0 == seq!['/'];
                            if w > 0 {
                                assert(v.skip(i as int)[w - 1] == t[w]);
                            }
                        }
                    }
                },
            }
        }
        i -= 1;
    }
    assert(v.skip(0) =~= v);
    match root {
        Some(t) => t,
        None => best,
    }
}

pub open spec fn or_default(o: Option<u32>, d: u32) -> u32 {
    match o {
        Some(v) => v,
        None => d,
    }
}

impl SystemInfo {
    /// Put the machine's facts together: `sysctl` answers (absent when
    /// unreadable) default to 4 performance and 4 efficiency cores, no GPU
    /// cores, a model of `"Mac"` and an empty OS version; logical counts
    /// default to the physical ones.
    pub fn assemble(
        model: Option<String>,
        chip: String,
        p_cores: Option<u32>,
        e_cores: Option<u32>,
        gpu_cores: Option<u32>,
        p_logical: Option<u32>,
        e_logical: Option<u32>,
        observed_cpus: u32,
        mem_total: u64,
        disk_total: u64,
        os_version: Option<String>,
        net_link_speed_bytes_sec: u64,
    ) -> (s: SystemInfo)
        requires
            or_default(e_logical, or_default(e_cores, 4)) + or_default(p_logical, or_default(p_cores, 4)) <= u32::MAX,
        ensures
            s.model@ == match model {
                Some(m) => m@,
                None => "Mac"@,
            },
            s.chip@ == chip@,
            s.p_core_count == or_default(p_cores, 4),
            s.e_core_count == or_default(e_cores, 4),
            s.gpu_core_count == or_default(gpu_cores, 0),
            s.mem_total == mem_total,
            s.disk_total == disk_total,
            s.os_version@ == match os_version {
                Some(o) => o@,
                None => Seq::<char>::empty(),
            },
            s.net_link_speed_bytes_sec == net_link_speed_bytes_sec,
            s.core_kinds.deep_view() == core_kinds_spec(
                or_default(e_logical, or_default(e_cores, 4)) as nat,
                or_default(p_logical, or_default(p_cores, 4)) as nat,
                observed_cpus as nat,
            ),
    {
        let p = match p_cores {
            Some(v) => v,
            None => 4,
        };
        let e = match e_cores {
            Some(v) => v,
            None => 4,
        };
        let pl = match p_logical {
            Some(v) => v,
            None => p,
        };
        let el = match e_logical {
            Some(v) => v,
            None => e,
        };
        SystemInfo {
            model: match model {
                Some(m) => m,
                None => letter("Mac"),
            },
            chip,
            p_core_count: p,
            e_core_count: e,
            gpu_core_count: match gpu_cores {
                Some(v) => v,
                None => 0,
            },
            mem_total,
            disk_total,
            os_version: match os_version {
                Some(o) => o,
                None => String::new(),
            },
            net_link_speed_bytes_sec,
            core_kinds: core_kinds(el, pl, observed_cpus),
        }
    }
}

} // verus!
