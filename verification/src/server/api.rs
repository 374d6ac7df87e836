//! The read-only history endpoints: which window and bucket width a
//! `range` asks for, and which store serves it.
use vstd::prelude::*;
use crate::storage::rollup::{rollup_serves_spec, rollup_serves};
use crate::text::{all_digits, digits_value};

verus! {

/// `?range=` of `/api/history` and `/api/network_totals`.
#[derive(Debug)]
pub struct HistoryQuery {
    pub range: Option<String>,
}

/// `?group=&tz_offset_minutes=` of `/api/energy_history`.
#[derive(Debug)]
pub struct EnergyHistoryQuery {
    pub group: Option<String>,
    /// Minutes the browser's time zone is behind UTC (JavaScript's
    /// `getTimezoneOffset`).
    pub tz_offset_minutes: Option<i32>,
}

/// `?group=&tz_offset_minutes=` of `/api/network_history`.
#[derive(Debug)]
pub struct NetworkHistoryQuery {
    pub group: Option<String>,
    pub tz_offset_minutes: Option<i32>,
}

/// The window a `range` covers, in ms; `None` for an unknown range.
pub open spec fn window_spec(range: Seq<char>) -> Option<u64> {
    if range == "1m"@ {
        Some(60000)
    } else if range == "5m"@ {
        Some(300000)
    } else if range == "15m"@ {
        Some(900000)
    } else if range == "1h"@ {
        Some(3600000)
    } else if range == "24h"@ {
        Some(86400000)
    } else if range == "7d"@ {
        Some(604800000)
    } else {
        None
    }
}

/// The bucket width a `range` is drawn at, in ms: about two or more
/// samples per bucket except at `1m`, and `7d` a whole multiple of the
/// rollup grid.
pub open spec fn bucket_spec(range: Seq<char>) -> Option<u64> {
    if range == "1m"@ {
        Some(2000)
    } else if range == "5m"@ {
        Some(4000)
    } else if range == "15m"@ {
        Some(6000)
    } else if range == "1h"@ {
        Some(10000)
    } else if range == "24h"@ {
        Some(240000)
    } else if range == "7d"@ {
        Some(1680000)
    } else {
        None
    }
}

pub fn window_ms_for_range(range: &str) -> (r: Option<u64>)
    ensures
        r == window_spec(range@),
{
    if crate::text::str_eq(range, "1m") {
        Some(60000)
    } else if crate::text::str_eq(range, "5m") {
        Some(300000)
    } else if crate::text::str_eq(range, "15m") {
        Some(900000)
    } else if crate::text::str_eq(range, "1h") {
        Some(3600000)
    } else if crate::text::str_eq(range, "24h") {
        Some(86400000)
    } else if crate::text::str_eq(range, "7d") {
        Some(604800000)
    } else {
        None
    }
}

pub fn bucket_ms_for_range(range: &str) -> (r: Option<u64>)
    ensures
        r == bucket_spec(range@),
{
    if crate::text::str_eq(range, "1m") {
        Some(2000)
    } else if crate::text::str_eq(range, "5m") {
        Some(4000)
    } else if crate::text::str_eq(range, "15m") {
        Some(6000)
    } else if crate::text::str_eq(range, "1h") {
        Some(10000)
    } else if crate::text::str_eq(range, "24h") {
        Some(240000)
    } else if crate::text::str_eq(range, "7d") {
        Some(1680000)
    } else {
        None
    }
}

/// How a history request is served.
#[derive(Debug, Clone, Copy, PartialEq, Eq, Structural)]
pub struct HistoryPlan {
    /// Start of the window (Unix ms).
    pub since: u64,
    pub bucket_ms: u64,
    /// Read from the rollup rather than the raw rows.
    pub rolled: bool,
}

/// The range asked for, `1h` when none is given.
pub open spec fn range_or_default(range: Option<&str>) -> Seq<char> {
    match range {
        Some(r) => r@,
        None => "1h"@,
    }
}

/// Plan a history request at `now`; `None` (400 Bad Request) for an
/// unknown range.
pub open spec fn history_plan_spec(range: Seq<char>, now: u64) -> Option<HistoryPlan> {
    match (window_spec(range), bucket_spec(range)) {
        (Some(w), Some(b)) => Some(
            HistoryPlan {
                since: if now >= w {
                    (now - w) as u64
                } else {
                    0
                },
                bucket_ms: b,
                rolled: rollup_serves_spec(b),
            },
        ),
        _ => None,
    }
}

pub fn history_plan(range: Option<&str>, now: u64) -> (r: Option<HistoryPlan>)
    ensures
        r == history_plan_spec(range_or_default(range), now),
{
    let range = match range {
        Some(r) => r,
        None => "1h",
    };
    let window = match window_ms_for_range(range) {
        Some(w) => w,
        None => return None,
    };
    let bucket = match bucket_ms_for_range(range) {
        Some(b) => b,
        None => return None,
    };
    Some(HistoryPlan { since: now.saturating_sub(window), bucket_ms: bucket, rolled: rollup_serves(bucket) })
}

/// Start of the network-totals window at `now`; `None` for an unknown
/// range.
pub fn totals_since(range: Option<&str>, now: u64) -> (r: Option<u64>)
    ensures
        r == match window_spec(range_or_default(range)) {
            Some(w) => Some(
                if now >= w {
                    (now - w) as u64
                } else {
                    0
                },
            ),
            None => None,
        },
{
    let range = match range {
        Some(r) => r,
        None => "1h",
    };
    match window_ms_for_range(range) {
        Some(w) => Some(now.saturating_sub(w)),
        None => None,
    }
}

/// The browser-style offset (minutes behind UTC) for a zone `secs_east`
/// seconds east of UTC, used when the client sends none.
pub open spec fn div_toward_zero(a: int, b: int) -> int {
    if a >= 0 {
        a / b
    } else {
        -((-a) / b)
    }
}

pub fn tz_offset_from_east(secs_east: i32) -> (r: i32)
    ensures
        r == -div_toward_zero(secs_east as int, 60),
{
    let q = secs_east / 60;
    0 - q
}

/// Every range that is served has a window and a bucket no wider than it,
/// and the week view comes from the rollup.
pub proof fn law_ranges_are_consistent(range: Seq<char>)
    ensures
        window_spec(range) is Some <==> bucket_spec(range) is Some,
        window_spec(range) is Some ==> bucket_spec(range)->0 <= window_spec(range)->0,
        range == "7d"@ ==> rollup_serves_spec(bucket_spec(range)->0),
{
    reveal_strlit("1m");
    reveal_strlit("5m");
    reveal_strlit("15m");
    reveal_strlit("1h");
    reveal_strlit("24h");
    reveal_strlit("7d");
    if range == "7d"@ {
        assert(range[0] == '7');
        assert("1m"@[0] == '1' && "5m"@[0] == '5' && "15m"@[0] == '1' && "1h"@[0] == '1'
            && "24h"@[0] == '2');
        assert(bucket_spec(range) == Some(1680000u64));
    }
}

/// The duration a range's name spells, in ms: a decimal count followed by
/// one unit letter, `m` for minutes, `h` for hours, `d` for days.
pub open spec fn named_duration_ms(range: Seq<char>) -> Option<int> {
    let count = range.drop_last();
    if range.len() >= 2 && all_digits(count) {
        let n = digits_value(count) as int;
        if range.last() == 'm' {
            Some(n * 60_000)
        } else if range.last() == 'h' {
            Some(n * 3_600_000)
        } else if range.last() == 'd' {
            Some(n * 86_400_000)
        } else {
            None
        }
    } else {
        None
    }
}

/// Every range served covers exactly the duration its name spells: `15m`
/// is fifteen minutes, `24h` a day, `7d` a week.
pub proof fn law_window_is_the_named_duration(range: Seq<char>)
    ensures
        window_spec(range) matches Some(w) ==> named_duration_ms(range) == Some(w as int),
{
    reveal_strlit("1m");
    reveal_strlit("5m");
    reveal_strlit("15m");
    reveal_strlit("1h");
    reveal_strlit("24h");
    reveal_strlit("7d");
    if window_spec(range) is Some {
        let c = range.drop_last();
        if range == "1m"@ || range == "5m"@ || range == "1h"@ || range == "7d"@ {
            assert(c.len() == 1);
            assert(digits_value(c.drop_last()) == 0);
            assert(c.last() == c[0]);
        } else {
            let d = c.drop_last();
            assert(c.len() == 2);
            assert(digits_value(d.drop_last()) == 0);
            assert(d.last() == c[0]);
            assert(c.last() == c[1]);
        }
    }
}

} // verus!
