//! Calendar arithmetic for the energy and network history views.
//!
//! The store itself is SQLite and is driven by the caller; which buckets a
//! view has, where each starts and which daily rows belong to it is decided
//! here.
use vstd::prelude::*;
use crate::collector::metrics::{month_key, pad2, pad4};
use crate::text::{push_char, push_decimal, decimal, push_str};

verus! {

/// Which view a `group` asks for, and how many buckets it has.
#[derive(Debug, Clone, Copy, PartialEq, Eq, Structural)]
pub enum HistoryGroup {
    /// 24 one-hour buckets aligned to the caller's local hour.
    Hour,
    /// The last `n` local days.
    Day(u32),
    /// The last `n` Monday-start weeks.
    Week(u32),
    /// The last `n` calendar months.
    Month(u32),
}

pub open spec fn history_group_spec(group: Seq<char>) -> Option<HistoryGroup> {
    if group == "hour"@ {
        Some(HistoryGroup::Hour)
    } else if group == "day"@ {
        Some(HistoryGroup::Day(30))
    } else if group == "week"@ {
        Some(HistoryGroup::Week(12))
    } else if group == "month"@ {
        Some(HistoryGroup::Month(12))
    } else {
        None
    }
}

/// The view for `group`; `None` for an unknown one, which is a caller error
/// (400), not an empty chart.
pub fn history_group(group: &str) -> (r: Option<HistoryGroup>)
    ensures
        r == history_group_spec(group@),
{
    if crate::text::str_eq(group, "hour") {
        Some(HistoryGroup::Hour)
    } else if crate::text::str_eq(group, "day") {
        Some(HistoryGroup::Day(30))
    } else if crate::text::str_eq(group, "week") {
        Some(HistoryGroup::Week(12))
    } else if crate::text::str_eq(group, "month") {
        Some(HistoryGroup::Month(12))
    } else {
        None
    }
}

/// The calendar month `back` months before `(year, month)`, as
/// `(year, month)` with months 1 to 12.
pub open spec fn months_back_spec(year: int, month: int, back: int) -> (int, int) {
    let total = year * 12 + (month - 1) - back;
    (total / 12, total % 12 + 1)
}

pub fn months_back(year: i32, month: u32, back: u32) -> (r: (i32, u32))
    requires
        1 <= month <= 12,
        -1000000 <= year <= 1000000,
        back <= 1000000,
    ensures
        r.0 as int == months_back_spec(year as int, month as int, back as int).0,
        r.1 as int == months_back_spec(year as int, month as int, back as int).1,
        1 <= r.1 <= 12,
{
    let total: i64 = (year as i64) * 12 + (month as i64 - 1) - (back as i64);
    let y = match total.checked_div_euclid(12) {
        Some(v) => v,
        None => 0,
    };
    let m = match total.checked_rem_euclid(12) {
        Some(v) => v + 1,
        None => 1,
    };
    (y as i32, m as u32)
}

/// The `YYYY-MM-DD` key of a local day.
pub fn day_key(year: u32, month: u32, day: u32) -> (k: String)
    ensures
        k@ == pad4(year as nat) + seq!['-'] + pad2(month as nat) + seq!['-'] + pad2(day as nat),
{
    let mut k = month_key(year, month);
    push_char(&mut k, '-');
    if day < 10 {
        push_char(&mut k, '0');
    }
    push_decimal(&mut k, day as u64);
    k
}

/// The `YYYY-MM-` prefix every daily key of a month starts with.
pub fn month_prefix(year: u32, month: u32) -> (k: String)
    ensures
        k@ == pad4(year as nat) + seq!['-'] + pad2(month as nat) + seq!['-'],
{
    let mut k = month_key(year, month);
    push_char(&mut k, '-');
    k
}

/// One-hour buckets in ms.
pub const HOUR_MS: i64 = 3600000;

/// How many hour buckets the hour view has.
pub const HOUR_BUCKETS: i64 = 24;

/// Rust's `/` on integers: rounds toward zero.
pub open spec fn div_trunc(a: int, b: int) -> int {
    if a >= 0 {
        a / b
    } else {
        -((-a) / b)
    }
}

/// The hour view at `now_utc` for a client `tz_offset_minutes` behind UTC:
/// the window start in UTC and each bucket's UTC start. Buckets are aligned
/// to the client's local hours and the last one holds `now`.
pub open spec fn hour_window_spec(now_utc: int, tz_offset_minutes: int) -> (int, Seq<int>) {
    let offset = -tz_offset_minutes * 60000;
    let now_local = now_utc + offset;
    let end_local = (div_trunc(now_local, HOUR_MS as int) + 1) * HOUR_MS;
    let since_local = end_local - HOUR_MS * HOUR_BUCKETS;
    (since_local - offset, Seq::new(HOUR_BUCKETS as nat, |i: int| since_local + i * HOUR_MS - offset))
}

pub fn hour_window(now_utc: i64, tz_offset_minutes: i32) -> (r: (i64, Vec<i64>))
    requires
        -0x1000_0000_0000_0000 <= now_utc <= 0x1000_0000_0000_0000,
    ensures
        r.0 as int == hour_window_spec(now_utc as int, tz_offset_minutes as int).0,
        r.1@.len() == HOUR_BUCKETS,
        forall|i: int| 0 <= i < HOUR_BUCKETS ==> r.1@[i] as int == #[trigger] hour_window_spec(now_utc as int, tz_offset_minutes as int).1[i],
{
    let offset: i64 = -(tz_offset_minutes as i64) * 60000;
    assert(-140_000_000_000_000 <= offset <= 140_000_000_000_000);
    let now_local = now_utc + offset;
    let q = now_local / HOUR_MS;
    assert(q as int == div_trunc(now_local as int, 3600000));
    assert(-0x1000_0000_0000_0000 - 140_000_000_000_000 <= q * 3600000 <= 0x1000_0000_0000_0000 + 140_000_000_000_000) by (nonlinear_arith)
        requires
            q == div_trunc(now_local as int, 3600000),
            -0x1000_0000_0000_0000 - 140_000_000_000_000 <= now_local <= 0x1000_0000_0000_0000 + 140_000_000_000_000,
    ;
    let end_local = (q + 1) * HOUR_MS;
    let since_local = end_local - HOUR_MS * HOUR_BUCKETS;
    let mut starts: Vec<i64> = Vec::new();
    let ghost spec_starts = hour_window_spec(now_utc as int, tz_offset_minutes as int).1;
    assert(since_local as int - offset as int == hour_window_spec(now_utc as int, tz_offset_minutes as int).0);
    let mut i: i64 = 0;
    while i < HOUR_BUCKETS
        invariant
            0 <= i <= HOUR_BUCKETS,
            starts@.len() == i,
            -0x1000_0000_0000_0000 - 240_000_000_000_000 <= since_local <= 0x1000_0000_0000_0000 + 240_000_000_000_000,
            -140_000_000_000_000 <= offset <= 140_000_000_000_000,
            spec_starts == Seq::new(HOUR_BUCKETS as nat, |k: int| since_local + k * HOUR_MS - offset),
            forall|k: int| 0 <= k < i ==> starts@[k] as int == spec_starts[k],
        decreases HOUR_BUCKETS - i,
    {
        starts.push(since_local + i * HOUR_MS - offset);
        i += 1;
    }
    (since_local - offset, starts)
}

/// A bucket start as served: negative times clamp to zero.
pub fn bucket_start_ms(t: i64) -> (r: u64)
    ensures
        r == if t < 0 { 0 } else { t as u64 },
{
    if t < 0 {
        0
    } else {
        t as u64
    }
}

/// Hour buckets are exactly an hour apart and end just after `now`.
pub proof fn law_hour_buckets_tile_the_day(now_utc: int, tz: int)
    ensures
        forall|i: int|
            0 <= i < HOUR_BUCKETS - 1 ==> #[trigger] hour_window_spec(now_utc, tz).1[i + 1]
                - hour_window_spec(now_utc, tz).1[i] == HOUR_MS,
        hour_window_spec(now_utc, tz).1[0] == hour_window_spec(now_utc, tz).0,
{
}

} // verus!
