//! Local-calendar days for the day and week history views.
//!
//! Date arithmetic is chrono's; which days make up which bucket is decided
//! here. Dates are `(year, month, day)` triples; turning a day into the UTC
//! instant of its local midnight needs the machine's time zone and is the
//! caller's job.
use vstd::prelude::*;
use chrono::Datelike;

verus! {

/// A calendar date as `(year, month, day)`.
pub type Ymd = (i32, u32, u32);

/// The date `delta` days after `(year, month, day)` (before it when
/// `delta` is negative); `None` when the input is not a valid date or the
/// result falls outside chrono's range.
pub uninterp spec fn shifted_date(year: i32, month: u32, day: u32, delta: i32) -> Option<(i32, u32, u32)>;

/// The weekday of `(year, month, day)` counted from Monday (Monday is 0);
/// `None` when the input is not a valid date.
pub uninterp spec fn weekday_from_monday(year: i32, month: u32, day: u32) -> Option<u32>;

/// Shift a date by whole days.
///
/// Wraps `chrono::NaiveDate::from_ymd_opt` and
/// `NaiveDate::checked_add_signed`: the result is named
/// [`shifted_date`] of the arguments; nothing more is claimed of the
/// calendar.
#[verifier::external_body]
fn shift_date(date: Ymd, delta: i32) -> (r: Option<Ymd>)
    ensures
        r == shifted_date(date.0, date.1, date.2, delta),
{
    let start = match chrono::NaiveDate::from_ymd_opt(date.0, date.1, date.2) {
        Some(d) => d,
        None => return None,
    };
    let step = match chrono::TimeDelta::try_days(delta as i64) {
        Some(t) => t,
        None => return None,
    };
    match start.checked_add_signed(step) {
        Some(d) => Some((d.year(), d.month(), d.day())),
        None => None,
    }
}

/// The weekday of a date, Monday being 0.
///
/// Wraps `chrono::NaiveDate::from_ymd_opt`, `Datelike::weekday` and
/// `Weekday::num_days_from_monday`. chrono documents the count as 0 for
/// Monday up to 6 for Sunday, which is the one fact stated besides the
/// name [`weekday_from_monday`].
#[verifier::external_body]
fn weekday_of(date: Ymd) -> (r: Option<u32>)
    ensures
        r == weekday_from_monday(date.0, date.1, date.2),
        r matches Some(w) ==> w < 7,
{
    match chrono::NaiveDate::from_ymd_opt(date.0, date.1, date.2) {
        Some(d) => Some(d.weekday().num_days_from_monday()),
        None => None,
    }
}

/// The `count` days ending with `today`, oldest first: day `j` is
/// `count - 1 - j` days before `today`.
pub open spec fn day_bucket_dates(today: Ymd, count: nat) -> Seq<Option<Ymd>> {
    Seq::new(count, |j: int| days_back(today, count - 1 - j))
}

/// The date `n` days before `today`; `None` past what a day count can say.
pub open spec fn days_back(today: Ymd, n: int) -> Option<Ymd> {
    if n <= i32::MAX {
        shifted_date(today.0, today.1, today.2, (-n) as i32)
    } else {
        None
    }
}

/// Whether every date of `s` exists.
pub open spec fn all_some(s: Seq<Option<Ymd>>) -> bool {
    forall|j: int| 0 <= j < s.len() ==> #[trigger] s[j] is Some
}

/// The days of the day view: the `count` local days ending with `today`,
/// oldest first. `None` when `today` is not a date or a day falls outside
/// the calendar's range.
pub fn day_buckets(today: Ymd, count: u32) -> (r: Option<Vec<Ymd>>)
    ensures
        all_some(day_bucket_dates(today, count as nat)) ==> r is Some,
        r matches Some(v) ==> v@.len() == count && forall|j: int|
            0 <= j < count ==> Some(#[trigger] v@[j]) == day_bucket_dates(today, count as nat)[j],
        r is None ==> !all_some(day_bucket_dates(today, count as nat)),
{
    let ghost want = day_bucket_dates(today, count as nat);
    let mut out: Vec<Ymd> = Vec::new();
    let mut j: u32 = 0;
    while j < count
        invariant
            j <= count,
            want == day_bucket_dates(today, count as nat),
            out@.len() == j,
            forall|k: int| 0 <= k < j ==> Some(#[trigger] out@[k]) == want[k],
        decreases count - j,
    {
        let n: u32 = count - 1 - j;
        if n > 2147483647 {
            assert(want[j as int] is None);
            return None;
        }
        let back: i32 = n as i32;
        match shift_date(today, -back) {
            Some(d) => {
                out.push(d);
            },
            None => {
                assert(want[j as int] is None);
                return None;
            },
        }
        j += 1;
    }
    Some(out)
}

/// How many days `today` lies after the Monday that starts its week.
pub open spec fn days_since_monday(today: Ymd) -> Option<u32> {
    weekday_from_monday(today.0, today.1, today.2)
}

/// The Monday starting week `i` of the week view, counted back from the
/// current week (`i` = 0), given how far `today` is past its Monday.
pub open spec fn week_monday(today: Ymd, since_monday: u32, i: nat) -> Option<Ymd> {
    days_back(today, since_monday + 7 * i)
}

/// Day `k` (0 to 6) of the week that starts on `monday`.
pub open spec fn week_day(monday: Option<Ymd>, k: int) -> Option<Ymd> {
    match monday {
        Some(m) => shifted_date(m.0, m.1, m.2, k as i32),
        None => None,
    }
}

/// One week bucket: its Monday and its seven days, Monday first.
pub struct WeekBucket {
    pub monday: Ymd,
    pub days: Vec<Ymd>,
}

/// Whether `b` is week `i` back from the one holding `today`.
pub open spec fn is_week_bucket(b: WeekBucket, today: Ymd, since_monday: u32, i: nat) -> bool {
    &&& Some(b.monday) == week_monday(today, since_monday, i)
    &&& b.days@.len() == 7
    &&& forall|k: int| 0 <= k < 7 ==> Some(#[trigger] b.days@[k]) == week_day(Some(b.monday), k)
}

/// Whether every Monday and every day of the `count` weeks exists.
pub open spec fn weeks_exist(today: Ymd, since_monday: u32, count: nat) -> bool {
    forall|i: int, k: int|
        0 <= i < count && 0 <= k < 7 ==> #[trigger] week_day(week_monday(today, since_monday, i as nat), k)
            is Some && week_monday(today, since_monday, i as nat) is Some
}

fn week_bucket(today: Ymd, since_monday: u32, i: u32) -> (r: Option<WeekBucket>)
    requires
        since_monday < 7,
    ensures
        r matches Some(b) ==> is_week_bucket(b, today, since_monday, i as nat),
        r is None ==> week_monday(today, since_monday, i as nat) is None || exists|k: int|
            0 <= k < 7 && #[trigger] week_day(week_monday(today, since_monday, i as nat), k) is None,
{
    let n: u64 = since_monday as u64 + 7 * (i as u64);
    if n > 2147483647 {
        return None;
    }
    let back: i32 = n as i32;
    let monday = match shift_date(today, -back) {
        Some(m) => m,
        None => return None,
    };
    let mut days: Vec<Ymd> = Vec::new();
    let mut k: i32 = 0;
    while k < 7
        invariant
            0 <= k <= 7,
            Some(monday) == week_monday(today, since_monday, i as nat),
            days@.len() == k,
            forall|q: int| 0 <= q < k ==> Some(#[trigger] days@[q]) == week_day(Some(monday), q),
        decreases 7 - k,
    {
        match shift_date(monday, k) {
            Some(d) => {
                days.push(d);
            },
            None => {
                assert(week_day(week_monday(today, since_monday, i as nat), k as int) is None);
                return None;
            },
        }
        k += 1;
    }
    Some(WeekBucket { monday, days })
}

/// The weeks of the week view: the `count` Monday-start weeks ending with
/// the one holding `today`, oldest first, each with its seven days. `None`
/// when `today` is not a date or a day falls outside the calendar's range.
pub fn week_buckets(today: Ymd, count: u32) -> (r: Option<Vec<WeekBucket>>)
    ensures
        (days_since_monday(today) matches Some(s) && weeks_exist(today, s, count as nat)) ==> r is Some,
        r matches Some(v) ==> {
            &&& days_since_monday(today) is Some
            &&& v@.len() == count
            &&& forall|j: int|
                0 <= j < count ==> is_week_bucket(
                    #[trigger] v@[j],
                    today,
                    days_since_monday(today)->0,
                    (count - 1 - j) as nat,
                )
        },
{
    let since_monday = match weekday_of(today) {
        Some(w) => w,
        None => return None,
    };
    let mut out: Vec<WeekBucket> = Vec::new();
    let mut j: u32 = 0;
    while j < count
        invariant
            j <= count,
            since_monday < 7,
            Some(since_monday) == days_since_monday(today),
            out@.len() == j,
            forall|q: int|
                0 <= q < j ==> is_week_bucket(#[trigger] out@[q], today, since_monday, (count - 1 - q) as nat),
        decreases count - j,
    {
        match week_bucket(today, since_monday, count - 1 - j) {
            Some(b) => {
                out.push(b);
            },
            None => {
                proof {
                    let i: int = count - 1 - j;
                    let monday = week_monday(today, since_monday, i as nat);
                    if monday is None {
                        assert(week_day(monday, 0) is None);
                    } else {
                        let k = choose|k: int| 0 <= k < 7 && #[trigger] week_day(monday, k) is None;
                        assert(week_day(monday, k) is None);
                    }
                }
                return None;
            },
        }
        j += 1;
    }
    Some(out)
}

} // verus!
