//! Calendar arithmetic on Unix time: exact, in integers, for the proleptic
//! Gregorian calendar.

use vstd::prelude::*;

verus! {

/// Unix day number of a timestamp.
pub open spec fn day_of(t: u64) -> int {
    t as int / 86_400
}

/// Weekday of a timestamp, with 0 for Sunday: day 0 of the epoch was a Thursday.
pub open spec fn weekday_of(t: u64) -> int {
    (day_of(t) + 4) % 7
}

/// Hour of the day of a timestamp, in UTC.
pub open spec fn hour_of(t: u64) -> int {
    (t as int / 3_600) % 24
}

/// Year, month (1 to 12) and day of the month (1 to 31) of Unix day `z`.
///
/// Days are counted from 1 March of year 0 in eras of 400 years (146097
/// days); within an era the year, and within a year that begins in March the
/// month and the day, follow by integer division.
pub open spec fn civil_spec(z: int) -> (int, int, int) {
    let shifted = z + 719_468;
    let era = shifted / 146_097;
    let doe = shifted - era * 146_097;
    let yoe = (doe - doe / 1_460 + doe / 36_524 - doe / 146_096) / 365;
    let year = yoe + era * 400;
    let doy = doe - (365 * yoe + yoe / 4 - yoe / 100);
    let mp = (5 * doy + 2) / 153;
    let day = doy - (153 * mp + 2) / 5 + 1;
    let month = (mp + 2) % 12 + 1;
    (if mp >= 10 { year + 1 } else { year }, month, day)
}

/// The number of the day `d` of month `m` in year `y`, counted from the
/// epoch: the inverse of `civil_spec`.
pub open spec fn days_from_civil(y: int, m: int, d: int) -> int {
    let year = if m <= 2 {
        y - 1
    } else {
        y
    };
    let era = year / 400;
    let yoe = year - era * 400;
    let mp = (m + 9) % 12;
    let doy = (153 * mp + 2) / 5 + d - 1;
    let doe = yoe * 365 + yoe / 4 - yoe / 100 + doy;
    era * 146_097 + doe - 719_468
}

/// The month lies between 1 and 12, the day between 1 and 31.
#[verifier::rlimit(60)]
pub proof fn lemma_civil_ranges(z: int)
    ensures
        1 <= civil_spec(z).1 <= 12,
        1 <= civil_spec(z).2 <= 31,
{
    let shifted = z + 719_468;
    let era = shifted / 146_097;
    let doe = shifted - era * 146_097;
    assert(0 <= doe <= 146_096);
    let yoe = (doe - doe / 1_460 + doe / 36_524 - doe / 146_096) / 365;
    assert(0 <= yoe <= 399);
    let doy = doe - (365 * yoe + yoe / 4 - yoe / 100);
    assert(0 <= doy <= 365);
    let mp = (5 * doy + 2) / 153;
    assert(0 <= mp <= 11);
}

/// Round trip: the civil date of a day, counted back into days, is that day.
/// So no two days have the same date.
#[verifier::rlimit(60)]
pub proof fn lemma_civil_round_trip(z: int)
    ensures
        days_from_civil(civil_spec(z).0, civil_spec(z).1, civil_spec(z).2) == z,
{
    let shifted = z + 719_468;
    let era = shifted / 146_097;
    let doe = shifted - era * 146_097;
    assert(0 <= doe <= 146_096);
    let yoe = (doe - doe / 1_460 + doe / 36_524 - doe / 146_096) / 365;
    assert(0 <= yoe <= 399);
    let doy = doe - (365 * yoe + yoe / 4 - yoe / 100);
    assert(0 <= doy <= 365);
    let mp = (5 * doy + 2) / 153;
    assert(0 <= mp <= 11);
    let d = doy - (153 * mp + 2) / 5 + 1;
    let m = (mp + 2) % 12 + 1;
    let y = if mp >= 10 {
        yoe + era * 400 + 1
    } else {
        yoe + era * 400
    };
    assert(civil_spec(z) == (y, m, d));
    let year = if m <= 2 {
        y - 1
    } else {
        y
    };
    assert(m <= 2 <==> mp >= 10);
    assert(year == yoe + era * 400);
    assert(year / 400 == era);
    assert((m + 9) % 12 == mp);
}

/// Whether `y` is a leap year of the Gregorian calendar.
pub open spec fn is_leap(y: int) -> bool {
    y % 4 == 0 && (y % 100 != 0 || y % 400 == 0)
}

/// The number of days of month `m` in year `y`.
pub open spec fn days_in_month(y: int, m: int) -> int {
    if m == 2 {
        if is_leap(y) {
            29
        } else {
            28
        }
    } else if m == 4 || m == 6 || m == 9 || m == 11 {
        30
    } else {
        31
    }
}

/// The date of a day is a date of the calendar: its day does not go beyond
/// the length of its month, 29 February being had in leap years only.
#[verifier::rlimit(60)]
pub proof fn lemma_civil_valid(z: int)
    ensures
        1 <= civil_spec(z).1 <= 12,
        1 <= civil_spec(z).2 <= days_in_month(civil_spec(z).0, civil_spec(z).1),
{
    let shifted = z + 719_468;
    let era = shifted / 146_097;
    let doe = shifted - era * 146_097;
    assert(0 <= doe <= 146_096);
    let yoe = (doe - doe / 1_460 + doe / 36_524 - doe / 146_096) / 365;
    assert(0 <= yoe <= 399);
    let doy = doe - (365 * yoe + yoe / 4 - yoe / 100);
    assert(0 <= doy <= 365);
    let mp = (5 * doy + 2) / 153;
    assert(0 <= mp <= 11);
    let d = doy - (153 * mp + 2) / 5 + 1;
    let m = (mp + 2) % 12 + 1;
    let y = if mp >= 10 {
        yoe + era * 400 + 1
    } else {
        yoe + era * 400
    };
    assert(civil_spec(z) == (y, m, d));
    if mp == 11 {
        assert(m == 2);
        assert(d == doy - 336);
        if doy == 365 {
            lemma_last_day_of_era_year(doe);
            assert((yoe + 1) % 4 == 0);
            assert(y == yoe + 1 + era * 400);
            assert(y % 4 == (yoe + 1) % 4);
            assert(y % 100 == (yoe + 1) % 100);
            assert(y % 400 == (yoe + 1) % 400);
        }
    }
}

/// Only a year before a leap year has a day 365 after its 1 March.
#[verifier::rlimit(60)]
proof fn lemma_last_day_of_era_year(doe: int)
    requires
        0 <= doe <= 146_096,
    ensures
        ({
            let yoe = (doe - doe / 1_460 + doe / 36_524 - doe / 146_096) / 365;
            doe - (365 * yoe + yoe / 4 - yoe / 100) == 365 ==> (yoe + 1) % 4 == 0 && ((yoe + 1)
                % 100 != 0 || yoe + 1 == 400)
        }),
{
    let yoe = (doe - doe / 1_460 + doe / 36_524 - doe / 146_096) / 365;
    let c = yoe / 100;
    assert(0 <= c <= 3);
    let q = yoe / 4;
    assert(0 <= q <= 99);
}

/// Every date of the calendar is the date of the day that `days_from_civil`
/// gives for it.
#[verifier::rlimit(60)]
pub proof fn lemma_days_round_trip(y: int, m: int, d: int)
    requires
        1 <= m <= 12,
        1 <= d <= days_in_month(y, m),
    ensures
        civil_spec(days_from_civil(y, m, d)) == (y, m, d),
{
    let year = if m <= 2 {
        y - 1
    } else {
        y
    };
    let era = year / 400;
    let yoe = year - era * 400;
    assert(0 <= yoe <= 399);
    let mp = (m + 9) % 12;
    assert(0 <= mp <= 11);
    let doy = (153 * mp + 2) / 5 + d - 1;
    assert(y % 4 == (yoe + (if m <= 2 { 1int } else { 0int })) % 4);
    assert(y % 100 == (yoe + (if m <= 2 { 1int } else { 0int })) % 100);
    assert(y % 400 == (yoe + (if m <= 2 { 1int } else { 0int })) % 400);
    assert(0 <= doy <= 365);
    assert(doy == 365 ==> (yoe + 1) % 4 == 0 && ((yoe + 1) % 100 != 0 || yoe + 1 == 400));
    let doe = yoe * 365 + yoe / 4 - yoe / 100 + doy;
    assert(0 <= doe <= 146_096);
    let z = era * 146_097 + doe - 719_468;
    assert((z + 719_468) / 146_097 == era);
    lemma_year_of_era(yoe, doy);
    assert((5 * doy + 2) / 153 == mp);
}

/// The year within the era is found again from the day within the era.
#[verifier::rlimit(60)]
proof fn lemma_year_of_era(yoe: int, doy: int)
    requires
        0 <= yoe <= 399,
        0 <= doy <= 365,
        doy == 365 ==> (yoe + 1) % 4 == 0 && ((yoe + 1) % 100 != 0 || yoe + 1 == 400),
    ensures
        ({
            let doe = yoe * 365 + yoe / 4 - yoe / 100 + doy;
            (doe - doe / 1_460 + doe / 36_524 - doe / 146_096) / 365 == yoe
        }),
{
    let doe = yoe * 365 + yoe / 4 - yoe / 100 + doy;
    let c = yoe / 100;
    assert(0 <= c <= 3);
    let q = yoe / 4;
    assert(0 <= q <= 99);
}

/// Day of the month, from 1, of a timestamp.
pub open spec fn monthday_of(t: u64) -> int {
    civil_spec(day_of(t)).2
}

/// The weekday of `t`, 0 for Sunday.
pub fn weekday_index(t: u64) -> (w: usize)
    ensures
        w == weekday_of(t),
        w < 7,
{
    let day: u64 = t / 86_400;
    ((day + 4) % 7) as usize
}

/// The hour of the day of `t`.
pub fn hour_index(t: u64) -> (h: usize)
    ensures
        h == hour_of(t),
        h < 24,
{
    ((t / 3_600) % 24) as usize
}

/// The era of the day `shifted` (counted from 1 March of year 0), and the
/// day's place in its era.
#[verifier::rlimit(60)]
fn split_era(shifted: i128) -> (r: (i128, u64))
    requires
        -0x8000_0000_0000_0000 <= shifted <= 0x8000_0000_0000_0000 + 719_468,
    ensures
        r.0 == shifted / 146_097,
        r.1 == shifted - (shifted / 146_097) * 146_097,
        r.1 <= 146_096,
{
    let era: i128 = if shifted >= 0 {
        shifted / 146_097
    } else {
        -((146_096 - shifted) / 146_097)
    };
    let doe: i128 = shifted - era * 146_097;
    (era, doe as u64)
}

/// The year within its era of the day at place `doe` of the era.
#[verifier::rlimit(60)]
fn year_of_era(doe: u64) -> (yoe: u64)
    requires
        doe <= 146_096,
    ensures
        yoe == (doe - doe / 1_460 + doe / 36_524 - doe / 146_096) / 365,
        yoe <= 399,
        365 * yoe + yoe / 4 - yoe / 100 <= doe,
        doe - (365 * yoe + yoe / 4 - yoe / 100) <= 365,
{
    (doe - doe / 1_460 + doe / 36_524 - doe / 146_096) / 365
}

/// The civil date of Unix day `z`, which may be negative.
pub fn civil_from_days(z: i64) -> (r: (i64, u32, u32))
    ensures
        (r.0 as int, r.1 as int, r.2 as int) == civil_spec(z as int),
        1 <= r.1 <= 12,
        1 <= r.2 <= 31,
{
    let (era, doe) = split_era(z as i128 + 719_468);
    let yoe = year_of_era(doe);
    let doy: u64 = doe - (365 * yoe + yoe / 4 - yoe / 100);
    let mp: u64 = (5 * doy + 2) / 153;
    let day: u64 = doy - (153 * mp + 2) / 5 + 1;
    let month: u64 = (mp + 2) % 12 + 1;
    let year: i128 = yoe as i128 + era * 400;
    let y: i128 = if mp >= 10 {
        year + 1
    } else {
        year
    };
    (y as i64, month as u32, day as u32)
}

/// The civil date, in UTC, of the timestamp `t`.
pub fn ymd_from_unix(t: u64) -> (r: (i64, u32, u32))
    ensures
        (r.0 as int, r.1 as int, r.2 as int) == civil_spec(day_of(t)),
        r.2 == monthday_of(t),
        1 <= r.1 <= 12,
        1 <= r.2 <= 31,
{
    let days: i64 = (t / 86_400) as i64;
    civil_from_days(days)
}

// ---------------------------------------------------------------------------
// Weeks
// ---------------------------------------------------------------------------

/// Seconds in one week.
pub const WEEK: u64 = 604_800;

/// The last second of the week that holds `now`. Weeks are counted from the
/// Unix epoch, so a week begins where the time is a multiple of `WEEK`; the
/// result stays within `u64`.
pub open spec fn aligned_end(now: u64) -> int {
    let end = now - now % 604_800 + 604_799;
    if end > u64::MAX {
        u64::MAX as int
    } else {
        end
    }
}

/// The first second of the window of `weeks` weeks that ends at
/// `aligned_end(now)`; both the span and the start stay within `u64`.
pub open spec fn window_start(weeks: nat, now: u64) -> int {
    let span: int = if weeks * 604_800 > u64::MAX {
        u64::MAX as int
    } else {
        (weeks * 604_800) as int
    };
    let back = if span >= 1 {
        span - 1
    } else {
        0
    };
    if aligned_end(now) - back < 0 {
        0
    } else {
        aligned_end(now) - back
    }
}

/// Whether `t` lies in the last `weeks` weeks, the week of `now` included.
pub open spec fn in_window(t: u64, weeks: nat, now: u64) -> bool {
    weeks > 0 && window_start(weeks, now) <= t <= aligned_end(now)
}

/// How many whole weeks `t` lies before the end of the week of `now`.
pub open spec fn week_offset(t: u64, now: u64) -> int {
    (aligned_end(now) - t) / 604_800
}

/// The column of `t` in a row of `weeks` weeks that ends with the week of
/// `now`, oldest first; negative where `t` lies before the first of them, and
/// `weeks` where it lies after the last.
pub open spec fn week_column(t: u64, weeks: nat, now: u64) -> int {
    if t > aligned_end(now) {
        weeks as int
    } else {
        weeks - 1 - week_offset(t, now)
    }
}

/// A timestamp in the window has a column between 0 and `weeks`.
pub proof fn lemma_window_column(t: u64, weeks: nat, now: u64)
    requires
        in_window(t, weeks, now),
    ensures
        0 <= week_column(t, weeks, now) < weeks,
{
}

/// Where the span of `weeks` weeks fits 64 bits, the window holds just the
/// timestamps that have a column.
pub proof fn lemma_column_window(t: u64, weeks: nat, now: u64)
    requires
        weeks * 604_800 <= u64::MAX,
    ensures
        in_window(t, weeks, now) <==> 0 <= week_column(t, weeks, now) < weeks,
{
}

/// The end of the week that holds `now`.
pub fn week_end(now: u64) -> (end: u64)
    ensures
        end == aligned_end(now),
{
    let start: u64 = now - (now % WEEK);
    start.saturating_add(WEEK - 1)
}

/// The start of the window of `weeks` weeks that ends with the week of `now`.
pub fn window_first(weeks: usize, now: u64) -> (start: u64)
    ensures
        start == window_start(weeks as nat, now),
{
    let end = week_end(now);
    let span: u64 = match (weeks as u64).checked_mul(WEEK) {
        Some(s) => s,
        None => u64::MAX,
    };
    end.saturating_sub(span.saturating_sub(1))
}

/// The column of `t` among `weeks` weeks that end with the week of `now`,
/// where it has one.
pub fn column_of(t: u64, weeks: usize, now: u64) -> (col: Option<usize>)
    ensures
        match col {
            Some(c) => c == week_column(t, weeks as nat, now) && c < weeks,
            None => !(0 <= week_column(t, weeks as nat, now) < weeks),
        },
{
    let end = week_end(now);
    if t > end {
        return None;
    }
    let offset: u64 = (end - t) / WEEK;
    if offset < weeks as u64 {
        Some(weeks - 1 - offset as usize)
    } else {
        None
    }
}

} // verus!
