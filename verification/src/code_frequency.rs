//! Commit frequency: how a set of commit timestamps spreads over the hours of
//! the day, the days of the week and the days of the month.

use vstd::prelude::*;
use crate::civil::{
    day_of, hour_index, hour_of, in_window, lemma_civil_ranges, monthday_of, week_end, weekday_index,
    weekday_of, window_first, ymd_from_unix,
};

verus! {

/// What a histogram groups commits by.
#[derive(Clone, Copy, Debug)]
pub enum Group {
    HourOfDay,
    DayOfWeek,
    DayOfMonth,
}

/// What the rows of a heatmap are; its columns are the hours of the day.
#[derive(Clone, Copy, Debug)]
pub enum HeatmapKind {
    DowByHod,
    DomByHod,
}

impl Group {
    /// The bucket, counted from 0, that the timestamp `t` falls in.
    pub open spec fn bucket(self, t: u64) -> int {
        match self {
            Group::HourOfDay => hour_of(t),
            Group::DayOfWeek => weekday_of(t),
            Group::DayOfMonth => monthday_of(t) - 1,
        }
    }

    /// The number of buckets.
    pub open spec fn buckets(self) -> nat {
        match self {
            Group::HourOfDay => 24,
            Group::DayOfWeek => 7,
            Group::DayOfMonth => 31,
        }
    }
}

/// Whether the lookback `weeks` keeps the timestamp `t`: without a lookback
/// every timestamp is kept, with one those of the last `weeks` weeks.
pub open spec fn in_lookback(t: u64, weeks: Option<usize>, now: u64) -> bool {
    match weeks {
        None => true,
        Some(w) => in_window(t, w as nat, now),
    }
}

/// The timestamps of `ts` that the lookback `weeks` keeps, in their order.
pub open spec fn lookback(ts: Seq<u64>, weeks: Option<usize>, now: u64) -> Seq<u64>
    decreases ts.len(),
{
    if ts.len() == 0 {
        Seq::empty()
    } else {
        let rest = lookback(ts.drop_last(), weeks, now);
        if in_lookback(ts.last(), weeks, now) {
            rest.push(ts.last())
        } else {
            rest
        }
    }
}

/// The timestamps that the lookback keeps: all of them without one, those of
/// the last `weeks` weeks (the week of `now` included) with one, none for a
/// lookback of no weeks.
pub fn filter_by_weeks(timestamps: &[u64], weeks: Option<usize>, now: u64) -> (kept: Vec<u64>)
    ensures
        kept@ == lookback(timestamps@, weeks, now),
        weeks == Some(0usize) ==> kept@.len() == 0,
{
    let mut kept: Vec<u64> = Vec::new();
    let (first, last): (u64, u64) = match weeks {
        Some(w) => {
            if w == 0 {
                (1, 0)
            } else {
                (window_first(w, now), week_end(now))
            }
        },
        None => (0, u64::MAX),
    };
    let mut i: usize = 0;
    while i < timestamps.len()
        invariant
            i <= timestamps.len(),
            kept@ == lookback(timestamps@.take(i as int), weeks, now),
            forall|t: u64| in_lookback(t, weeks, now) <==> first <= t <= last,
            weeks == Some(0usize) ==> kept@.len() == 0,
        decreases timestamps.len() - i,
    {
        let t = timestamps[i];
        proof {
            assert(timestamps@.take(i + 1).drop_last() == timestamps@.take(i as int));
            assert(in_lookback(t, weeks, now) <==> first <= t <= last);
        }
        if first <= t && t <= last {
            kept.push(t);
        }
        i += 1;
    }
    assert(timestamps@.take(timestamps.len() as int) == timestamps@);
    kept
}

/// How many of the timestamps `ts` fall in bucket `k` of `group`.
pub open spec fn count_bucket(ts: Seq<u64>, group: Group, k: int) -> nat
    decreases ts.len(),
{
    if ts.len() == 0 {
        0
    } else {
        count_bucket(ts.drop_last(), group, k) + if group.bucket(ts.last()) == k {
            1nat
        } else {
            0nat
        }
    }
}

/// How many of the timestamps `ts` fall in bucket `row` of `group` and in hour `hour`.
pub open spec fn count_cell(ts: Seq<u64>, group: Group, row: int, hour: int) -> nat
    decreases ts.len(),
{
    if ts.len() == 0 {
        0
    } else {
        count_cell(ts.drop_last(), group, row, hour) + if group.bucket(ts.last()) == row
            && hour_of(ts.last()) == hour {
            1nat
        } else {
            0nat
        }
    }
}

/// The counts of the first `n` buckets of `group` together.
pub open spec fn sum_buckets(ts: Seq<u64>, group: Group, n: nat) -> nat
    decreases n,
{
    if n == 0 {
        0
    } else {
        sum_buckets(ts, group, (n - 1) as nat) + count_bucket(ts, group, n - 1)
    }
}

/// Every timestamp falls in one of the buckets of its group.
pub proof fn lemma_bucket_range(group: Group, t: u64)
    ensures
        0 <= group.bucket(t) < group.buckets(),
{
    lemma_civil_ranges(day_of(t));
}

/// One timestamp more adds one to the counts together, if it falls in one of the buckets.
pub proof fn lemma_sum_buckets_step(ts: Seq<u64>, group: Group, n: nat)
    requires
        ts.len() > 0,
    ensures
        sum_buckets(ts, group, n) == sum_buckets(ts.drop_last(), group, n) + if 0
            <= group.bucket(ts.last()) < n {
            1nat
        } else {
            0nat
        },
    decreases n,
{
    if n > 0 {
        lemma_sum_buckets_step(ts, group, (n - 1) as nat);
    }
}

/// Histogram totals: the counts of all buckets together are the number of
/// timestamps, whatever the timestamps are; for no timestamps every bucket
/// is empty.
pub proof fn lemma_histogram_total(ts: Seq<u64>, group: Group)
    ensures
        sum_buckets(ts, group, group.buckets()) == ts.len(),
        ts.len() == 0 ==> forall|k: int| count_bucket(ts, group, k) == 0,
    decreases ts.len(),
{
    if ts.len() == 0 {
        lemma_sum_buckets_zero(ts, group, group.buckets());
    } else {
        lemma_histogram_total(ts.drop_last(), group);
        lemma_sum_buckets_step(ts, group, group.buckets());
        lemma_bucket_range(group, ts.last());
    }
}

/// Without timestamps the counts together are none.
pub proof fn lemma_sum_buckets_zero(ts: Seq<u64>, group: Group, n: nat)
    requires
        ts.len() == 0,
    ensures
        sum_buckets(ts, group, n) == 0,
    decreases n,
{
    if n > 0 {
        lemma_sum_buckets_zero(ts, group, (n - 1) as nat);
    }
}

/// Histogram totals under a lookback: the counts of all buckets together
/// are the number of timestamps that the lookback keeps.
pub proof fn lemma_lookback_total(ts: Seq<u64>, weeks: Option<usize>, now: u64, group: Group)
    ensures
        sum_buckets(lookback(ts, weeks, now), group, group.buckets()) == lookback(
            ts,
            weeks,
            now,
        ).len(),
        lookback(ts, weeks, now).len() <= ts.len(),
        weeks == Some(0usize) ==> lookback(ts, weeks, now).len() == 0,
    decreases ts.len(),
{
    lemma_histogram_total(lookback(ts, weeks, now), group);
    if ts.len() > 0 {
        lemma_lookback_total(ts.drop_last(), weeks, now, group);
    }
}

/// The sum of the counts in `s`.
pub open spec fn total(s: Seq<usize>) -> nat
    decreases s.len(),
{
    if s.len() == 0 {
        0
    } else {
        total(s.drop_last()) + s.last() as nat
    }
}

/// Changing one count changes the sum by the difference.
pub proof fn lemma_total_update(s: Seq<usize>, k: int, v: usize)
    requires
        0 <= k < s.len(),
    ensures
        total(s.update(k, v)) + s[k] == total(s) + v,
    decreases s.len(),
{
    if k == s.len() - 1 {
        assert(s.update(k, v).drop_last() == s.drop_last());
    } else {
        assert(s.update(k, v).drop_last() == s.drop_last().update(k, v));
        lemma_total_update(s.drop_last(), k, v);
    }
}

/// Counts that are all zero sum to zero.
pub proof fn lemma_total_zero(s: Seq<usize>)
    requires
        forall|k: int| 0 <= k < s.len() ==> s[k] == 0,
    ensures
        total(s) == 0,
    decreases s.len(),
{
    if s.len() > 0 {
        lemma_total_zero(s.drop_last());
    }
}

/// A bucket holds no more timestamps than there are.
pub proof fn lemma_count_bucket_bound(ts: Seq<u64>, group: Group, k: int)
    ensures
        count_bucket(ts, group, k) <= ts.len(),
    decreases ts.len(),
{
    if ts.len() > 0 {
        lemma_count_bucket_bound(ts.drop_last(), group, k);
    }
}

/// A cell holds no more timestamps than there are.
pub proof fn lemma_count_cell_bound(ts: Seq<u64>, group: Group, row: int, hour: int)
    ensures
        count_cell(ts, group, row, hour) <= ts.len(),
    decreases ts.len(),
{
    if ts.len() > 0 {
        lemma_count_cell_bound(ts.drop_last(), group, row, hour);
    }
}

/// The sum of the counts in the rows of `g`.
pub open spec fn grid_total(g: Seq<[usize; 24]>) -> nat
    decreases g.len(),
{
    if g.len() == 0 {
        0
    } else {
        grid_total(g.drop_last()) + total(g.last()@)
    }
}

/// Changing one row changes the sum of the grid by the difference of the row sums.
pub proof fn lemma_grid_total_update(g: Seq<[usize; 24]>, r: int, row: [usize; 24])
    requires
        0 <= r < g.len(),
    ensures
        grid_total(g.update(r, row)) + total(g[r]@) == grid_total(g) + total(row@),
    decreases g.len(),
{
    if r == g.len() - 1 {
        assert(g.update(r, row).drop_last() == g.drop_last());
    } else {
        assert(g.update(r, row).drop_last() == g.drop_last().update(r, row));
        lemma_grid_total_update(g.drop_last(), r, row);
    }
}

/// A grid of zeros sums to zero.
pub proof fn lemma_grid_total_zero(g: Seq<[usize; 24]>)
    requires
        forall|r: int, h: int| 0 <= r < g.len() && 0 <= h < 24 ==> g[r]@[h] == 0,
    ensures
        grid_total(g) == 0,
    decreases g.len(),
{
    if g.len() > 0 {
        lemma_grid_total_zero(g.drop_last());
        lemma_total_zero(g.last()@);
    }
}

impl Group {
    /// The bucket of `group` that `t` falls in.
    pub fn bucket_index(self, t: u64) -> (k: usize)
        ensures
            k == self.bucket(t),
            k < self.buckets(),
    {
        match self {
            Group::HourOfDay => hour_index(t),
            Group::DayOfWeek => weekday_index(t),
            Group::DayOfMonth => {
                let (_, _, d) = ymd_from_unix(t);
                (d - 1) as usize
            },
        }
    }
}

/// Commits per bucket of `group`, which has `N` buckets.
fn histogram<const N: usize>(timestamps: &[u64], group: Group) -> (bins: [usize; N])
    requires
        N == group.buckets(),
    ensures
        forall|k: int| 0 <= k < N ==> bins@[k] == count_bucket(timestamps@, group, k),
        total(bins@) == timestamps@.len(),
{
    let mut bins = [0usize; N];
    let mut i: usize = 0;
    proof {
        lemma_total_zero(bins@);
    }
    while i < timestamps.len()
        invariant
            i <= timestamps.len(),
            N == group.buckets(),
            forall|k: int|
                0 <= k < N ==> bins@[k] == count_bucket(timestamps@.take(i as int), group, k),
            total(bins@) == i,
        decreases timestamps.len() - i,
    {
        let t = timestamps[i];
        let k = group.bucket_index(t);
        proof {
            lemma_count_bucket_bound(timestamps@.take(i as int), group, k as int);
            lemma_total_update(bins@, k as int, (bins@[k as int] + 1) as usize);
            assert(timestamps@.take(i + 1).drop_last() == timestamps@.take(i as int));
        }
        bins[k] += 1;
        i += 1;
    }
    assert(timestamps@.take(timestamps.len() as int) == timestamps@);
    bins
}

/// Commits per hour of the day, in UTC.
pub fn histogram_hour_of_day(timestamps: &[u64]) -> (bins: [usize; 24])
    ensures
        forall|k: int| 0 <= k < 24 ==> bins@[k] == count_bucket(timestamps@, Group::HourOfDay, k),
        total(bins@) == timestamps@.len(),
{
    histogram::<24>(timestamps, Group::HourOfDay)
}

/// Commits per day of the week, Sunday first.
pub fn histogram_day_of_week(timestamps: &[u64]) -> (bins: [usize; 7])
    ensures
        forall|k: int| 0 <= k < 7 ==> bins@[k] == count_bucket(timestamps@, Group::DayOfWeek, k),
        total(bins@) == timestamps@.len(),
{
    histogram::<7>(timestamps, Group::DayOfWeek)
}

/// Commits per day of the month; bucket 0 is the first of the month.
pub fn histogram_day_of_month(timestamps: &[u64]) -> (bins: [usize; 31])
    ensures
        forall|k: int| 0 <= k < 31 ==> bins@[k] == count_bucket(timestamps@, Group::DayOfMonth, k),
        total(bins@) == timestamps@.len(),
{
    histogram::<31>(timestamps, Group::DayOfMonth)
}

/// Commits per bucket of `group` (the rows, `R` of them) and hour of the day.
fn heatmap<const R: usize>(timestamps: &[u64], group: Group) -> (grid: [[usize; 24]; R])
    requires
        R == group.buckets(),
    ensures
        forall|r: int, h: int|
            0 <= r < R && 0 <= h < 24 ==> grid@[r]@[h] == count_cell(timestamps@, group, r, h),
        grid_total(grid@) == timestamps@.len(),
{
    let mut grid = [[0usize; 24]; R];
    let mut i: usize = 0;
    proof {
        lemma_grid_total_zero(grid@);
    }
    while i < timestamps.len()
        invariant
            i <= timestamps.len(),
            R == group.buckets(),
            forall|r: int, h: int|
                0 <= r < R && 0 <= h < 24 ==> grid@[r]@[h] == count_cell(
                    timestamps@.take(i as int),
                    group,
                    r,
                    h,
                ),
            grid_total(grid@) == i,
        decreases timestamps.len() - i,
    {
        let t = timestamps[i];
        let r = group.bucket_index(t);
        let h = hour_index(t);
        let ghost before = grid@;
        proof {
            lemma_count_cell_bound(timestamps@.take(i as int), group, r as int, h as int);
            assert(timestamps@.take(i + 1).drop_last() == timestamps@.take(i as int));
        }
        grid[r][h] += 1;
        proof {
            let row = grid@[r as int];
            assert(row@ == before[r as int]@.update(h as int, (before[r as int]@[h as int] + 1) as usize));
            lemma_total_update(before[r as int]@, h as int, (before[r as int]@[h as int] + 1) as usize);
            assert(grid@ == before.update(r as int, row));
            lemma_grid_total_update(before, r as int, row);
            let done = timestamps@.take(i as int);
            let next = timestamps@.take(i + 1);
            assert forall|r2: int, h2: int| 0 <= r2 < R && 0 <= h2 < 24 implies grid@[r2]@[h2]
                == count_cell(next, group, r2, h2) by {
                assert(before[r2]@[h2] == count_cell(done, group, r2, h2));
                assert(next.drop_last() == done);
                assert(next.last() == t);
            }
        }
        i += 1;
    }
    assert(timestamps@.take(timestamps.len() as int) == timestamps@);
    grid
}

/// Commits per day of the week (rows, Sunday first) and hour of the day.
pub fn heatmap_dow_by_hod(timestamps: &[u64]) -> (grid: [[usize; 24]; 7])
    ensures
        forall|r: int, h: int|
            0 <= r < 7 && 0 <= h < 24 ==> grid@[r]@[h] == count_cell(
                timestamps@,
                Group::DayOfWeek,
                r,
                h,
            ),
        grid_total(grid@) == timestamps@.len(),
{
    heatmap::<7>(timestamps, Group::DayOfWeek)
}

/// Commits per day of the month (rows, the first of the month first) and hour
/// of the day.
pub fn heatmap_dom_by_hod(timestamps: &[u64]) -> (grid: [[usize; 24]; 31])
    ensures
        forall|r: int, h: int|
            0 <= r < 31 && 0 <= h < 24 ==> grid@[r]@[h] == count_cell(
                timestamps@,
                Group::DayOfMonth,
                r,
                h,
            ),
        grid_total(grid@) == timestamps@.len(),
{
    heatmap::<31>(timestamps, Group::DayOfMonth)
}

// ---------------------------------------------------------------------------
// Shades
// ---------------------------------------------------------------------------

/// The shade, from 0 to `levels - 1`, in which a count of `v` is drawn where
/// the greatest count is `max`: 0 for no commits (and where there is no
/// greatest count or only one shade), otherwise a shade from 1 on that grows
/// with `v`.
pub open spec fn intensity(v: nat, max: nat, levels: nat) -> nat {
    if max == 0 || v == 0 || levels <= 1 {
        0
    } else {
        let l = (levels - 1) as nat;
        let idx = ((v - 1) * l) / max as int + 1;
        if idx < l {
            idx as nat
        } else {
            l
        }
    }
}

/// The shade in which a count of `v` is drawn, as `intensity` defines it.
pub fn intensity_index(v: usize, max: usize, levels: usize) -> (idx: usize)
    ensures
        idx == intensity(v as nat, max as nat, levels as nat),
{
    if max == 0 || v == 0 || levels <= 1 {
        return 0;
    }
    let l: usize = levels - 1;
    assert((v - 1) * l <= 0xFFFF_FFFF_FFFF_FFFF * 0xFFFF_FFFF_FFFF_FFFF) by (nonlinear_arith)
        requires
            0 <= v - 1 <= 0xFFFF_FFFF_FFFF_FFFF,
            0 <= l <= 0xFFFF_FFFF_FFFF_FFFF,
    ;
    let scaled: u128 = ((v - 1) as u128 * l as u128) / (max as u128);
    if scaled + 1 < l as u128 {
        (scaled + 1) as usize
    } else {
        l
    }
}

/// The colour codes of the rich palette, from dim over cool to warm.
pub const RICH_0: &'static str = "\x1b[90m";

pub const RICH_1: &'static str = "\x1b[34m";

pub const RICH_2: &'static str = "\x1b[94m";

pub const RICH_3: &'static str = "\x1b[36m";

pub const RICH_4: &'static str = "\x1b[96m";

pub const RICH_5: &'static str = "\x1b[32m";

pub const RICH_6: &'static str = "\x1b[92m";

pub const RICH_7: &'static str = "\x1b[33m";

pub const RICH_8: &'static str = "\x1b[93m";

pub const RICH_9: &'static str = "\x1b[35m";

pub const RICH_10: &'static str = "\x1b[95m";

pub const RICH_11: &'static str = "\x1b[91m";

/// The colour code at place `k` of the rich palette, which has 12 places.
pub open spec fn rich_palette(k: int) -> Seq<char> {
    if k <= 0 {
        RICH_0@
    } else if k == 1 {
        RICH_1@
    } else if k == 2 {
        RICH_2@
    } else if k == 3 {
        RICH_3@
    } else if k == 4 {
        RICH_4@
    } else if k == 5 {
        RICH_5@
    } else if k == 6 {
        RICH_6@
    } else if k == 7 {
        RICH_7@
    } else if k == 8 {
        RICH_8@
    } else if k == 9 {
        RICH_9@
    } else if k == 10 {
        RICH_10@
    } else {
        RICH_11@
    }
}

/// The place in the rich palette of shade `idx` out of `levels` shades: the
/// shades are spread evenly over the palette, the last shade on its last
/// place.
pub open spec fn rich_place(idx: nat, levels: nat) -> int {
    if levels <= 1 {
        0
    } else if idx >= levels - 1 {
        11
    } else {
        ((idx * 11) as int) / ((levels - 1) as int)
    }
}

/// The colour code of shade `idx` out of `levels` shades.
pub fn color_for_level_rich(idx: usize, levels: usize) -> (code: &'static str)
    ensures
        code@ == rich_palette(rich_place(idx as nat, levels as nat)),
{
    if levels <= 1 {
        return RICH_0;
    }
    let k: u128 = if idx >= levels - 1 {
        11
    } else {
        (idx as u128 * 11) / ((levels - 1) as u128)
    };
    if k == 0 {
        RICH_0
    } else if k == 1 {
        RICH_1
    } else if k == 2 {
        RICH_2
    } else if k == 3 {
        RICH_3
    } else if k == 4 {
        RICH_4
    } else if k == 5 {
        RICH_5
    } else if k == 6 {
        RICH_6
    } else if k == 7 {
        RICH_7
    } else if k == 8 {
        RICH_8
    } else if k == 9 {
        RICH_9
    } else if k == 10 {
        RICH_10
    } else {
        RICH_11
    }
}

/// The length of the bar that stands for a count of `c`, where the greatest
/// count `max` gets a bar of `width`: the share of `c` in `max`, rounded up;
/// nothing where there is no greatest count.
pub open spec fn bar_cells(c: nat, max: nat, width: nat) -> nat {
    if max == 0 {
        0
    } else {
        ((c * width + max - 1) / max as int) as nat
    }
}

/// The length of the bar for a count of `c`, as `bar_cells` defines it.
pub fn bar_length(c: usize, max: usize, width: usize) -> (n: usize)
    requires
        c <= max,
    ensures
        n == bar_cells(c as nat, max as nat, width as nat),
        n <= width,
{
    if max == 0 {
        return 0;
    }
    assert(c * width <= 0xFFFF_FFFF_FFFF_FFFF * 0xFFFF_FFFF_FFFF_FFFF) by (nonlinear_arith)
        requires
            0 <= c <= 0xFFFF_FFFF_FFFF_FFFF,
            0 <= width <= 0xFFFF_FFFF_FFFF_FFFF,
    ;
    let n: u128 = (c as u128 * width as u128 + (max as u128 - 1)) / (max as u128);
    assert(n <= width) by (nonlinear_arith)
        requires
            n == (c * width + (max - 1)) / (max as int),
            0 <= c <= max,
            max > 0,
            width >= 0,
    ;
    n as usize
}

/// The place on a ramp of `steps` signs of a count of `c`, where the
/// greatest count is `max`: the share of `c` in `max`, spread over the ramp
/// and rounded down.
pub open spec fn ramp_place(c: nat, max: nat, steps: nat) -> nat {
    if max == 0 || steps == 0 {
        0
    } else {
        ((c * (steps - 1)) / max as int) as nat
    }
}

/// The place on a ramp of a count of `c`, as `ramp_place` defines it.
pub fn ramp_index(c: usize, max: usize, steps: usize) -> (k: usize)
    requires
        c <= max,
    ensures
        k == ramp_place(c as nat, max as nat, steps as nat),
        steps > 0 ==> k < steps,
{
    if max == 0 || steps == 0 {
        return 0;
    }
    let s: usize = steps - 1;
    assert(c * s <= 0xFFFF_FFFF_FFFF_FFFF * 0xFFFF_FFFF_FFFF_FFFF) by (nonlinear_arith)
        requires
            0 <= c <= 0xFFFF_FFFF_FFFF_FFFF,
            0 <= s <= 0xFFFF_FFFF_FFFF_FFFF,
    ;
    let k: u128 = (c as u128 * s as u128) / (max as u128);
    assert(k <= s) by (nonlinear_arith)
        requires
            k == (c * s) / (max as int),
            0 <= c <= max,
            max > 0,
            s >= 0,
    ;
    k as usize
}

/// The greatest of the counts `s`; 0 where there are none.
pub open spec fn greatest(s: Seq<usize>) -> nat
    decreases s.len(),
{
    if s.len() == 0 {
        0
    } else if s.last() > greatest(s.drop_last()) {
        s.last() as nat
    } else {
        greatest(s.drop_last())
    }
}

/// No count is greater than the greatest.
pub proof fn lemma_greatest_bound(s: Seq<usize>, i: int)
    requires
        0 <= i < s.len(),
    ensures
        s[i] <= greatest(s),
    decreases s.len(),
{
    if i < s.len() - 1 {
        lemma_greatest_bound(s.drop_last(), i);
    }
}

/// The greatest of `counts`.
pub fn max_count(counts: &[usize]) -> (m: usize)
    ensures
        m == greatest(counts@),
        forall|i: int| 0 <= i < counts@.len() ==> counts@[i] <= m,
{
    let mut m: usize = 0;
    let mut i: usize = 0;
    while i < counts.len()
        invariant
            i <= counts.len(),
            m == greatest(counts@.take(i as int)),
        decreases counts.len() - i,
    {
        assert(counts@.take(i + 1).drop_last() == counts@.take(i as int));
        if counts[i] > m {
            m = counts[i];
        }
        i += 1;
    }
    proof {
        assert(counts@.take(counts.len() as int) == counts@);
        assert forall|i: int| 0 <= i < counts@.len() implies counts@[i] <= m by {
            lemma_greatest_bound(counts@, i);
        }
    }
    m
}

} // verus!
