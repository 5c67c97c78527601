//! Commit activity over time: weekly timelines and calendar heatmaps, and the
//! numbers behind how they are drawn.

use vstd::prelude::*;
use crate::civil::{
    column_of, in_window, lemma_column_window, lemma_window_column, week_column, week_end,
    weekday_index, weekday_of, window_first,
};
use crate::code_frequency::{Group, count_cell, grid_total, heatmap_dow_by_hod, total, lemma_total_update, lemma_total_zero};
use crate::text::{chars_of, lines, seqs, split_lines, trim, trim_vec, parse_unsigned, parse_u64};

verus! {

/// The timestamps that the lines `ls` hold, in their order: a line counts
/// where, without the white space around it, it writes a number of at most 64
/// bits; any other line is passed over.
pub open spec fn timestamps_in(ls: Seq<Seq<char>>) -> Seq<u64>
    decreases ls.len(),
{
    if ls.len() == 0 {
        Seq::empty()
    } else {
        let rest = timestamps_in(ls.drop_last());
        match parse_unsigned(trim(ls.last()), u64::MAX as nat) {
            Some(n) => rest.push(n as u64),
            None => rest,
        }
    }
}

/// The commit times in `output`, which holds one Unix timestamp per line.
pub fn collect_commit_timestamps(output: &str) -> (ts: Vec<u64>)
    ensures
        ts@ == timestamps_in(lines(output@)),
{
    let text = chars_of(output);
    let ls = split_lines(&text);
    let mut ts: Vec<u64> = Vec::new();
    let mut i: usize = 0;
    while i < ls.len()
        invariant
            i <= ls.len(),
            ts@ == timestamps_in(seqs(ls@).take(i as int)),
        decreases ls.len() - i,
    {
        let line = trim_vec(&ls[i]);
        proof {
            assert(seqs(ls@).take(i + 1).drop_last() == seqs(ls@).take(i as int));
            assert(seqs(ls@).take(i + 1).last() == ls@[i as int]@);
        }
        match parse_u64(&line) {
            Some(n) => {
                ts.push(n);
            },
            None => {},
        }
        i += 1;
    }
    assert(seqs(ls@).take(ls.len() as int) == seqs(ls@));
    ts
}

/// How many of the timestamps `ts` fall in column `col` of a timeline of
/// `weeks` weeks that ends with the week of `now`.
pub open spec fn count_column(ts: Seq<u64>, weeks: nat, now: u64, col: int) -> nat
    decreases ts.len(),
{
    if ts.len() == 0 {
        0
    } else {
        count_column(ts.drop_last(), weeks, now, col) + if week_column(ts.last(), weeks, now)
            == col {
            1nat
        } else {
            0nat
        }
    }
}

/// How many of the timestamps `ts` fall in one of the `weeks` weeks that end
/// with the week of `now`.
pub open spec fn count_shown(ts: Seq<u64>, weeks: nat, now: u64) -> nat
    decreases ts.len(),
{
    if ts.len() == 0 {
        0
    } else {
        count_shown(ts.drop_last(), weeks, now) + if 0 <= week_column(ts.last(), weeks, now)
            < weeks {
            1nat
        } else {
            0nat
        }
    }
}

/// A column holds no more timestamps than there are.
pub proof fn lemma_count_column_bound(ts: Seq<u64>, weeks: nat, now: u64, col: int)
    ensures
        count_column(ts, weeks, now, col) <= ts.len(),
    decreases ts.len(),
{
    if ts.len() > 0 {
        lemma_count_column_bound(ts.drop_last(), weeks, now, col);
    }
}

/// `n` counts, all of them zero.
pub fn zeros(n: usize) -> (v: Vec<usize>)
    ensures
        v@.len() == n,
        forall|k: int| 0 <= k < n ==> v@[k] == 0,
        total(v@) == 0,
{
    let mut v: Vec<usize> = Vec::new();
    let mut i: usize = 0;
    while i < n
        invariant
            i <= n,
            v@.len() == i,
            forall|k: int| 0 <= k < i ==> v@[k] == 0,
        decreases n - i,
    {
        v.push(0);
        i += 1;
    }
    proof {
        lemma_total_zero(v@);
    }
    v
}

/// Commits per week over the `weeks` weeks that end with the week of `now`,
/// oldest week first. Weeks begin at multiples of `WEEK` since the epoch; a
/// commit after the end of the week of `now`, or before the first week, is
/// not counted.
pub fn compute_timeline_weeks(timestamps: &[u64], weeks: usize, now: u64) -> (counts: Vec<usize>)
    ensures
        counts@.len() == weeks,
        forall|c: int|
            0 <= c < weeks ==> counts@[c] == count_column(timestamps@, weeks as nat, now, c),
        total(counts@) == count_shown(timestamps@, weeks as nat, now),
{
    let mut counts = zeros(weeks);
    let mut i: usize = 0;
    while i < timestamps.len()
        invariant
            i <= timestamps.len(),
            counts@.len() == weeks,
            forall|c: int|
                0 <= c < weeks ==> counts@[c] == count_column(
                    timestamps@.take(i as int),
                    weeks as nat,
                    now,
                    c,
                ),
            total(counts@) == count_shown(timestamps@.take(i as int), weeks as nat, now),
        decreases timestamps.len() - i,
    {
        let t = timestamps[i];
        let ghost done = timestamps@.take(i as int);
        let ghost next = timestamps@.take(i + 1);
        let ghost before = counts@;
        proof {
            assert(next.drop_last() == done);
            assert(next.last() == t);
        }
        match column_of(t, weeks, now) {
            Some(c) => {
                proof {
                    lemma_count_column_bound(done, weeks as nat, now, c as int);
                    lemma_total_update(before, c as int, (before[c as int] + 1) as usize);
                }
                counts[c] += 1;
            },
            None => {},
        }
        proof {
            assert forall|c: int| 0 <= c < weeks implies counts@[c] == count_column(
                next,
                weeks as nat,
                now,
                c,
            ) by {
                assert(before[c] == count_column(done, weeks as nat, now, c));
            }
        }
        i += 1;
    }
    assert(timestamps@.take(timestamps.len() as int) == timestamps@);
    counts
}

/// How many of the timestamps `ts` lie in the window of `weeks` weeks that
/// ends with the week of `now`, on weekday `row` and in week `col` of it.
pub open spec fn count_day(ts: Seq<u64>, weeks: nat, now: u64, row: int, col: int) -> nat
    decreases ts.len(),
{
    if ts.len() == 0 {
        0
    } else {
        count_day(ts.drop_last(), weeks, now, row, col) + if in_window(ts.last(), weeks, now)
            && week_column(ts.last(), weeks, now) == col && weekday_of(ts.last()) == row {
            1nat
        } else {
            0nat
        }
    }
}

/// How many of the timestamps `ts` lie in the window of `weeks` weeks that
/// ends with the week of `now`.
pub open spec fn count_window(ts: Seq<u64>, weeks: nat, now: u64) -> nat
    decreases ts.len(),
{
    if ts.len() == 0 {
        0
    } else {
        count_window(ts.drop_last(), weeks, now) + if in_window(ts.last(), weeks, now) {
            1nat
        } else {
            0nat
        }
    }
}

/// Where the span of `weeks` weeks fits 64 bits, a timeline and a calendar
/// of the same weeks count the same timestamps: those of the window.
pub proof fn lemma_shown_is_window(ts: Seq<u64>, weeks: nat, now: u64)
    requires
        weeks * 604_800 <= u64::MAX,
    ensures
        count_shown(ts, weeks, now) == count_window(ts, weeks, now),
    decreases ts.len(),
{
    if ts.len() > 0 {
        lemma_shown_is_window(ts.drop_last(), weeks, now);
        lemma_column_window(ts.last(), weeks, now);
    }
}

/// The sum of the counts in the rows of `g`.
pub open spec fn rows_total(g: Seq<Vec<usize>>) -> nat
    decreases g.len(),
{
    if g.len() == 0 {
        0
    } else {
        rows_total(g.drop_last()) + total(g.last()@)
    }
}

/// Changing one row changes the sum of the grid by the difference of the row sums.
pub proof fn lemma_rows_total_update(g: Seq<Vec<usize>>, r: int, row: Vec<usize>)
    requires
        0 <= r < g.len(),
    ensures
        rows_total(g.update(r, row)) + total(g[r]@) == rows_total(g) + total(row@),
    decreases g.len(),
{
    if r == g.len() - 1 {
        assert(g.update(r, row).drop_last() == g.drop_last());
    } else {
        assert(g.update(r, row).drop_last() == g.drop_last().update(r, row));
        lemma_rows_total_update(g.drop_last(), r, row);
    }
}

/// A day holds no more timestamps than there are.
pub proof fn lemma_count_day_bound(ts: Seq<u64>, weeks: nat, now: u64, row: int, col: int)
    ensures
        count_day(ts, weeks, now, row, col) <= ts.len(),
    decreases ts.len(),
{
    if ts.len() > 0 {
        lemma_count_day_bound(ts.drop_last(), weeks, now, row, col);
    }
}

/// Commits per day over the `weeks` weeks that end with the week of `now`:
/// seven rows, Sunday first, and one column per week, oldest first. Only
/// commits inside that window are counted.
pub fn compute_calendar_heatmap(timestamps: &[u64], weeks: usize, now: u64) -> (grid: Vec<
    Vec<usize>,
>)
    ensures
        grid@.len() == 7,
        forall|r: int| 0 <= r < 7 ==> (#[trigger] grid@[r])@.len() == weeks,
        forall|r: int, c: int|
            0 <= r < 7 && 0 <= c < weeks ==> grid@[r]@[c] == count_day(
                timestamps@,
                weeks as nat,
                now,
                r,
                c,
            ),
        rows_total(grid@) == count_window(timestamps@, weeks as nat, now),
{
    let mut grid: Vec<Vec<usize>> = Vec::new();
    let mut r: usize = 0;
    while r < 7
        invariant
            r <= 7,
            grid@.len() == r,
            forall|k: int| 0 <= k < r ==> (#[trigger] grid@[k])@.len() == weeks,
            forall|k: int, c: int| 0 <= k < r && 0 <= c < weeks ==> grid@[k]@[c] == 0,
            rows_total(grid@) == 0,
        decreases 7 - r,
    {
        let row = zeros(weeks);
        proof {
            assert(grid@.push(row).drop_last() == grid@);
        }
        grid.push(row);
        r += 1;
    }
    let first: u64 = if weeks == 0 {
        1
    } else {
        window_first(weeks, now)
    };
    let end: u64 = if weeks == 0 {
        0
    } else {
        week_end(now)
    };
    let mut i: usize = 0;
    while i < timestamps.len()
        invariant
            i <= timestamps.len(),
            grid@.len() == 7,
            forall|k: int| 0 <= k < 7 ==> (#[trigger] grid@[k])@.len() == weeks,
            forall|k: int, c: int|
                0 <= k < 7 && 0 <= c < weeks ==> grid@[k]@[c] == count_day(
                    timestamps@.take(i as int),
                    weeks as nat,
                    now,
                    k,
                    c,
                ),
            rows_total(grid@) == count_window(timestamps@.take(i as int), weeks as nat, now),
            forall|t: u64| in_window(t, weeks as nat, now) <==> first <= t <= end,
        decreases timestamps.len() - i,
    {
        let t = timestamps[i];
        let ghost done = timestamps@.take(i as int);
        let ghost next = timestamps@.take(i + 1);
        let ghost before = grid@;
        proof {
            assert(next.drop_last() == done);
            assert(next.last() == t);
            assert(in_window(t, weeks as nat, now) <==> first <= t <= end);
        }
        if first <= t && t <= end {
            proof {
                lemma_window_column(t, weeks as nat, now);
            }
            match column_of(t, weeks, now) {
                Some(c) => {
                    let d = weekday_index(t);
                    proof {
                        lemma_count_day_bound(done, weeks as nat, now, d as int, c as int);
                        lemma_total_update(
                            before[d as int]@,
                            c as int,
                            (before[d as int]@[c as int] + 1) as usize,
                        );
                    }
                    grid[d][c] += 1;
                    proof {
                        let row = grid@[d as int];
                        assert(row@ == before[d as int]@.update(
                            c as int,
                            (before[d as int]@[c as int] + 1) as usize,
                        ));
                        assert(grid@ == before.update(d as int, row));
                        lemma_rows_total_update(before, d as int, row);
                    }
                },
                None => {},
            }
        }
        proof {
            assert forall|k: int, c: int| 0 <= k < 7 && 0 <= c < weeks implies grid@[k]@[c]
                == count_day(next, weeks as nat, now, k, c) by {
                assert(before[k]@[c] == count_day(done, weeks as nat, now, k, c));
            }
            assert forall|k: int| 0 <= k < 7 implies (#[trigger] grid@[k])@.len() == weeks by {
                assert(before[k]@.len() == weeks);
            }
        }
        i += 1;
    }
    assert(timestamps@.take(timestamps.len() as int) == timestamps@);
    grid
}

/// Commits per day of the week (rows, Sunday first) and hour of the day, in UTC.
pub fn compute_heatmap_utc(timestamps: &[u64]) -> (grid: [[usize; 24]; 7])
    ensures
        forall|r: int, h: int|
            0 <= r < 7 && 0 <= h < 24 ==> grid@[r]@[h] == count_cell(
                timestamps@,
                Group::DayOfWeek,
                r,
                h,
            ),
        grid_total(grid@) == timestamps@.len(),
{
    heatmap_dow_by_hod(timestamps)
}

// ---------------------------------------------------------------------------
// Colours
// ---------------------------------------------------------------------------

/// The colour codes of the plain palette, from dim to red.
pub const LEVEL_0: &'static str = "\x1b[90m";

pub const LEVEL_1: &'static str = "\x1b[94m";

pub const LEVEL_2: &'static str = "\x1b[96m";

pub const LEVEL_3: &'static str = "\x1b[92m";

pub const LEVEL_4: &'static str = "\x1b[93m";

pub const LEVEL_5: &'static str = "\x1b[91m";

/// The colour code of `level`; every level above 4 has the last colour.
pub open spec fn level_color(level: nat) -> Seq<char> {
    if level == 0 {
        LEVEL_0@
    } else if level == 1 {
        LEVEL_1@
    } else if level == 2 {
        LEVEL_2@
    } else if level == 3 {
        LEVEL_3@
    } else if level == 4 {
        LEVEL_4@
    } else {
        LEVEL_5@
    }
}

/// The colour code of `level`.
pub fn color_for_level(level: usize) -> (code: &'static str)
    ensures
        code@ == level_color(level as nat),
{
    if level == 0 {
        LEVEL_0
    } else if level == 1 {
        LEVEL_1
    } else if level == 2 {
        LEVEL_2
    } else if level == 3 {
        LEVEL_3
    } else if level == 4 {
        LEVEL_4
    } else {
        LEVEL_5
    }
}

} // verus!
