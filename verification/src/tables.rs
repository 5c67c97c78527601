//! Tables and axes as text: what is drawn around the counts.

use vstd::prelude::*;
use crate::code_frequency::{bar_cells, bar_length, greatest, max_count};
use crate::text::{
    chars_of, decimal_vec, digits_of, pad_left, pad_right, push_all, push_padded_left,
    push_padded_right, push_repeat, push_str, repeat, seqs, string_of, strs,
};

verus! {

/// The two digits that write the hour `h`; a number of one digit gets a
/// zero before it.
pub open spec fn two_digits(h: nat) -> Seq<char> {
    if h < 10 {
        seq!['0'] + digits_of(h)
    } else {
        digits_of(h)
    }
}

/// The two digits that write `h`.
pub fn two_digit_vec(h: usize) -> (r: Vec<char>)
    ensures
        r@ == two_digits(h as nat),
{
    let mut r: Vec<char> = Vec::new();
    if h < 10 {
        r.push('0');
    }
    let d = decimal_vec(h);
    push_all(&mut r, &d);
    r
}

/// `acc` followed by the first `n` hours, each as two digits in a cell of
/// `cell_w` characters, the digits at the left of the cell.
pub open spec fn hours_onto(acc: Seq<char>, cell_w: nat, n: nat) -> Seq<char>
    decreases n,
{
    if n == 0 {
        acc
    } else {
        hours_onto(acc, cell_w, (n - 1) as nat) + pad_right(two_digits((n - 1) as nat), cell_w)
    }
}

/// The axis of the 24 hours: `indent` spaces, then the hours.
pub open spec fn hour_axis(indent: nat, cell_w: nat) -> Seq<char> {
    hours_onto(repeat(' ', indent), cell_w, 24)
}

/// The axis of the 24 hours, each in a cell of `cell_w` characters, after
/// `indent` spaces.
pub fn build_hour_axis_24(indent: usize, cell_w: usize) -> (axis: String)
    ensures
        axis@ == hour_axis(indent as nat, cell_w as nat),
{
    let mut out: Vec<char> = Vec::new();
    push_repeat(&mut out, ' ', indent);
    assert(out@ == repeat(' ', indent as nat));
    let mut h: usize = 0;
    while h < 24
        invariant
            h <= 24,
            out@ == hours_onto(repeat(' ', indent as nat), cell_w as nat, h as nat),
        decreases 24 - h,
    {
        let digits = two_digit_vec(h);
        push_padded_right(&mut out, &digits, cell_w);
        h += 1;
    }
    string_of(&out)
}

// ---------------------------------------------------------------------------
// The table of a histogram
// ---------------------------------------------------------------------------

/// The views of `v`, one per element.
pub open spec fn str_views(v: Seq<&str>) -> Seq<Seq<char>> {
    Seq::new(v.len(), |i: int| v[i]@)
}

/// The length of the longest of `texts`; 0 where there are none.
pub open spec fn widest(texts: Seq<Seq<char>>) -> nat
    decreases texts.len(),
{
    if texts.len() == 0 {
        0
    } else if texts.last().len() > widest(texts.drop_last()) {
        texts.last().len()
    } else {
        widest(texts.drop_last())
    }
}

/// The greater of `a` and `b`.
pub open spec fn at_least(a: nat, b: nat) -> nat {
    if a < b {
        b
    } else {
        a
    }
}

/// The length of the longest of `texts`.
pub fn widest_of(texts: &Vec<Vec<char>>) -> (w: usize)
    ensures
        w == widest(seqs(texts@)),
{
    let mut w: usize = 0;
    let mut i: usize = 0;
    while i < texts.len()
        invariant
            i <= texts.len(),
            w == widest(seqs(texts@).take(i as int)),
        decreases texts.len() - i,
    {
        proof {
            assert(seqs(texts@).take(i + 1).drop_last() == seqs(texts@).take(i as int));
            assert(seqs(texts@).take(i + 1).last() == texts@[i as int]@);
        }
        if texts[i].len() > w {
            w = texts[i].len();
        }
        i += 1;
    }
    assert(seqs(texts@).take(texts.len() as int) == seqs(texts@));
    w
}

/// The widths of the three columns of a table.
pub struct Widths {
    pub label: usize,
    pub count: usize,
    pub bar: usize,
}

/// `acc` followed by a rule: a line of dashes with a plus where two columns
/// meet; each column is two wider than its width.
pub open spec fn rule_onto(acc: Seq<char>, w: Widths) -> Seq<char> {
    acc + "+"@ + repeat('-', w.label as nat) + "--+"@ + repeat('-', w.count as nat) + "--+"@
        + repeat('-', w.bar as nat) + "--+\n"@
}

/// `acc` followed by the line of the column titles.
pub open spec fn titles_onto(acc: Seq<char>, w: Widths) -> Seq<char> {
    acc + "| "@ + pad_left("Label"@, w.label as nat) + " | "@ + pad_left("Count"@, w.count as nat)
        + " | "@ + pad_left("Bar"@, w.bar as nat) + " |\n"@
}

/// `acc` followed by the line of one bucket: its label, its count, and a
/// bar of number signs whose length is the share of the count in `max`.
pub open spec fn bucket_onto(acc: Seq<char>, label: Seq<char>, c: nat, max: nat, w: Widths) -> Seq<
    char,
> {
    acc + "| "@ + pad_left(label, w.label as nat) + " | "@ + pad_left(digits_of(c), w.count as nat)
        + " | "@ + repeat('#', bar_cells(c, max, w.bar as nat)) + repeat(
        ' ',
        (w.bar - bar_cells(c, max, w.bar as nat)) as nat,
    ) + " |\n"@
}

/// `acc` followed by the lines of the first `n` buckets, a rule after each.
pub open spec fn buckets_onto(
    acc: Seq<char>,
    labels: Seq<Seq<char>>,
    counts: Seq<usize>,
    n: nat,
    max: nat,
    w: Widths,
) -> Seq<char>
    decreases n,
{
    if n == 0 {
        acc
    } else {
        rule_onto(
            bucket_onto(
                buckets_onto(acc, labels, counts, (n - 1) as nat, max, w),
                labels[n - 1],
                counts[n - 1] as nat,
                max,
                w,
            ),
            w,
        )
    }
}

/// How many buckets the table shows: as many as have both a label and a count.
pub open spec fn shown(labels: Seq<Seq<char>>, counts: Seq<usize>) -> nat {
    if labels.len() < counts.len() {
        labels.len()
    } else {
        counts.len()
    }
}

/// The widths of the columns: each as wide as its widest entry and as its
/// title; the bar is 20 wide.
pub open spec fn histogram_widths(labels: Seq<Seq<char>>, counts: Seq<usize>) -> Widths {
    Widths {
        label: at_least(widest(labels.take(shown(labels, counts) as int)), 5) as usize,
        count: at_least(digits_of(greatest(counts)).len(), 5) as usize,
        bar: 20,
    }
}

/// The table of a histogram: a rule, the titles, a rule, and the buckets.
pub open spec fn histogram_table(labels: Seq<Seq<char>>, counts: Seq<usize>) -> Seq<char> {
    let w = histogram_widths(labels, counts);
    buckets_onto(
        rule_onto(titles_onto(rule_onto(Seq::empty(), w), w), w),
        labels,
        counts,
        shown(labels, counts),
        greatest(counts),
        w,
    )
}

/// Appends a rule to `out`.
fn push_rule(out: &mut Vec<char>, w: &Widths)
    ensures
        final(out)@ == rule_onto(old(out)@, *w),
{
    push_str(out, "+");
    push_repeat(out, '-', w.label);
    push_str(out, "--+");
    push_repeat(out, '-', w.count);
    push_str(out, "--+");
    push_repeat(out, '-', w.bar);
    push_str(out, "--+\n");
}

/// Appends the line of the titles to `out`.
fn push_titles(out: &mut Vec<char>, w: &Widths)
    ensures
        final(out)@ == titles_onto(old(out)@, *w),
{
    push_str(out, "| ");
    push_padded_left(out, &chars_of("Label"), w.label);
    push_str(out, " | ");
    push_padded_left(out, &chars_of("Count"), w.count);
    push_str(out, " | ");
    push_padded_left(out, &chars_of("Bar"), w.bar);
    push_str(out, " |\n");
}

/// Appends the line of one bucket to `out`.
fn push_bucket(out: &mut Vec<char>, label: &Vec<char>, c: usize, max: usize, w: &Widths)
    requires
        c <= max,
    ensures
        final(out)@ == bucket_onto(old(out)@, label@, c as nat, max as nat, *w),
{
    push_str(out, "| ");
    push_padded_left(out, label, w.label);
    push_str(out, " | ");
    push_padded_left(out, &decimal_vec(c), w.count);
    push_str(out, " | ");
    let filled = bar_length(c, max, w.bar);
    push_repeat(out, '#', filled);
    push_repeat(out, ' ', w.bar - filled);
    push_str(out, " |\n");
}

/// The characters of each of `labels`.
pub fn label_chars(labels: &[&str]) -> (r: Vec<Vec<char>>)
    ensures
        seqs(r@) == str_views(labels@),
{
    let mut r: Vec<Vec<char>> = Vec::new();
    let mut i: usize = 0;
    while i < labels.len()
        invariant
            i <= labels.len(),
            seqs(r@) == str_views(labels@).take(i as int),
        decreases labels.len() - i,
    {
        let c = chars_of(labels[i]);
        proof {
            assert(seqs(r@.push(c)) == seqs(r@).push(c@));
            assert(str_views(labels@).take(i + 1) == str_views(labels@).take(i as int).push(
                labels@[i as int]@,
            ));
        }
        r.push(c);
        i += 1;
    }
    assert(str_views(labels@).take(labels.len() as int) == str_views(labels@));
    r
}

/// The first `n` of `v`.
pub fn first_of(v: &Vec<Vec<char>>, n: usize) -> (r: Vec<Vec<char>>)
    requires
        n <= v.len(),
    ensures
        seqs(r@) == seqs(v@).take(n as int),
{
    let mut r: Vec<Vec<char>> = Vec::new();
    let mut i: usize = 0;
    while i < n
        invariant
            i <= n <= v.len(),
            seqs(r@) == seqs(v@).take(i as int),
        decreases n - i,
    {
        let c = v[i].clone();
        proof {
            assert(seqs(r@.push(c)) == seqs(r@).push(c@));
            assert(seqs(v@).take(i + 1) == seqs(v@).take(i as int).push(v@[i as int]@));
        }
        r.push(c);
        i += 1;
    }
    r
}

/// The table of a histogram: for each bucket its label, its count, and a bar.
/// Buckets beyond the shorter of `labels` and `counts` are not shown.
pub fn build_histogram_table(labels: &[&str], counts: &[usize]) -> (table: String)
    ensures
        table@ == histogram_table(str_views(labels@), counts@),
{
    let texts = label_chars(labels);
    let n = if texts.len() < counts.len() {
        texts.len()
    } else {
        counts.len()
    };
    let max = max_count(counts);
    let shown_texts = first_of(&texts, n);
    let label_w = widest_of(&shown_texts);
    let count_w = decimal_vec(max).len();
    let w = Widths {
        label: if label_w < 5 {
            5
        } else {
            label_w
        },
        count: if count_w < 5 {
            5
        } else {
            count_w
        },
        bar: 20,
    };
    assert(w == histogram_widths(str_views(labels@), counts@));
    let mut out: Vec<char> = Vec::new();
    push_rule(&mut out, &w);
    push_titles(&mut out, &w);
    push_rule(&mut out, &w);
    let ghost head = out@;
    let mut i: usize = 0;
    while i < n
        invariant
            i <= n,
            n <= texts.len(),
            n <= counts.len(),
            seqs(texts@) == str_views(labels@),
            forall|k: int| 0 <= k < counts@.len() ==> counts@[k] <= max,
            out@ == buckets_onto(
                head,
                str_views(labels@),
                counts@,
                i as nat,
                max as nat,
                w,
            ),
        decreases n - i,
    {
        assert(seqs(texts@)[i as int] == texts@[i as int]@);
        push_bucket(&mut out, &texts[i], counts[i], max, &w);
        push_rule(&mut out, &w);
        i += 1;
    }
    string_of(&out)
}

// ---------------------------------------------------------------------------
// The table of a heatmap
// ---------------------------------------------------------------------------

/// The greatest of the first `n` counts of `row`.
pub open spec fn greatest_of_first(row: Seq<usize>, n: nat) -> nat {
    if row.len() <= n {
        greatest(row)
    } else {
        greatest(row.take(n as int))
    }
}

/// The greatest count among the first 24 of each of `rows`.
pub open spec fn heat_max(rows: Seq<Vec<usize>>) -> nat
    decreases rows.len(),
{
    if rows.len() == 0 {
        0
    } else {
        at_least(heat_max(rows.drop_last()), greatest_of_first(rows.last()@, 24))
    }
}

/// `acc` followed by the part of a rule that lies over `n` cells.
pub open spec fn cell_rules_onto(acc: Seq<char>, cell_w: nat, n: nat) -> Seq<char>
    decreases n,
{
    if n == 0 {
        acc
    } else {
        cell_rules_onto(acc, cell_w, (n - 1) as nat) + "+"@ + repeat('-', cell_w) + "--"@
    }
}

/// `acc` followed by a rule over the label and the 24 cells.
pub open spec fn heat_rule_onto(acc: Seq<char>, label_w: nat, cell_w: nat) -> Seq<char> {
    cell_rules_onto(acc + "+"@ + repeat('-', label_w) + "--"@, cell_w, 24) + "+\n"@
}

/// `acc` followed by the titles of the first `n` hours.
pub open spec fn hour_titles_onto(acc: Seq<char>, cell_w: nat, n: nat) -> Seq<char>
    decreases n,
{
    if n == 0 {
        acc
    } else {
        hour_titles_onto(acc, cell_w, (n - 1) as nat) + "| "@ + pad_left(
            two_digits((n - 1) as nat),
            cell_w,
        ) + " "@
    }
}

/// `acc` followed by the line of the titles: no label, then the 24 hours.
pub open spec fn heat_titles_onto(acc: Seq<char>, label_w: nat, cell_w: nat) -> Seq<char> {
    hour_titles_onto(acc + "| "@ + repeat(' ', label_w) + " "@, cell_w, 24) + "|\n"@
}

/// `acc` followed by the first `n` counts of `row`, each in its cell.
pub open spec fn values_onto(acc: Seq<char>, row: Seq<usize>, cell_w: nat, n: nat) -> Seq<char>
    decreases n,
{
    if n == 0 {
        acc
    } else {
        values_onto(acc, row, cell_w, (n - 1) as nat) + "| "@ + pad_left(
            digits_of(row[n - 1] as nat),
            cell_w,
        ) + " "@
    }
}

/// `acc` followed by the line of one row: its label, then its 24 counts.
pub open spec fn heat_row_onto(
    acc: Seq<char>,
    label: Seq<char>,
    row: Seq<usize>,
    label_w: nat,
    cell_w: nat,
) -> Seq<char> {
    values_onto(acc + "| "@ + pad_left(label, label_w) + " "@, row, cell_w, 24) + "|\n"@
}

/// `acc` followed by the lines of the first `n` rows, a rule after each.
pub open spec fn heat_rows_onto(
    acc: Seq<char>,
    labels: Seq<Seq<char>>,
    rows: Seq<Vec<usize>>,
    n: nat,
    label_w: nat,
    cell_w: nat,
) -> Seq<char>
    decreases n,
{
    if n == 0 {
        acc
    } else {
        heat_rule_onto(
            heat_row_onto(
                heat_rows_onto(acc, labels, rows, (n - 1) as nat, label_w, cell_w),
                labels[n - 1],
                rows[n - 1]@,
                label_w,
                cell_w,
            ),
            label_w,
            cell_w,
        )
    }
}

/// The table of a heatmap: a rule, the hours, a rule, and one line per
/// label. The label column is as wide as the longest label and 3 at least,
/// a cell as wide as the greatest count and 2 at least.
pub open spec fn heatmap_table(labels: Seq<Seq<char>>, rows: Seq<Vec<usize>>) -> Seq<char> {
    let label_w = at_least(widest(labels), 3);
    let cell_w = at_least(digits_of(heat_max(rows)).len(), 2);
    heat_rows_onto(
        heat_rule_onto(
            heat_titles_onto(heat_rule_onto(Seq::empty(), label_w, cell_w), label_w, cell_w),
            label_w,
            cell_w,
        ),
        labels,
        rows,
        labels.len(),
        label_w,
        cell_w,
    )
}

/// The greatest count among the first 24 of each of `rows`.
pub fn heat_max_of(rows: &[Vec<usize>]) -> (m: usize)
    ensures
        m == heat_max(rows@),
{
    let mut m: usize = 0;
    let mut i: usize = 0;
    while i < rows.len()
        invariant
            i <= rows.len(),
            m == heat_max(rows@.take(i as int)),
        decreases rows.len() - i,
    {
        proof {
            assert(rows@.take(i + 1).drop_last() == rows@.take(i as int));
            assert(rows@.take(i + 1).last() == rows@[i as int]);
        }
        let row = &rows[i];
        let n = if row.len() < 24 {
            row.len()
        } else {
            24
        };
        let mut best: usize = 0;
        let mut k: usize = 0;
        while k < n
            invariant
                k <= n <= row.len(),
                best == greatest(row@.take(k as int)),
            decreases n - k,
        {
            assert(row@.take(k + 1).drop_last() == row@.take(k as int));
            if row[k] > best {
                best = row[k];
            }
            k += 1;
        }
        proof {
            if row.len() <= 24 {
                assert(row@.take(n as int) == row@);
            }
        }
        if best > m {
            m = best;
        }
        i += 1;
    }
    assert(rows@.take(rows.len() as int) == rows@);
    m
}

/// Appends a rule over the label and the 24 cells to `out`.
pub fn push_heat_rule(out: &mut Vec<char>, label_w: usize, cell_w: usize)
    ensures
        final(out)@ == heat_rule_onto(old(out)@, label_w as nat, cell_w as nat),
{
    push_str(out, "+");
    push_repeat(out, '-', label_w);
    push_str(out, "--");
    let ghost head = out@;
    let mut h: usize = 0;
    while h < 24
        invariant
            h <= 24,
            out@ == cell_rules_onto(head, cell_w as nat, h as nat),
        decreases 24 - h,
    {
        push_str(out, "+");
        push_repeat(out, '-', cell_w);
        push_str(out, "--");
        h += 1;
    }
    push_str(out, "+\n");
}

/// Appends the line of the hours to `out`.
pub fn push_heat_titles(out: &mut Vec<char>, label_w: usize, cell_w: usize)
    ensures
        final(out)@ == heat_titles_onto(old(out)@, label_w as nat, cell_w as nat),
{
    push_str(out, "| ");
    push_repeat(out, ' ', label_w);
    push_str(out, " ");
    let ghost head = out@;
    let mut h: usize = 0;
    while h < 24
        invariant
            h <= 24,
            out@ == hour_titles_onto(head, cell_w as nat, h as nat),
        decreases 24 - h,
    {
        push_str(out, "| ");
        push_padded_left(out, &two_digit_vec(h), cell_w);
        push_str(out, " ");
        h += 1;
    }
    push_str(out, "|\n");
}

/// Appends the line of one row to `out`.
fn push_heat_row(
    out: &mut Vec<char>,
    label: &Vec<char>,
    row: &Vec<usize>,
    label_w: usize,
    cell_w: usize,
)
    requires
        row.len() >= 24,
    ensures
        final(out)@ == heat_row_onto(old(out)@, label@, row@, label_w as nat, cell_w as nat),
{
    push_str(out, "| ");
    push_padded_left(out, label, label_w);
    push_str(out, " ");
    let ghost head = out@;
    let mut h: usize = 0;
    while h < 24
        invariant
            h <= 24 <= row.len(),
            out@ == values_onto(head, row@, cell_w as nat, h as nat),
        decreases 24 - h,
    {
        push_str(out, "| ");
        push_padded_left(out, &decimal_vec(row[h]), cell_w);
        push_str(out, " ");
        h += 1;
    }
    push_str(out, "|\n");
}

/// The characters of each of `labels`.
pub fn string_chars(labels: &[String]) -> (r: Vec<Vec<char>>)
    ensures
        seqs(r@) == strs(labels@),
{
    let mut r: Vec<Vec<char>> = Vec::new();
    let mut i: usize = 0;
    while i < labels.len()
        invariant
            i <= labels.len(),
            seqs(r@) == strs(labels@).take(i as int),
        decreases labels.len() - i,
    {
        let c = chars_of(labels[i].as_str());
        proof {
            assert(seqs(r@.push(c)) == seqs(r@).push(c@));
            assert(strs(labels@).take(i + 1) == strs(labels@).take(i as int).push(
                labels@[i as int]@,
            ));
        }
        r.push(c);
        i += 1;
    }
    assert(strs(labels@).take(labels.len() as int) == strs(labels@));
    r
}

/// The table of a heatmap with one line per label: the label, then the 24
/// counts of its row.
pub fn build_heatmap_table_rows_x_24(rows: &[Vec<usize>], row_labels: &[String]) -> (table: String)
    requires
        row_labels.len() <= rows.len(),
        forall|i: int| 0 <= i < row_labels.len() ==> (#[trigger] rows@[i]).len() >= 24,
    ensures
        table@ == heatmap_table(strs(row_labels@), rows@),
{
    let texts = string_chars(row_labels);
    let max = heat_max_of(rows);
    let digits_w = decimal_vec(max).len();
    let cell_w: usize = if digits_w < 2 {
        2
    } else {
        digits_w
    };
    let longest = widest_of(&texts);
    let label_w: usize = if longest < 3 {
        3
    } else {
        longest
    };
    let mut out: Vec<char> = Vec::new();
    push_heat_rule(&mut out, label_w, cell_w);
    push_heat_titles(&mut out, label_w, cell_w);
    push_heat_rule(&mut out, label_w, cell_w);
    let ghost head = out@;
    let mut i: usize = 0;
    while i < texts.len()
        invariant
            i <= texts.len(),
            texts.len() == row_labels.len(),
            row_labels.len() <= rows.len(),
            forall|k: int| 0 <= k < row_labels.len() ==> (#[trigger] rows@[k]).len() >= 24,
            seqs(texts@) == strs(row_labels@),
            out@ == heat_rows_onto(
                head,
                strs(row_labels@),
                rows@,
                i as nat,
                label_w as nat,
                cell_w as nat,
            ),
        decreases texts.len() - i,
    {
        assert(seqs(texts@)[i as int] == texts@[i as int]@);
        push_heat_row(&mut out, &texts[i], &rows[i], label_w, cell_w);
        push_heat_rule(&mut out, label_w, cell_w);
        i += 1;
    }
    assert(seqs(texts@).len() == texts.len());
    string_of(&out)
}

// ---------------------------------------------------------------------------
// The axis of a timeline
// ---------------------------------------------------------------------------

/// The tick under column `col` of a timeline of `weeks` weeks: `major` where
/// the column lies a multiple of 12 weeks back, `minor` where a multiple of
/// 4, a space elsewhere.
pub open spec fn tick_at(weeks: nat, col: int, major: char, minor: char) -> char {
    let back = weeks - 1 - col;
    if back % 12 == 0 {
        major
    } else if back % 4 == 0 {
        minor
    } else {
        ' '
    }
}

/// The ticks under the first `n` columns.
pub open spec fn ticks(weeks: nat, n: nat, major: char, minor: char) -> Seq<char> {
    Seq::new(n, |col: int| tick_at(weeks, col, major, minor))
}

/// Whether `text` can be written into `line` from place `col` on: it ends
/// within the line and the places are still blank.
pub open spec fn fits_at(line: Seq<char>, col: int, text: Seq<char>) -> bool {
    col + text.len() <= line.len() && forall|i: int|
        col <= i < col + text.len() ==> #[trigger] line[i] == ' '
}

/// `line` with `text` written into it from place `col` on.
pub open spec fn written_at(line: Seq<char>, col: int, text: Seq<char>) -> Seq<char> {
    Seq::new(
        line.len(),
        |i: int|
            if col <= i < col + text.len() {
                text[i - col]
            } else {
                line[i]
            },
    )
}

/// The line of the labels after the first `n` columns were looked at: under
/// a column that lies a multiple of 12 weeks back stands that number of
/// weeks, from the column on, where it fits and nothing stands there yet.
pub open spec fn labels_after(weeks: nat, n: nat) -> Seq<char>
    decreases n,
{
    if n == 0 {
        repeat(' ', weeks)
    } else {
        let line = labels_after(weeks, (n - 1) as nat);
        let col = n - 1;
        let back = (weeks - 1 - col) as nat;
        if back % 12 == 0 && fits_at(line, col, digits_of(back)) {
            written_at(line, col, digits_of(back))
        } else {
            line
        }
    }
}

/// The two lines under a timeline of `weeks` weeks, both after `left_pad`
/// spaces: the ticks, and the labels that tell how many weeks back a major
/// tick lies.
pub fn build_timeline_axis_lines(weeks: usize, left_pad: usize, major: char, minor: char) -> (r: (
    String,
    String,
))
    ensures
        r.0@ == repeat(' ', left_pad as nat) + ticks(weeks as nat, weeks as nat, major, minor),
        r.1@ == repeat(' ', left_pad as nat) + labels_after(weeks as nat, weeks as nat),
{
    let mut tick_line: Vec<char> = Vec::new();
    let mut col: usize = 0;
    while col < weeks
        invariant
            col <= weeks,
            tick_line@ == ticks(weeks as nat, col as nat, major, minor),
        decreases weeks - col,
    {
        let back = weeks - 1 - col;
        let c = if back % 12 == 0 {
            major
        } else if back % 4 == 0 {
            minor
        } else {
            ' '
        };
        tick_line.push(c);
        col += 1;
        assert(tick_line@ == ticks(weeks as nat, col as nat, major, minor));
    }
    let mut labels: Vec<char> = Vec::new();
    push_repeat(&mut labels, ' ', weeks);
    assert(labels@ == repeat(' ', weeks as nat));
    let mut col: usize = 0;
    while col < weeks
        invariant
            col <= weeks,
            labels@.len() == weeks,
            labels@ == labels_after(weeks as nat, col as nat),
        decreases weeks - col,
    {
        let back = weeks - 1 - col;
        if back % 12 == 0 {
            let text = decimal_vec(back);
            if text.len() <= weeks - col {
                let mut free = true;
                let mut k: usize = 0;
                while k < text.len()
                    invariant
                        k <= text.len() <= weeks - col,
                        labels@.len() == weeks,
                        free == forall|i: int| col <= i < col + k ==> #[trigger] labels@[i] == ' ',
                    decreases text.len() - k,
                {
                    if labels[col + k] != ' ' {
                        free = false;
                    }
                    k += 1;
                }
                if free {
                    let ghost line = labels@;
                    let mut k: usize = 0;
                    while k < text.len()
                        invariant
                            k <= text.len() <= weeks - col,
                            labels@.len() == weeks,
                            line.len() == weeks,
                            forall|i: int|
                                0 <= i < weeks ==> labels@[i] == if col <= i < col + k {
                                    text@[i - col]
                                } else {
                                    line[i]
                                },
                        decreases text.len() - k,
                    {
                        labels[col + k] = text[k];
                        k += 1;
                    }
                    assert(labels@ == written_at(line, col as int, text@));
                }
            }
        }
        col += 1;
    }
    let mut first: Vec<char> = Vec::new();
    push_repeat(&mut first, ' ', left_pad);
    push_all(&mut first, &tick_line);
    let mut second: Vec<char> = Vec::new();
    push_repeat(&mut second, ' ', left_pad);
    push_all(&mut second, &labels);
    (string_of(&first), string_of(&second))
}

} // verus!
