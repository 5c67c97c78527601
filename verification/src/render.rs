//! Pictures as text: timelines, heatmaps and histograms drawn with signs or
//! with coloured blocks. Every function gives the text to show; showing it
//! is left to the caller.

use vstd::prelude::*;
use crate::code_frequency::{
    bar_cells, bar_length, color_for_level_rich, greatest, intensity, intensity_index, max_count,
    ramp_index, ramp_place, rich_palette, rich_place,
};
use crate::tables::{
    at_least, build_heatmap_table_rows_x_24, build_histogram_table, build_hour_axis_24,
    build_timeline_axis_lines, first_of, greatest_of_first, heat_max, heat_max_of, heat_rule_onto,
    heat_titles_onto, heatmap_table, histogram_table, hour_axis, label_chars, labels_after,
    push_heat_rule, push_heat_titles, shown, str_views, string_chars, ticks, widest, widest_of,
};
use crate::text::{
    chars_of, decimal_vec, digits_of, pad_left, pad_right, push_all, push_padded_left,
    push_padded_right, push_repeat, push_str, repeat, seqs, string_of, strs,
};

verus! {

/// What ends a run of colour.
pub const RESET: &'static str = "\x1b[0m";

/// The colour of what is dim.
pub const DIM: &'static str = "\x1b[90m";

/// What is shown in place of a timeline without commits.
pub const NO_COMMITS_IN_WINDOW: &'static str = "(no commits in selected window)";

/// The ten signs of the ramp, from blank to dense.
pub open spec fn ramp() -> Seq<char> {
    seq![' ', '.', ':', '-', '=', '+', '*', '#', '%', '@']
}

/// The nine blocks of the coloured timeline, from blank to full.
pub open spec fn blocks() -> Seq<char> {
    seq![' ', '▁', '▂', '▃', '▄', '▅', '▆', '▇', '█']
}

/// The sign of the ramp that stands for a count of `c`, where the greatest
/// count is `max`; a blank where there is no greatest count.
pub open spec fn ramp_sign(c: nat, max: nat) -> char {
    if max == 0 {
        ' '
    } else {
        ramp()[ramp_place(c, max, 10) as int]
    }
}

/// The sign of the ramp for a count of `c`.
pub fn ramp_char(c: usize, max: usize) -> (ch: char)
    requires
        c <= max,
    ensures
        ch == ramp_sign(c as nat, max as nat),
{
    if max == 0 {
        return ' ';
    }
    let k = ramp_index(c, max, 10);
    if k == 0 {
        ' '
    } else if k == 1 {
        '.'
    } else if k == 2 {
        ':'
    } else if k == 3 {
        '-'
    } else if k == 4 {
        '='
    } else if k == 5 {
        '+'
    } else if k == 6 {
        '*'
    } else if k == 7 {
        '#'
    } else if k == 8 {
        '%'
    } else {
        '@'
    }
}

/// The block that stands for a count of `c`, where the greatest count is `max`.
pub open spec fn block_sign(c: nat, max: nat) -> char {
    blocks()[ramp_place(c, max, 9) as int]
}

/// The block for a count of `c`.
pub fn block_char(c: usize, max: usize) -> (ch: char)
    requires
        c <= max,
        max > 0,
    ensures
        ch == block_sign(c as nat, max as nat),
{
    let k = ramp_index(c, max, 9);
    if k == 0 {
        ' '
    } else if k == 1 {
        '▁'
    } else if k == 2 {
        '▂'
    } else if k == 3 {
        '▃'
    } else if k == 4 {
        '▄'
    } else if k == 5 {
        '▅'
    } else if k == 6 {
        '▆'
    } else if k == 7 {
        '▇'
    } else {
        '█'
    }
}

/// The colour in which a count of `c` is drawn, where the greatest count is
/// `max`: dim for shade 0, else the colour of its shade out of ten.
pub open spec fn shade_color(c: nat, max: nat) -> Seq<char> {
    if intensity(c, max, 10) == 0 {
        DIM@
    } else {
        rich_palette(rich_place(intensity(c, max, 10), 10))
    }
}

/// The colour in which a count of `c` is drawn.
pub fn shade_code(c: usize, max: usize) -> (code: &'static str)
    ensures
        code@ == shade_color(c as nat, max as nat),
{
    let shade = intensity_index(c, max, 10);
    if shade == 0 {
        DIM
    } else {
        color_for_level_rich(shade, 10)
    }
}

// ---------------------------------------------------------------------------
// Timelines
// ---------------------------------------------------------------------------

/// `acc` followed by the signs of the first `n` counts.
pub open spec fn bars_onto(acc: Seq<char>, counts: Seq<usize>, max: nat, n: nat) -> Seq<char>
    decreases n,
{
    if n == 0 {
        acc
    } else {
        bars_onto(acc, counts, max, (n - 1) as nat).push(ramp_sign(counts[n - 1] as nat, max))
    }
}

/// `acc` followed by the blocks of the first `n` counts, each in its colour.
pub open spec fn blocks_onto(acc: Seq<char>, counts: Seq<usize>, max: nat, n: nat) -> Seq<char>
    decreases n,
{
    if n == 0 {
        acc
    } else {
        (blocks_onto(acc, counts, max, (n - 1) as nat) + shade_color(
            counts[n - 1] as nat,
            max,
        )).push(block_sign(counts[n - 1] as nat, max))
    }
}

/// A timeline in one line: one sign per count, or, where `color` holds, one
/// coloured block per count; a remark where there are no commits.
pub open spec fn timeline_line(counts: Seq<usize>, color: bool) -> Seq<char> {
    let max = greatest(counts);
    if max == 0 {
        NO_COMMITS_IN_WINDOW@
    } else if color {
        blocks_onto(Seq::empty(), counts, max, counts.len()) + RESET@
    } else {
        bars_onto(Seq::empty(), counts, max, counts.len())
    }
}

/// The timeline of `counts` in one line of signs.
pub fn render_timeline_bars(counts: &[usize]) -> (line: String)
    ensures
        line@ == timeline_line(counts@, false),
{
    render_timeline_bars_colored(counts, false)
}

/// The timeline of `counts` in one line: of signs, or of coloured blocks
/// where `color` holds.
pub fn render_timeline_bars_colored(counts: &[usize], color: bool) -> (line: String)
    ensures
        line@ == timeline_line(counts@, color),
{
    let max = max_count(counts);
    if max == 0 {
        return NO_COMMITS_IN_WINDOW.to_owned();
    }
    let mut out: Vec<char> = Vec::new();
    let mut i: usize = 0;
    while i < counts.len()
        invariant
            i <= counts.len(),
            max > 0,
            forall|k: int| 0 <= k < counts@.len() ==> counts@[k] <= max,
            color ==> out@ == blocks_onto(Seq::empty(), counts@, max as nat, i as nat),
            !color ==> out@ == bars_onto(Seq::empty(), counts@, max as nat, i as nat),
        decreases counts.len() - i,
    {
        let c = counts[i];
        if color {
            push_str(&mut out, shade_code(c, max));
            out.push(block_char(c, max));
        } else {
            out.push(ramp_char(c, max));
        }
        i += 1;
    }
    if color {
        push_str(&mut out, RESET);
    }
    string_of(&out)
}

/// The label at the left of row `row` of a timeline of `h` rows, counted
/// from the bottom: the greatest count at the top row, half of it (rounded
/// up) at the middle row, 0 at the bottom row, none elsewhere.
pub open spec fn row_label(row: nat, h: nat, max: nat) -> Option<nat> {
    if row == h {
        Some(max)
    } else if row == h / 2 + h % 2 {
        Some(max / 2 + max % 2)
    } else if row == 1 {
        Some(0)
    } else {
        None
    }
}

/// The text of a label, blank where there is none.
pub open spec fn label_text(label: Option<nat>) -> Seq<char> {
    match label {
        Some(v) => digits_of(v),
        None => Seq::empty(),
    }
}

/// `acc` followed by the cells of row `row` for the first `n` counts: a
/// cell is filled where the bar of its count, out of `h` rows, reaches the
/// row. A filled cell is a number sign, or a block in the colour of the count.
pub open spec fn row_cells_onto(
    acc: Seq<char>,
    counts: Seq<usize>,
    max: nat,
    h: nat,
    row: nat,
    color: bool,
    n: nat,
) -> Seq<char>
    decreases n,
{
    if n == 0 {
        acc
    } else {
        let rest = row_cells_onto(acc, counts, max, h, row, color, (n - 1) as nat);
        let c = counts[n - 1] as nat;
        if bar_cells(c, max, h) >= row {
            if color {
                (rest + shade_color(c, max)).push('█')
            } else {
                rest.push('#')
            }
        } else {
            rest.push(' ')
        }
    }
}

/// `acc` followed by one row of the picture: the label, the axis, the
/// cells, and a line feed.
pub open spec fn timeline_row_onto(
    acc: Seq<char>,
    counts: Seq<usize>,
    max: nat,
    h: nat,
    row: nat,
    color: bool,
) -> Seq<char> {
    let width = at_least(digits_of(max).len(), 3);
    let label = pad_left(label_text(row_label(row, h, max)), width);
    if color {
        row_cells_onto(
            acc + DIM@ + label + " │"@ + RESET@,
            counts,
            max,
            h,
            row,
            color,
            counts.len(),
        ) + RESET@ + "\n"@
    } else {
        row_cells_onto(acc + label + " |"@, counts, max, h, row, color, counts.len()) + "\n"@
    }
}

/// `acc` followed by the rows of the picture from the top down to the row
/// above `below`.
pub open spec fn timeline_rows_onto(
    acc: Seq<char>,
    counts: Seq<usize>,
    max: nat,
    h: nat,
    below: nat,
    color: bool,
) -> Seq<char>
    decreases h - below,
{
    if below >= h {
        acc
    } else {
        timeline_row_onto(
            timeline_rows_onto(acc, counts, max, h, below + 1, color),
            counts,
            max,
            h,
            below + 1,
            color,
        )
    }
}

/// A timeline as a picture of `height` rows (one at least), the rows from
/// the top down; a remark where there are no commits.
pub open spec fn timeline_picture(counts: Seq<usize>, height: nat, color: bool) -> Seq<char> {
    let max = greatest(counts);
    if max == 0 {
        NO_COMMITS_IN_WINDOW@ + "\n"@
    } else {
        timeline_rows_onto(Seq::empty(), counts, max, at_least(height, 1), 0, color)
    }
}

/// The timeline of `counts` as a picture of `height` rows.
pub fn render_timeline_multiline(counts: &[usize], height: usize, color: bool) -> (text: String)
    ensures
        text@ == timeline_picture(counts@, height as nat, color),
{
    let h: usize = if height < 1 {
        1
    } else {
        height
    };
    let max = max_count(counts);
    let mut out: Vec<char> = Vec::new();
    if max == 0 {
        push_str(&mut out, NO_COMMITS_IN_WINDOW);
        push_str(&mut out, "\n");
        return string_of(&out);
    }
    let digits = decimal_vec(max).len();
    let width: usize = if digits < 3 {
        3
    } else {
        digits
    };
    let mut row: usize = h;
    while row > 0
        invariant
            row <= h,
            h >= 1,
            max > 0,
            max == greatest(counts@),
            width == at_least(digits_of(max as nat).len(), 3),
            forall|k: int| 0 <= k < counts@.len() ==> counts@[k] <= max,
            out@ == timeline_rows_onto(
                Seq::empty(),
                counts@,
                max as nat,
                h as nat,
                row as nat,
                color,
            ),
        decreases row,
    {
        let label: Vec<char> = if row == h {
            decimal_vec(max)
        } else if row == h / 2 + h % 2 {
            decimal_vec(max / 2 + max % 2)
        } else if row == 1 {
            decimal_vec(0)
        } else {
            Vec::new()
        };
        assert(label@ == label_text(row_label(row as nat, h as nat, max as nat)));
        if color {
            push_str(&mut out, DIM);
        }
        push_padded_left(&mut out, &label, width);
        if color {
            push_str(&mut out, " │");
            push_str(&mut out, RESET);
        } else {
            push_str(&mut out, " |");
        }
        let ghost head = out@;
        let mut i: usize = 0;
        while i < counts.len()
            invariant
                i <= counts.len(),
                1 <= row <= h,
                max > 0,
                forall|k: int| 0 <= k < counts@.len() ==> counts@[k] <= max,
                out@ == row_cells_onto(
                    head,
                    counts@,
                    max as nat,
                    h as nat,
                    row as nat,
                    color,
                    i as nat,
                ),
            decreases counts.len() - i,
        {
            let c = counts[i];
            let filled = bar_length(c, max, h);
            if filled >= row {
                if color {
                    push_str(&mut out, shade_code(c, max));
                    out.push('█');
                } else {
                    out.push('#');
                }
            } else {
                out.push(' ');
            }
            i += 1;
        }
        if color {
            push_str(&mut out, RESET);
        }
        push_str(&mut out, "\n");
        row -= 1;
    }
    string_of(&out)
}

// ---------------------------------------------------------------------------
// Grids
// ---------------------------------------------------------------------------

/// How the cells of a grid are drawn.
#[derive(Clone, Copy, Debug)]
pub enum CellStyle {
    /// A sign of the ramp between two blanks.
    Signs,
    /// The sign of the ramp twice, and a blank.
    DoubleSigns,
    /// A coloured block between two blanks; three blanks for no commits.
    Blocks,
    /// Two coloured blocks and a blank; three blanks for no commits.
    DoubleBlocks,
}

/// The line of the hours over and under a heatmap of the week.
pub const HOURS: &'static str = "    00  01  02  03  04  05  06  07  08  09  10  11  12  13  14  15  16  17  18  19  20  21  22  23";

/// The names of the days of the week, Sunday first.
pub open spec fn day_names() -> Seq<Seq<char>> {
    seq!["Sun"@, "Mon"@, "Tue"@, "Wed"@, "Thu"@, "Fri"@, "Sat"@]
}

/// The names of the days of the week.
pub fn day_labels() -> (r: Vec<Vec<char>>)
    ensures
        seqs(r@) == day_names(),
        r@.len() == 7,
{
    let mut r: Vec<Vec<char>> = Vec::new();
    r.push(chars_of("Sun"));
    r.push(chars_of("Mon"));
    r.push(chars_of("Tue"));
    r.push(chars_of("Wed"));
    r.push(chars_of("Thu"));
    r.push(chars_of("Fri"));
    r.push(chars_of("Sat"));
    assert(seqs(r@) == day_names());
    r
}

/// The greatest count among the first `cols` of each of `rows`.
pub open spec fn grid_greatest(rows: Seq<Vec<usize>>, cols: nat) -> nat
    decreases rows.len(),
{
    if rows.len() == 0 {
        0
    } else {
        at_least(grid_greatest(rows.drop_last(), cols), greatest_of_first(rows.last()@, cols))
    }
}

/// No count that is shown is greater than the greatest of the grid.
pub proof fn lemma_grid_greatest(rows: Seq<Vec<usize>>, cols: nat, r: int, c: int)
    requires
        0 <= r < rows.len(),
        0 <= c < cols,
        c < rows[r]@.len(),
    ensures
        rows[r]@[c] <= grid_greatest(rows, cols),
    decreases rows.len(),
{
    if r == rows.len() - 1 {
        let row = rows[r]@;
        if row.len() <= cols {
            crate::code_frequency::lemma_greatest_bound(row, c);
        } else {
            crate::code_frequency::lemma_greatest_bound(row.take(cols as int), c);
        }
    } else {
        lemma_grid_greatest(rows.drop_last(), cols, r, c);
    }
}

/// Whether `max` is at least every count that is shown of `rows`: the first
/// `cols` counts of the first `n` rows.
pub open spec fn bounds_cells(rows: Seq<Vec<usize>>, n: nat, cols: nat, max: nat) -> bool {
    forall|r: int, c: int|
        0 <= r < n && r < rows.len() && 0 <= c < cols && c < rows[r]@.len() ==> (
        #[trigger] rows[r]@[c]) <= max
}

/// The greatest count among the first `cols` of each of the first `n` of `rows`.
pub fn grid_max(rows: &[Vec<usize>], n: usize, cols: usize) -> (m: usize)
    requires
        n <= rows@.len(),
    ensures
        m == grid_greatest(rows@.take(n as int), cols as nat),
        bounds_cells(rows@, n as nat, cols as nat, m as nat),
{
    let mut m: usize = 0;
    let mut i: usize = 0;
    let ghost shown = rows@.take(n as int);
    while i < n
        invariant
            i <= n <= rows@.len(),
            shown == rows@.take(n as int),
            m == grid_greatest(shown.take(i as int), cols as nat),
        decreases n - i,
    {
        proof {
            assert(shown.take(i + 1).drop_last() == shown.take(i as int));
            assert(shown.take(i + 1).last() == rows@[i as int]);
        }
        let row = &rows[i];
        let width = if row.len() < cols {
            row.len()
        } else {
            cols
        };
        let mut best: usize = 0;
        let mut k: usize = 0;
        while k < width
            invariant
                k <= width <= row.len(),
                best == greatest(row@.take(k as int)),
            decreases width - k,
        {
            assert(row@.take(k + 1).drop_last() == row@.take(k as int));
            if row[k] > best {
                best = row[k];
            }
            k += 1;
        }
        proof {
            if row.len() <= cols {
                assert(row@.take(width as int) == row@);
            }
        }
        if best > m {
            m = best;
        }
        i += 1;
    }
    proof {
        assert(shown.take(n as int) == shown);
        assert forall|r: int, c: int|
            0 <= r < n && r < rows@.len() && 0 <= c < cols && c < rows@[r]@.len() implies (
        #[trigger] rows@[r]@[c]) <= m by {
            assert(shown[r] == rows@[r]);
            lemma_grid_greatest(shown, cols as nat, r, c);
        }
    }
    m
}

/// `acc` followed by the cell of a count of `v`, where the greatest count
/// is `max`.
pub open spec fn cell_onto(acc: Seq<char>, v: nat, max: nat, style: CellStyle) -> Seq<char> {
    match style {
        CellStyle::Signs => acc.push(' ').push(ramp_sign(v, max)).push(' '),
        CellStyle::DoubleSigns => acc.push(ramp_sign(v, max)).push(ramp_sign(v, max)).push(' '),
        CellStyle::Blocks => if max == 0 || v == 0 {
            acc + "   "@
        } else {
            acc + " "@ + shade_color(v, max) + "█"@ + RESET@ + " "@
        },
        CellStyle::DoubleBlocks => if max == 0 || v == 0 {
            acc + "   "@
        } else {
            acc + shade_color(v, max) + "██"@ + RESET@ + " "@
        },
    }
}

/// `acc` followed by the cells of the first `n` counts of `row`.
pub open spec fn cells_onto(acc: Seq<char>, row: Seq<usize>, max: nat, style: CellStyle, n: nat) -> Seq<
    char,
>
    decreases n,
{
    if n == 0 {
        acc
    } else {
        cell_onto(cells_onto(acc, row, max, style, (n - 1) as nat), row[n - 1] as nat, max, style)
    }
}

/// `acc` followed by one row of a grid: its label in three characters, a
/// blank, its first `cols` cells, and a line feed.
pub open spec fn grid_row_onto(
    acc: Seq<char>,
    label: Seq<char>,
    row: Seq<usize>,
    cols: nat,
    max: nat,
    style: CellStyle,
) -> Seq<char> {
    cells_onto(acc + pad_right(label, 3) + " "@, row, max, style, cols) + "\n"@
}

/// `acc` followed by the first `n` rows of a grid.
pub open spec fn grid_onto(
    acc: Seq<char>,
    labels: Seq<Seq<char>>,
    rows: Seq<Vec<usize>>,
    cols: nat,
    max: nat,
    style: CellStyle,
    n: nat,
) -> Seq<char>
    decreases n,
{
    if n == 0 {
        acc
    } else {
        grid_row_onto(
            grid_onto(acc, labels, rows, cols, max, style, (n - 1) as nat),
            labels[n - 1],
            rows[n - 1]@,
            cols,
            max,
            style,
        )
    }
}

/// Appends the cell of a count of `v` to `out`.
fn push_cell(out: &mut Vec<char>, v: usize, max: usize, style: CellStyle)
    requires
        v <= max,
    ensures
        final(out)@ == cell_onto(old(out)@, v as nat, max as nat, style),
{
    match style {
        CellStyle::Signs => {
            out.push(' ');
            out.push(ramp_char(v, max));
            out.push(' ');
        },
        CellStyle::DoubleSigns => {
            let ch = ramp_char(v, max);
            out.push(ch);
            out.push(ch);
            out.push(' ');
        },
        CellStyle::Blocks => {
            if max == 0 || v == 0 {
                push_str(out, "   ");
            } else {
                push_str(out, " ");
                push_str(out, shade_code(v, max));
                push_str(out, "█");
                push_str(out, RESET);
                push_str(out, " ");
            }
        },
        CellStyle::DoubleBlocks => {
            if max == 0 || v == 0 {
                push_str(out, "   ");
            } else {
                push_str(out, shade_code(v, max));
                push_str(out, "██");
                push_str(out, RESET);
                push_str(out, " ");
            }
        },
    }
}

/// Whether `rows` has a row of `cols` counts at least for each of the first
/// `n` labels.
pub open spec fn grid_covers(rows: Seq<Vec<usize>>, n: nat, cols: nat) -> bool {
    n <= rows.len() && forall|r: int| 0 <= r < n ==> (#[trigger] rows[r])@.len() >= cols
}

/// Appends the rows of a grid, one per label, to `out`.
fn push_grid(
    out: &mut Vec<char>,
    labels: &Vec<Vec<char>>,
    rows: &[Vec<usize>],
    cols: usize,
    max: usize,
    style: CellStyle,
)
    requires
        grid_covers(rows@, labels@.len(), cols as nat),
        bounds_cells(rows@, labels@.len(), cols as nat, max as nat),
    ensures
        final(out)@ == grid_onto(
            old(out)@,
            seqs(labels@),
            rows@,
            cols as nat,
            max as nat,
            style,
            labels@.len(),
        ),
{
    let mut r: usize = 0;
    while r < labels.len()
        invariant
            r <= labels.len(),
            grid_covers(rows@, labels@.len(), cols as nat),
            bounds_cells(rows@, labels@.len(), cols as nat, max as nat),
            out@ == grid_onto(
                old(out)@,
                seqs(labels@),
                rows@,
                cols as nat,
                max as nat,
                style,
                r as nat,
            ),
        decreases labels.len() - r,
    {
        assert(seqs(labels@)[r as int] == labels@[r as int]@);
        push_padded_right(out, &labels[r], 3);
        push_str(out, " ");
        let row = &rows[r];
        let ghost head = out@;
        let mut c: usize = 0;
        while c < cols
            invariant
                c <= cols <= row.len(),
                r < rows.len(),
                r < labels@.len(),
                *row == rows@[r as int],
                bounds_cells(rows@, labels@.len(), cols as nat, max as nat),
                out@ == cells_onto(head, row@, max as nat, style, c as nat),
            decreases cols - c,
        {
            assert(rows@[r as int]@[c as int] <= max);
            push_cell(out, row[c], max, style);
            c += 1;
        }
        push_str(out, "\n");
        r += 1;
    }
}

/// The style of the cells of a picture.
pub open spec fn single_style(color: bool) -> CellStyle {
    if color {
        CellStyle::Blocks
    } else {
        CellStyle::Signs
    }
}

/// The heatmap of the week: the hours, one row per day, and the hours again.
pub open spec fn week_heatmap(rows: Seq<Vec<usize>>, color: bool) -> Seq<char> {
    grid_onto(
        HOURS@ + "\n"@,
        day_names(),
        rows,
        24,
        grid_greatest(rows.take(7), 24),
        single_style(color),
        7,
    ) + HOURS@ + "\n"@
}

/// The heatmap of the week in signs: `rows` holds the 24 counts of each of
/// the 7 days.
pub fn render_heatmap_ascii(rows: &[Vec<usize>]) -> (text: String)
    requires
        grid_covers(rows@, 7, 24),
    ensures
        text@ == week_heatmap(rows@, false),
{
    render_heatmap_ascii_colored(rows, false)
}

/// The heatmap of the week, in signs or, where `color` holds, in coloured
/// blocks.
pub fn render_heatmap_ascii_colored(rows: &[Vec<usize>], color: bool) -> (text: String)
    requires
        grid_covers(rows@, 7, 24),
    ensures
        text@ == week_heatmap(rows@, color),
{
    let max = grid_max(rows, 7, 24);
    let labels = day_labels();
    let style = if color {
        CellStyle::Blocks
    } else {
        CellStyle::Signs
    };
    let mut out: Vec<char> = Vec::new();
    push_str(&mut out, HOURS);
    push_str(&mut out, "\n");
    push_grid(&mut out, &labels, rows, 24, max, style);
    push_str(&mut out, HOURS);
    push_str(&mut out, "\n");
    string_of(&out)
}

/// `acc` followed by a mark under each of `n` weeks.
pub open spec fn week_marks_onto(acc: Seq<char>, n: nat) -> Seq<char>
    decreases n,
{
    if n == 0 {
        acc
    } else {
        week_marks_onto(acc, (n - 1) as nat) + "^  "@
    }
}

/// The heatmap of the calendar: one row per day of the week, one cell per
/// week, and a line of marks under the weeks.
pub open spec fn calendar_heatmap(grid: Seq<Vec<usize>>, color: bool) -> Seq<char> {
    let weeks = grid[0]@.len();
    week_marks_onto(
        grid_onto(
            Seq::empty(),
            day_names(),
            grid,
            weeks,
            grid_greatest(grid.take(7), weeks),
            single_style(color),
            7,
        ) + "    "@,
        weeks,
    ) + "\n"@
}

/// The heatmap of the calendar, in signs or in coloured blocks.
fn calendar_text(grid: &[Vec<usize>], color: bool) -> (text: String)
    requires
        grid@.len() >= 7,
        grid_covers(grid@, 7, grid@[0]@.len()),
    ensures
        text@ == calendar_heatmap(grid@, color),
{
    let weeks = grid[0].len();
    let max = grid_max(grid, 7, weeks);
    let labels = day_labels();
    let style = if color {
        CellStyle::Blocks
    } else {
        CellStyle::Signs
    };
    let mut out: Vec<char> = Vec::new();
    push_grid(&mut out, &labels, grid, weeks, max, style);
    push_str(&mut out, "    ");
    let ghost head = out@;
    let mut c: usize = 0;
    while c < weeks
        invariant
            c <= weeks,
            out@ == week_marks_onto(head, c as nat),
        decreases weeks - c,
    {
        push_str(&mut out, "^  ");
        c += 1;
    }
    push_str(&mut out, "\n");
    string_of(&out)
}

/// The heatmap of the calendar in signs: `grid` holds for each of the 7
/// days of the week one count per week.
pub fn render_calendar_heatmap_ascii(grid: &[Vec<usize>]) -> (text: String)
    requires
        grid@.len() >= 7,
        grid_covers(grid@, 7, grid@[0]@.len()),
    ensures
        text@ == calendar_heatmap(grid@, false),
{
    calendar_text(grid, false)
}

/// The heatmap of the calendar in coloured blocks.
pub fn render_calendar_heatmap_colored(grid: &[Vec<usize>]) -> (text: String)
    requires
        grid@.len() >= 7,
        grid_covers(grid@, 7, grid@[0]@.len()),
    ensures
        text@ == calendar_heatmap(grid@, true),
{
    calendar_text(grid, true)
}

/// The style of the cells of a heatmap with double cells.
pub open spec fn double_style(color: bool) -> CellStyle {
    if color {
        CellStyle::DoubleBlocks
    } else {
        CellStyle::DoubleSigns
    }
}

/// A heatmap with a row per label and 24 hours: the axis of the hours, the
/// rows, and the axis again. The greatest count is taken over all of `rows`.
pub open spec fn hours_heatmap(rows: Seq<Vec<usize>>, labels: Seq<Seq<char>>, color: bool) -> Seq<
    char,
> {
    grid_onto(
        hour_axis(4, 3) + "\n"@,
        labels,
        rows,
        24,
        grid_greatest(rows, 24),
        double_style(color),
        labels.len(),
    ) + hour_axis(4, 3) + "\n"@
}

/// A heatmap with one row per label, each of 24 hours, in double signs or,
/// where `color` holds, in double coloured blocks.
pub fn render_heatmap_rows_x_24(rows: &[Vec<usize>], row_labels: &[String], color: bool) -> (text:
    String)
    requires
        grid_covers(rows@, row_labels@.len(), 24),
    ensures
        text@ == hours_heatmap(rows@, strs(row_labels@), color),
{
    let max = grid_max(rows, rows.len(), 24);
    let labels = string_chars(row_labels);
    let style = if color {
        CellStyle::DoubleBlocks
    } else {
        CellStyle::DoubleSigns
    };
    let axis = build_hour_axis_24(4, 3);
    let mut out: Vec<char> = Vec::new();
    push_str(&mut out, axis.as_str());
    push_str(&mut out, "\n");
    assert(rows@.take(rows@.len() as int) == rows@);
    assert(seqs(labels@).len() == labels@.len());
    push_grid(&mut out, &labels, rows, 24, max, style);
    push_str(&mut out, axis.as_str());
    push_str(&mut out, "\n");
    string_of(&out)
}

// ---------------------------------------------------------------------------
// Legends
// ---------------------------------------------------------------------------

/// `acc` followed by a block in each of the colours `from` to `to - 1` of
/// the rich palette of ten shades.
pub open spec fn rich_samples_onto(acc: Seq<char>, from: nat, to: nat) -> Seq<char>
    decreases to,
{
    if to <= from {
        acc
    } else {
        rich_samples_onto(acc, from, (to - 1) as nat) + " "@ + rich_palette(
            rich_place((to - 1) as nat, 10),
        ) + "█"@ + RESET@
    }
}

/// `acc` followed by a block in each of the colours `from` to `to - 1` of
/// the plain palette.
pub open spec fn plain_samples_onto(acc: Seq<char>, from: nat, to: nat) -> Seq<char>
    decreases to,
{
    if to <= from {
        acc
    } else {
        plain_samples_onto(acc, from, (to - 1) as nat) + " "@ + crate::visualize::level_color(
            (to - 1) as nat,
        ) + "█"@ + RESET@
    }
}

/// The legend of a picture whose counts are in `unit`: the ramp of signs,
/// or, where `color` holds, a block in each colour of the palette (the rich
/// one where `rich` holds).
pub open spec fn legend(color: bool, unit: Seq<char>, rich: bool) -> Seq<char> {
    if color {
        let head = DIM@ + "Legend (low→high, blank=0 "@ + unit + "):"@ + RESET@ + " "@;
        if rich {
            rich_samples_onto(head, 1, 10)
        } else {
            plain_samples_onto(head, 1, 6)
        }
    } else {
        "Legend (low→high, blank=' ' 0 "@ + unit + "): "@ + " .:-=+*#%@"@
    }
}

/// The legend, as `legend` defines it.
fn legend_text(color: bool, unit: &str, rich: bool) -> (text: String)
    ensures
        text@ == legend(color, unit@, rich),
{
    let mut out: Vec<char> = Vec::new();
    if color {
        push_str(&mut out, DIM);
        push_str(&mut out, "Legend (low→high, blank=0 ");
        push_str(&mut out, unit);
        push_str(&mut out, "):");
        push_str(&mut out, RESET);
        push_str(&mut out, " ");
        let ghost head = out@;
        assert(head == DIM@ + "Legend (low→high, blank=0 "@ + unit@ + "):"@ + RESET@ + " "@);
        let last: usize = if rich {
            10
        } else {
            6
        };
        let mut lvl: usize = 1;
        while lvl < last
            invariant
                1 <= lvl <= last,
                last == if rich {
                    10usize
                } else {
                    6usize
                },
                rich ==> out@ == rich_samples_onto(head, 1, lvl as nat),
                !rich ==> out@ == plain_samples_onto(head, 1, lvl as nat),
            decreases last - lvl,
        {
            push_str(&mut out, " ");
            if rich {
                push_str(&mut out, color_for_level_rich(lvl, 10));
            } else {
                push_str(&mut out, crate::visualize::color_for_level(lvl));
            }
            push_str(&mut out, "█");
            push_str(&mut out, RESET);
            lvl += 1;
        }
    } else {
        push_str(&mut out, "Legend (low→high, blank=' ' 0 ");
        push_str(&mut out, unit);
        push_str(&mut out, "): ");
        push_str(&mut out, " .:-=+*#%@");
    }
    string_of(&out)
}

/// The legend with the plain palette.
pub fn print_ramp_legend(color: bool, unit: &str) -> (text: String)
    ensures
        text@ == legend(color, unit@, false),
{
    legend_text(color, unit, false)
}

/// The legend with the rich palette.
pub fn print_ramp_legend_rich(color: bool, unit: &str) -> (text: String)
    ensures
        text@ == legend(color, unit@, true),
{
    legend_text(color, unit, true)
}

// ---------------------------------------------------------------------------
// Histograms
// ---------------------------------------------------------------------------

/// What is shown in place of a histogram without commits.
pub const NO_COMMITS: &'static str = "(no commits)";

/// `acc` followed by the line of one bucket: its label, a bar whose length
/// is the share of the count in `max` out of 40, and the count. The bar is
/// of number signs, or of coloured blocks where `color` holds.
pub open spec fn labeled_onto(
    acc: Seq<char>,
    label: Seq<char>,
    c: nat,
    max: nat,
    width: nat,
    color: bool,
) -> Seq<char> {
    if color {
        acc + pad_left(label, width) + " | "@ + rich_palette(rich_place(intensity(c, max, 10), 10))
            + repeat('█', bar_cells(c, max, 40)) + RESET@ + " "@ + digits_of(c) + "\n"@
    } else {
        acc + pad_left(label, width) + " | "@ + repeat('#', bar_cells(c, max, 40)) + " "@
            + digits_of(c) + "\n"@
    }
}

/// `acc` followed by the lines of the first `n` buckets.
pub open spec fn labeled_rows_onto(
    acc: Seq<char>,
    labels: Seq<Seq<char>>,
    counts: Seq<usize>,
    max: nat,
    width: nat,
    color: bool,
    n: nat,
) -> Seq<char>
    decreases n,
{
    if n == 0 {
        acc
    } else {
        labeled_onto(
            labeled_rows_onto(acc, labels, counts, max, width, color, (n - 1) as nat),
            labels[n - 1],
            counts[n - 1] as nat,
            max,
            width,
            color,
        )
    }
}

/// The head of a histogram: its title with the unit, and the legend.
pub open spec fn histogram_head(color: bool, unit: Seq<char>) -> Seq<char> {
    if color {
        DIM@ + "Histogram — unit: "@ + unit + "\n"@ + RESET@ + legend(color, unit, true) + "\n"@
    } else {
        "Histogram — unit: "@ + unit + "\n"@ + legend(color, unit, true) + "\n"@
    }
}

/// A histogram with a bar per bucket: the head, then a line per count, or
/// a remark where there are no commits.
pub open spec fn labeled_histogram(
    labels: Seq<Seq<char>>,
    counts: Seq<usize>,
    color: bool,
    unit: Seq<char>,
) -> Seq<char> {
    let max = greatest(counts);
    if max == 0 {
        histogram_head(color, unit) + NO_COMMITS@ + "\n"@
    } else {
        labeled_rows_onto(
            histogram_head(color, unit),
            labels,
            counts,
            max,
            at_least(widest(labels), 3),
            color,
            counts.len(),
        )
    }
}

/// The histogram of `counts` with a bar per bucket; `labels` names the
/// buckets, `unit` what is counted.
pub fn render_histogram_labeled(labels: &[&str], counts: &[usize], color: bool, unit: &str) -> (text:
    String)
    requires
        counts@.len() <= labels@.len(),
    ensures
        text@ == labeled_histogram(str_views(labels@), counts@, color, unit@),
{
    let max = max_count(counts);
    let texts = label_chars(labels);
    let longest = widest_of(&texts);
    let width: usize = if longest < 3 {
        3
    } else {
        longest
    };
    let mut out: Vec<char> = Vec::new();
    if color {
        push_str(&mut out, DIM);
    }
    push_str(&mut out, "Histogram — unit: ");
    push_str(&mut out, unit);
    push_str(&mut out, "\n");
    if color {
        push_str(&mut out, RESET);
    }
    let lg = print_ramp_legend_rich(color, unit);
    push_str(&mut out, lg.as_str());
    push_str(&mut out, "\n");
    assert(out@ == histogram_head(color, unit@));
    if max == 0 {
        push_str(&mut out, NO_COMMITS);
        push_str(&mut out, "\n");
        return string_of(&out);
    }
    let ghost head = out@;
    let mut i: usize = 0;
    assert(seqs(texts@).len() == texts@.len());
    assert(str_views(labels@).len() == labels@.len());
    while i < counts.len()
        invariant
            i <= counts.len(),
            counts@.len() <= labels@.len(),
            texts@.len() == labels@.len(),
            seqs(texts@) == str_views(labels@),
            max > 0,
            forall|k: int| 0 <= k < counts@.len() ==> counts@[k] <= max,
            out@ == labeled_rows_onto(
                head,
                str_views(labels@),
                counts@,
                max as nat,
                width as nat,
                color,
                i as nat,
            ),
        decreases counts.len() - i,
    {
        let c = counts[i];
        assert(seqs(texts@)[i as int] == texts@[i as int]@);
        assert(seqs(texts@).len() == texts@.len());
        push_padded_left(&mut out, &texts[i], width);
        push_str(&mut out, " | ");
        let bar = bar_length(c, max, 40);
        if color {
            push_str(&mut out, color_for_level_rich(intensity_index(c, max, 10), 10));
            push_repeat(&mut out, '█', bar);
            push_str(&mut out, RESET);
        } else {
            push_repeat(&mut out, '#', bar);
        }
        push_str(&mut out, " ");
        push_all(&mut out, &decimal_vec(c));
        push_str(&mut out, "\n");
        i += 1;
    }
    string_of(&out)
}

/// `acc` followed by a rule of the coloured table.
pub open spec fn color_rule_onto(acc: Seq<char>, lw: nat, cw: nat, bw: nat) -> Seq<char> {
    acc + "+"@ + repeat('-', lw) + "--+"@ + repeat('-', cw) + "--+"@ + repeat('-', bw) + "--+\n"@
}

/// `acc` followed by the line of one bucket of the coloured table: the
/// label, then the count and a bar of blocks, both in the colour of the count.
pub open spec fn color_bucket_onto(
    acc: Seq<char>,
    label: Seq<char>,
    c: nat,
    max: nat,
    lw: nat,
    cw: nat,
    bw: nat,
) -> Seq<char> {
    acc + "| "@ + pad_left(label, lw) + " | "@ + shade_color(c, max) + pad_left(digits_of(c), cw)
        + RESET@ + " | "@ + shade_color(c, max) + repeat('█', bar_cells(c, max, bw)) + repeat(
        ' ',
        (bw - bar_cells(c, max, bw)) as nat,
    ) + RESET@ + " |\n"@
}

/// `acc` followed by the lines of the first `n` buckets, a rule after each.
pub open spec fn color_buckets_onto(
    acc: Seq<char>,
    labels: Seq<Seq<char>>,
    counts: Seq<usize>,
    max: nat,
    lw: nat,
    cw: nat,
    bw: nat,
    n: nat,
) -> Seq<char>
    decreases n,
{
    if n == 0 {
        acc
    } else {
        color_rule_onto(
            color_bucket_onto(
                color_buckets_onto(acc, labels, counts, max, lw, cw, bw, (n - 1) as nat),
                labels[n - 1],
                counts[n - 1] as nat,
                max,
                lw,
                cw,
                bw,
            ),
            lw,
            cw,
            bw,
        )
    }
}

/// The table of a histogram in colour: laid out as the plain table, with
/// the counts and the bars in the colours of the counts.
pub open spec fn color_histogram_table(labels: Seq<Seq<char>>, counts: Seq<usize>) -> Seq<char> {
    let n = shown(labels, counts);
    let max = greatest(counts);
    let lw = at_least(widest(labels.take(n as int)), 5);
    let cw = at_least(digits_of(max).len(), 5);
    color_buckets_onto(
        color_rule_onto(
            color_rule_onto(Seq::empty(), lw, cw, 20) + "| "@ + pad_left("Label"@, lw) + " | "@
                + pad_left("Count"@, cw) + " | "@ + pad_left("Bar"@, 20) + " |\n"@,
            lw,
            cw,
            20,
        ),
        labels,
        counts,
        max,
        lw,
        cw,
        20,
        n,
    )
}

/// Appends a rule of the coloured table to `out`.
fn push_color_rule(out: &mut Vec<char>, lw: usize, cw: usize, bw: usize)
    ensures
        final(out)@ == color_rule_onto(old(out)@, lw as nat, cw as nat, bw as nat),
{
    push_str(out, "+");
    push_repeat(out, '-', lw);
    push_str(out, "--+");
    push_repeat(out, '-', cw);
    push_str(out, "--+");
    push_repeat(out, '-', bw);
    push_str(out, "--+\n");
}

/// The table of the histogram of `counts`, plain or, where `color` holds,
/// in colour.
pub fn render_histogram_table(labels: &[&str], counts: &[usize], color: bool) -> (text: String)
    ensures
        !color ==> text@ == histogram_table(str_views(labels@), counts@),
        color ==> text@ == color_histogram_table(str_views(labels@), counts@),
{
    if !color {
        return build_histogram_table(labels, counts);
    }
    let texts = label_chars(labels);
    let n = if texts.len() < counts.len() {
        texts.len()
    } else {
        counts.len()
    };
    let max = max_count(counts);
    let label_w = widest_of(&first_of(&texts, n));
    let count_w = decimal_vec(max).len();
    let lw: usize = if label_w < 5 {
        5
    } else {
        label_w
    };
    let cw: usize = if count_w < 5 {
        5
    } else {
        count_w
    };
    let mut out: Vec<char> = Vec::new();
    push_color_rule(&mut out, lw, cw, 20);
    push_str(&mut out, "| ");
    push_padded_left(&mut out, &chars_of("Label"), lw);
    push_str(&mut out, " | ");
    push_padded_left(&mut out, &chars_of("Count"), cw);
    push_str(&mut out, " | ");
    push_padded_left(&mut out, &chars_of("Bar"), 20);
    push_str(&mut out, " |\n");
    push_color_rule(&mut out, lw, cw, 20);
    let ghost head = out@;
    let mut i: usize = 0;
    while i < n
        invariant
            i <= n,
            n <= texts.len(),
            n <= counts.len(),
            seqs(texts@) == str_views(labels@),
            forall|k: int| 0 <= k < counts@.len() ==> counts@[k] <= max,
            out@ == color_buckets_onto(
                head,
                str_views(labels@),
                counts@,
                max as nat,
                lw as nat,
                cw as nat,
                20,
                i as nat,
            ),
        decreases n - i,
    {
        let c = counts[i];
        assert(seqs(texts@)[i as int] == texts@[i as int]@);
        let code = shade_code(c, max);
        push_str(&mut out, "| ");
        push_padded_left(&mut out, &texts[i], lw);
        push_str(&mut out, " | ");
        push_str(&mut out, code);
        push_padded_left(&mut out, &decimal_vec(c), cw);
        push_str(&mut out, RESET);
        push_str(&mut out, " | ");
        push_str(&mut out, code);
        let filled = bar_length(c, max, 20);
        push_repeat(&mut out, '█', filled);
        push_repeat(&mut out, ' ', 20 - filled);
        push_str(&mut out, RESET);
        push_str(&mut out, " |\n");
        push_color_rule(&mut out, lw, cw, 20);
        i += 1;
    }
    string_of(&out)
}

// ---------------------------------------------------------------------------
// The axis of a timeline
// ---------------------------------------------------------------------------

/// The two lines under a timeline, dim where `color` holds; nothing for a
/// timeline of no weeks.
pub open spec fn timeline_axis(weeks: nat, color: bool, left_pad: nat) -> Seq<char> {
    if weeks == 0 {
        Seq::empty()
    } else if color {
        DIM@ + repeat(' ', left_pad) + ticks(weeks, weeks, '┼', '│') + "\n"@ + repeat(' ', left_pad)
            + labels_after(weeks, weeks) + "\n"@ + RESET@
    } else {
        repeat(' ', left_pad) + ticks(weeks, weeks, '+', '|') + "\n"@ + repeat(' ', left_pad)
            + labels_after(weeks, weeks) + "\n"@
    }
}

/// The two lines under a timeline of `weeks` weeks.
pub fn render_timeline_axis(weeks: usize, color: bool, left_pad: usize) -> (text: String)
    ensures
        text@ == timeline_axis(weeks as nat, color, left_pad as nat),
{
    let mut out: Vec<char> = Vec::new();
    if weeks == 0 {
        return string_of(&out);
    }
    let major = if color {
        '┼'
    } else {
        '+'
    };
    let minor = if color {
        '│'
    } else {
        '|'
    };
    let (tick_line, label_line) = build_timeline_axis_lines(weeks, left_pad, major, minor);
    if color {
        push_str(&mut out, DIM);
    }
    push_str(&mut out, tick_line.as_str());
    push_str(&mut out, "\n");
    push_str(&mut out, label_line.as_str());
    push_str(&mut out, "\n");
    if color {
        push_str(&mut out, RESET);
    }
    string_of(&out)
}

// ---------------------------------------------------------------------------
// The table of a heatmap in colour
// ---------------------------------------------------------------------------

/// `acc` followed by the first `n` counts of `row`, each in its cell and in
/// its colour.
pub open spec fn color_values_onto(acc: Seq<char>, row: Seq<usize>, max: nat, cell_w: nat, n: nat) -> Seq<
    char,
>
    decreases n,
{
    if n == 0 {
        acc
    } else {
        color_values_onto(acc, row, max, cell_w, (n - 1) as nat) + "| "@ + shade_color(
            row[n - 1] as nat,
            max,
        ) + pad_left(digits_of(row[n - 1] as nat), cell_w) + RESET@ + " "@
    }
}

/// `acc` followed by the lines of the first `n` rows, the counts in their
/// colours, a rule after each.
pub open spec fn color_heat_rows_onto(
    acc: Seq<char>,
    labels: Seq<Seq<char>>,
    rows: Seq<Vec<usize>>,
    max: nat,
    label_w: nat,
    cell_w: nat,
    n: nat,
) -> Seq<char>
    decreases n,
{
    if n == 0 {
        acc
    } else {
        heat_rule_onto(
            color_values_onto(
                color_heat_rows_onto(acc, labels, rows, max, label_w, cell_w, (n - 1) as nat)
                    + "| "@ + pad_left(labels[n - 1], label_w) + " "@,
                rows[n - 1]@,
                max,
                cell_w,
                24,
            ) + "|\n"@,
            label_w,
            cell_w,
        )
    }
}

/// The table of a heatmap in colour: laid out as the plain table, each
/// count in the colour of its shade.
pub open spec fn color_heatmap_table(labels: Seq<Seq<char>>, rows: Seq<Vec<usize>>) -> Seq<char> {
    let label_w = at_least(widest(labels), 3);
    let cell_w = at_least(digits_of(heat_max(rows)).len(), 2);
    color_heat_rows_onto(
        heat_rule_onto(
            heat_titles_onto(heat_rule_onto(Seq::empty(), label_w, cell_w), label_w, cell_w),
            label_w,
            cell_w,
        ),
        labels,
        rows,
        heat_max(rows),
        label_w,
        cell_w,
        labels.len(),
    )
}

/// The table of a heatmap with one line per label, plain or, where `color`
/// holds, in colour.
pub fn render_heatmap_table_rows_x_24(rows: &[Vec<usize>], row_labels: &[String], color: bool) -> (text:
    String)
    requires
        grid_covers(rows@, row_labels@.len(), 24),
    ensures
        !color ==> text@ == heatmap_table(strs(row_labels@), rows@),
        color ==> text@ == color_heatmap_table(strs(row_labels@), rows@),
{
    if !color {
        return build_heatmap_table_rows_x_24(rows, row_labels);
    }
    let texts = string_chars(row_labels);
    let max = heat_max_of(rows);
    let digits_w = decimal_vec(max).len();
    let cell_w: usize = if digits_w < 2 {
        2
    } else {
        digits_w
    };
    let longest = widest_of(&texts);
    let label_w: usize = if longest < 3 {
        3
    } else {
        longest
    };
    let mut out: Vec<char> = Vec::new();
    push_heat_rule(&mut out, label_w, cell_w);
    push_heat_titles(&mut out, label_w, cell_w);
    push_heat_rule(&mut out, label_w, cell_w);
    let ghost head = out@;
    let mut i: usize = 0;
    assert(seqs(texts@).len() == texts@.len());
    while i < texts.len()
        invariant
            i <= texts.len(),
            texts@.len() == row_labels@.len(),
            grid_covers(rows@, row_labels@.len(), 24),
            seqs(texts@) == strs(row_labels@),
            out@ == color_heat_rows_onto(
                head,
                strs(row_labels@),
                rows@,
                max as nat,
                label_w as nat,
                cell_w as nat,
                i as nat,
            ),
        decreases texts.len() - i,
    {
        assert(seqs(texts@)[i as int] == texts@[i as int]@);
        push_str(&mut out, "| ");
        push_padded_left(&mut out, &texts[i], label_w);
        push_str(&mut out, " ");
        let row = &rows[i];
        let ghost start = out@;
        let mut h: usize = 0;
        while h < 24
            invariant
                h <= 24 <= row.len(),
                out@ == color_values_onto(start, row@, max as nat, cell_w as nat, h as nat),
            decreases 24 - h,
        {
            push_str(&mut out, "| ");
            push_str(&mut out, shade_code(row[h], max));
            push_padded_left(&mut out, &decimal_vec(row[h]), cell_w);
            push_str(&mut out, RESET);
            push_str(&mut out, " ");
            h += 1;
        }
        push_str(&mut out, "|\n");
        push_heat_rule(&mut out, label_w, cell_w);
        i += 1;
    }
    string_of(&out)
}

} // verus!
