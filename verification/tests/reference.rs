use git_insights::civil::{civil_from_days, ymd_from_unix};
use git_insights::code_frequency::{
    color_for_level_rich, filter_by_weeks, heatmap_dom_by_hod, histogram_day_of_month,
    intensity_index,
};
use git_insights::render::{render_histogram_labeled, render_timeline_multiline};
use git_insights::tables::{
    build_heatmap_table_rows_x_24, build_histogram_table, build_hour_axis_24,
    build_timeline_axis_lines,
};
use git_insights::visualize::{compute_calendar_heatmap, compute_timeline_weeks};

/// A small generator of numbers that look random.
struct Numbers(u64);

impl Numbers {
    fn next(&mut self) -> u64 {
        self.0 = self.0.wrapping_mul(6364136223846793005).wrapping_add(1442695040888963407);
        self.0 >> 11
    }

    fn below(&mut self, n: u64) -> u64 {
        self.next() % n
    }
}

fn is_leap(y: i64) -> bool {
    y % 4 == 0 && (y % 100 != 0 || y % 400 == 0)
}

fn month_length(y: i64, m: u32) -> u32 {
    match m {
        2 => {
            if is_leap(y) {
                29
            } else {
                28
            }
        }
        4 | 6 | 9 | 11 => 30,
        _ => 31,
    }
}

#[test]
fn civil_dates_follow_the_calendar_day_by_day() {
    // from 1 January 1970 forward, one day at a time, over more than 400 years
    let (mut y, mut m, mut d) = (1970i64, 1u32, 1u32);
    for z in 0..150_000i64 {
        assert_eq!(civil_from_days(z), (y, m, d));
        d += 1;
        if d > month_length(y, m) {
            d = 1;
            m += 1;
            if m > 12 {
                m = 1;
                y += 1;
            }
        }
    }
    // and backward
    let (mut y, mut m, mut d) = (1970i64, 1u32, 1u32);
    for z in 0..150_000i64 {
        assert_eq!(civil_from_days(-z), (y, m, d));
        if d > 1 {
            d -= 1;
        } else {
            if m > 1 {
                m -= 1;
            } else {
                m = 12;
                y -= 1;
            }
            d = month_length(y, m);
        }
    }
    assert_eq!(ymd_from_unix(951_782_400), (2000, 2, 29));
    assert_eq!(ymd_from_unix(4_107_542_399), (2100, 2, 28));
    assert_eq!(ymd_from_unix(4_107_542_400), (2100, 3, 1));
}

#[test]
fn day_of_month_counts_follow_the_calendar() {
    let mut n = Numbers(7);
    let ts: Vec<u64> = (0..500).map(|_| n.below(4_000_000_000)).collect();
    let mut expect = [0usize; 31];
    let mut grid = [[0usize; 24]; 31];
    for &t in &ts {
        let d = ymd_from_unix(t).2 as usize;
        expect[d - 1] += 1;
        grid[d - 1][((t / 3600) % 24) as usize] += 1;
    }
    assert_eq!(histogram_day_of_month(&ts), expect);
    assert_eq!(heatmap_dom_by_hod(&ts), grid);
}

fn timeline_by_the_rule(ts: &[u64], weeks: usize, now: u64) -> Vec<usize> {
    let mut counts = vec![0usize; weeks];
    const WEEK: u64 = 604_800;
    let aligned_end = (now - now % WEEK).saturating_add(WEEK - 1);
    for &t in ts {
        if t > aligned_end {
            continue;
        }
        let bin = ((aligned_end - t) / WEEK) as usize;
        if bin < weeks {
            counts[weeks - 1 - bin] += 1;
        }
    }
    counts
}

fn window(weeks: usize, now: u64) -> (u64, u64) {
    const WEEK: u64 = 604_800;
    let aligned_end = (now - now % WEEK).saturating_add(WEEK - 1);
    let span = (weeks as u64).saturating_mul(WEEK);
    (aligned_end.saturating_sub(span.saturating_sub(1)), aligned_end)
}

#[test]
fn weeks_follow_the_rule() {
    let mut n = Numbers(11);
    for round in 0..200 {
        let now = if round % 10 == 0 { u64::MAX - n.below(1_000_000) } else { n.below(2_000_000_000) };
        let weeks = n.below(30) as usize;
        let ts: Vec<u64> = (0..50)
            .map(|_| {
                let back = n.below(40 * 604_800);
                if n.below(5) == 0 {
                    now.saturating_add(back)
                } else {
                    now.saturating_sub(back)
                }
            })
            .collect();
        assert_eq!(compute_timeline_weeks(&ts, weeks, now), timeline_by_the_rule(&ts, weeks, now));
        let (first, last) = window(weeks, now);
        let kept: Vec<u64> = if weeks == 0 {
            Vec::new()
        } else {
            ts.iter().copied().filter(|&t| first <= t && t <= last).collect()
        };
        assert_eq!(filter_by_weeks(&ts, Some(weeks), now), kept);
        let grid = compute_calendar_heatmap(&ts, weeks, now);
        let mut expect = vec![vec![0usize; weeks]; 7];
        for &t in &kept {
            let col = weeks - 1 - ((last - t) / 604_800) as usize;
            expect[((t / 86_400 + 4) % 7) as usize][col] += 1;
        }
        assert_eq!(grid, expect);
    }
}

fn shade_by_the_rule(v: usize, max: usize, levels: usize) -> usize {
    if max == 0 || v == 0 || levels <= 1 {
        return 0;
    }
    let l = levels - 1;
    (((v - 1) * l) / max + 1).min(l)
}

#[test]
fn shades_follow_the_rule() {
    let palette = [
        "\x1b[90m", "\x1b[34m", "\x1b[94m", "\x1b[36m", "\x1b[96m", "\x1b[32m", "\x1b[92m",
        "\x1b[33m", "\x1b[93m", "\x1b[35m", "\x1b[95m", "\x1b[91m",
    ];
    for max in 0..40usize {
        for v in 0..=max + 2 {
            for levels in 0..14usize {
                assert_eq!(intensity_index(v, max, levels), shade_by_the_rule(v, max, levels));
            }
        }
    }
    for levels in 0..30usize {
        for idx in 0..40usize {
            let k = if levels <= 1 {
                0
            } else if idx >= levels - 1 {
                11
            } else {
                (idx * 11) / (levels - 1)
            };
            assert_eq!(color_for_level_rich(idx, levels), palette[k]);
        }
    }
}

fn table_by_format(labels: &[&str], counts: &[usize]) -> String {
    let n = counts.len().min(labels.len());
    let max_count = counts.iter().copied().max().unwrap_or(0);
    let label_w = labels.iter().take(n).map(|s| s.len()).max().unwrap_or(0).max(5);
    let count_w = max_count.to_string().len().max(5);
    let bar_w = 20usize;
    let sep = format!(
        "+{}+{}+{}+\n",
        "-".repeat(label_w + 2),
        "-".repeat(count_w + 2),
        "-".repeat(bar_w + 2)
    );
    let mut out = String::new();
    out.push_str(&sep);
    out.push_str(&format!(
        "| {:>lw$} | {:>cw$} | {:>bw$} |\n",
        "Label",
        "Count",
        "Bar",
        lw = label_w,
        cw = count_w,
        bw = bar_w
    ));
    out.push_str(&sep);
    for i in 0..n {
        let c = counts[i];
        let filled = if max_count == 0 { 0 } else { (c * bar_w + max_count - 1) / max_count };
        let bar = format!("{}{}", "#".repeat(filled), " ".repeat(bar_w - filled));
        out.push_str(&format!(
            "| {:>lw$} | {:>cw$} | {} |\n",
            labels[i],
            c,
            bar,
            lw = label_w,
            cw = count_w
        ));
        out.push_str(&sep);
    }
    out
}

#[test]
fn histogram_tables_follow_the_format() {
    let mut n = Numbers(3);
    let pool = ["", "A", "Mon", "label", "a longer label", "00", "x-y"];
    for _ in 0..100 {
        let labels: Vec<&str> = (0..n.below(9)).map(|_| pool[n.below(7) as usize]).collect();
        let counts: Vec<usize> = (0..n.below(9))
            .map(|_| if n.below(3) == 0 { 0 } else { n.below(1_000_000) as usize })
            .collect();
        assert_eq!(build_histogram_table(&labels, &counts), table_by_format(&labels, &counts));
    }
}

fn heat_table_by_format(rows: &[Vec<usize>], row_labels: &[String]) -> String {
    let mut max_val = 0usize;
    for r in rows {
        for &v in r.iter().take(24) {
            max_val = max_val.max(v);
        }
    }
    let cell_w = max_val.to_string().len().max(2);
    let rlw = row_labels.iter().map(|s| s.len()).max().unwrap_or(3).max(3);
    let mut sep = format!("+{}", "-".repeat(rlw + 2));
    for _ in 0..24 {
        sep.push_str(&format!("+{}", "-".repeat(cell_w + 2)));
    }
    sep.push_str("+\n");
    let mut out = String::new();
    out.push_str(&sep);
    out.push_str(&format!("| {:>rlw$} ", "", rlw = rlw));
    for h in 0..24 {
        out.push_str(&format!("| {:>w$} ", format!("{:02}", h), w = cell_w));
    }
    out.push_str("|\n");
    out.push_str(&sep);
    for (ri, lab) in row_labels.iter().enumerate() {
        out.push_str(&format!("| {:>rlw$} ", lab, rlw = rlw));
        for h in 0..24 {
            out.push_str(&format!("| {:>w$} ", rows[ri][h], w = cell_w));
        }
        out.push_str("|\n");
        out.push_str(&sep);
    }
    out
}

#[test]
fn heatmap_tables_follow_the_format() {
    let mut n = Numbers(5);
    for _ in 0..50 {
        let count = n.below(5) as usize;
        let labels: Vec<String> = (0..count).map(|i| "x".repeat((i * 2) % 5)).collect();
        let rows: Vec<Vec<usize>> = (0..count + n.below(2) as usize)
            .map(|_| (0..24 + n.below(3)).map(|_| n.below(2000) as usize).collect())
            .collect();
        assert_eq!(build_heatmap_table_rows_x_24(&rows, &labels), heat_table_by_format(&rows, &labels));
    }
}

#[test]
fn hour_axes_follow_the_format() {
    for indent in 0..6usize {
        for cell_w in 0..6usize {
            let mut expect = " ".repeat(indent);
            for h in 0..24 {
                expect.push_str(&format!("{:<w$}", format!("{:02}", h), w = cell_w));
            }
            assert_eq!(build_hour_axis_24(indent, cell_w), expect);
        }
    }
}

fn axis_by_the_rule(weeks: usize, left_pad: usize, major: char, minor: char) -> (String, String) {
    let mut ticks = vec![' '; weeks];
    for col in 0..weeks {
        let rel = weeks - 1 - col;
        if rel % 12 == 0 {
            ticks[col] = major;
        } else if rel % 4 == 0 {
            ticks[col] = minor;
        }
    }
    let mut labels = vec![' '; weeks];
    let mut occupied = vec![false; weeks];
    for col in 0..weeks {
        let rel = weeks - 1 - col;
        if rel % 12 == 0 {
            let s = rel.to_string();
            if col + s.len() <= weeks && (col..col + s.len()).all(|i| !occupied[i]) {
                for (i, ch) in s.chars().enumerate() {
                    labels[col + i] = ch;
                    occupied[col + i] = true;
                }
            }
        }
    }
    let pad = " ".repeat(left_pad);
    (
        format!("{}{}", pad, ticks.iter().collect::<String>()),
        format!("{}{}", pad, labels.iter().collect::<String>()),
    )
}

#[test]
fn timeline_axes_follow_the_rule() {
    for weeks in 0..150usize {
        assert_eq!(
            build_timeline_axis_lines(weeks, weeks % 7, '+', '|'),
            axis_by_the_rule(weeks, weeks % 7, '+', '|')
        );
    }
}

fn picture_by_format(counts: &[usize], height: usize) -> String {
    let h = height.max(1);
    let max = counts.iter().copied().max().unwrap_or(0);
    if max == 0 || counts.is_empty() {
        return "(no commits in selected window)\n".to_string();
    }
    let label_width = max.to_string().len().max(3);
    let mut out = String::new();
    for row in (1..=h).rev() {
        let label = if row == h {
            max.to_string()
        } else if row == (h + 1) / 2 {
            ((max + 1) / 2).to_string()
        } else if row == 1 {
            "0".to_string()
        } else {
            String::new()
        };
        out.push_str(&format!("{:>width$} |", label, width = label_width));
        for &c in counts {
            let filled = (c * h + max - 1) / max;
            out.push(if filled >= row { '#' } else { ' ' });
        }
        out.push('\n');
    }
    out
}

#[test]
fn pictures_follow_the_format() {
    let mut n = Numbers(9);
    for _ in 0..100 {
        let counts: Vec<usize> = (0..n.below(12))
            .map(|_| if n.below(4) == 0 { 0 } else { n.below(5000) as usize })
            .collect();
        let height = n.below(10) as usize;
        assert_eq!(render_timeline_multiline(&counts, height, false), picture_by_format(&counts, height));
    }
}

#[test]
fn labeled_histograms_follow_the_format() {
    let labels = ["Sun", "Mon", "Tuesday"];
    let counts = [3usize, 0, 12];
    let mut expect = String::from("Histogram — unit: commits/day\nLegend (low→high, blank=' ' 0 commits/day):  .:-=+*#%@\n");
    for (i, &c) in counts.iter().enumerate() {
        let bar_len = (c * 40 + 12 - 1) / 12;
        expect.push_str(&format!("{:>7} | {} {}\n", labels[i], "#".repeat(bar_len), c));
    }
    assert_eq!(render_histogram_labeled(&labels, &counts, false, "commits/day"), expect);
}
