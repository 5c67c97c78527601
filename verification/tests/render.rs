use git_insights::code_frequency::{
    bar_length, color_for_level_rich, intensity_index, max_count, ramp_index,
};
use git_insights::output::print_user_stats;
use git_insights::render::{
    print_ramp_legend, print_ramp_legend_rich, render_calendar_heatmap_ascii,
    render_calendar_heatmap_colored, render_heatmap_ascii, render_heatmap_ascii_colored,
    render_heatmap_rows_x_24, render_heatmap_table_rows_x_24, render_histogram_labeled,
    render_histogram_table, render_timeline_axis, render_timeline_bars,
    render_timeline_bars_colored, render_timeline_multiline,
};
use git_insights::stats::UserStats;
use git_insights::tables::{build_heatmap_table_rows_x_24, build_histogram_table};
use git_insights::visualize::color_for_level;

const HOURS: &str = "    00  01  02  03  04  05  06  07  08  09  10  11  12  13  14  15  16  17  18  19  20  21  22  23";

#[test]
fn shades_and_colours() {
    assert_eq!(intensity_index(0, 10, 10), 0);
    assert_eq!(intensity_index(1, 10, 10), 1);
    assert_eq!(intensity_index(5, 10, 10), 4);
    assert_eq!(intensity_index(10, 10, 10), 9);
    assert_eq!(intensity_index(20, 10, 10), 9);
    assert_eq!(intensity_index(3, 0, 10), 0);
    assert_eq!(intensity_index(3, 10, 1), 0);
    assert_eq!(intensity_index(usize::MAX, usize::MAX, 10), 9);
    assert_eq!(color_for_level_rich(0, 10), "\x1b[90m");
    assert_eq!(color_for_level_rich(1, 10), "\x1b[34m");
    assert_eq!(color_for_level_rich(5, 10), "\x1b[92m");
    assert_eq!(color_for_level_rich(9, 10), "\x1b[91m");
    assert_eq!(color_for_level_rich(12, 10), "\x1b[91m");
    assert_eq!(color_for_level_rich(3, 1), "\x1b[90m");
    assert_eq!(color_for_level(0), "\x1b[90m");
    assert_eq!(color_for_level(1), "\x1b[94m");
    assert_eq!(color_for_level(2), "\x1b[96m");
    assert_eq!(color_for_level(3), "\x1b[92m");
    assert_eq!(color_for_level(4), "\x1b[93m");
    assert_eq!(color_for_level(5), "\x1b[91m");
    assert_eq!(color_for_level(77), "\x1b[91m");
}

#[test]
fn bars_and_ramps() {
    assert_eq!(bar_length(0, 10, 40), 0);
    assert_eq!(bar_length(1, 10, 40), 4);
    assert_eq!(bar_length(1, 3, 20), 7);
    assert_eq!(bar_length(3, 3, 20), 20);
    assert_eq!(bar_length(0, 0, 20), 0);
    assert_eq!(bar_length(usize::MAX, usize::MAX, usize::MAX), usize::MAX);
    assert_eq!(ramp_index(0, 5, 10), 0);
    assert_eq!(ramp_index(5, 5, 10), 9);
    assert_eq!(ramp_index(2, 5, 10), 3);
    assert_eq!(ramp_index(2, 0, 10), 0);
    assert_eq!(max_count(&[]), 0);
    assert_eq!(max_count(&[3, 9, 2]), 9);
}

#[test]
fn timeline_in_one_line() {
    assert_eq!(render_timeline_bars(&[0, 1, 2, 3, 0, 5, 5, 1]), " .-+ @@.");
    assert_eq!(render_timeline_bars(&[]), "(no commits in selected window)");
    assert_eq!(render_timeline_bars(&[0, 0, 0]), "(no commits in selected window)");
    assert_eq!(render_timeline_bars_colored(&[0, 4], false), " @");
    assert_eq!(
        render_timeline_bars_colored(&[0, 2, 4], true),
        "\x1b[90m \x1b[36m▄\x1b[93m█\x1b[0m"
    );
    assert_eq!(render_timeline_bars_colored(&[0], true), "(no commits in selected window)");
}

#[test]
fn timeline_as_a_picture() {
    let text = render_timeline_multiline(&[0, 1, 4], 4, false);
    assert_eq!(text, "  4 |  #\n    |  #\n  2 |  #\n  0 | ##\n");
    let text = render_timeline_multiline(&[2, 1], 0, false);
    assert_eq!(text, "  2 |##\n");
    assert_eq!(render_timeline_multiline(&[], 7, true), "(no commits in selected window)\n");
    let text = render_timeline_multiline(&[0, 2], 2, true);
    assert_eq!(
        text,
        "\x1b[90m  2 │\x1b[0m \x1b[92m█\x1b[0m\n\x1b[90m  1 │\x1b[0m \x1b[92m█\x1b[0m\n"
    );
}

#[test]
fn timeline_axis() {
    assert_eq!(render_timeline_axis(0, false, 4), "");
    assert_eq!(render_timeline_axis(5, false, 2), "  |   +\n      0\n");
    assert_eq!(render_timeline_axis(1, true, 0), "\x1b[90m┼\n0\n\x1b[0m");
}

fn week() -> Vec<Vec<usize>> {
    let mut rows = vec![vec![0usize; 24]; 7];
    rows[0][0] = 1;
    rows[6][23] = 5;
    rows
}

#[test]
fn heatmap_of_the_week() {
    let text = render_heatmap_ascii(&week());
    let lines: Vec<&str> = text.lines().collect();
    assert_eq!(lines.len(), 9);
    assert_eq!(lines[0], HOURS);
    assert_eq!(lines[8], HOURS);
    assert_eq!(lines[1], format!("Sun  .{}", " ".repeat(24 * 3 - 2)));
    assert_eq!(lines[2], format!("Mon {}", " ".repeat(24 * 3)));
    assert_eq!(lines[7], format!("Sat {} @ ", " ".repeat(23 * 3)));
    assert!(text.ends_with("23\n"));
    assert_eq!(render_heatmap_ascii_colored(&week(), false), text);
    let text = render_heatmap_ascii_colored(&week(), true);
    let lines: Vec<&str> = text.lines().collect();
    assert_eq!(lines[1], format!("Sun  \x1b[34m█\x1b[0m {}", " ".repeat(23 * 3)));
    assert_eq!(lines[7], format!("Sat {} \x1b[35m█\x1b[0m ", " ".repeat(23 * 3)));
    // a week without commits is blank
    let text = render_heatmap_ascii(&vec![vec![0usize; 24]; 7]);
    assert_eq!(text.lines().nth(4).unwrap(), format!("Wed {}", " ".repeat(24 * 3)));
}

#[test]
fn heatmap_of_the_calendar() {
    let mut grid = vec![vec![0usize; 4]; 7];
    grid[0][0] = 1;
    grid[1][1] = 2;
    grid[2][2] = 3;
    grid[3][3] = 4;
    let text = render_calendar_heatmap_ascii(&grid);
    assert_eq!(
        text,
        "Sun  :          \nMon     =       \nTue        *    \nWed           @ \nThu             \nFri             \nSat             \n    ^  ^  ^  ^  \n"
    );
    let text = render_calendar_heatmap_colored(&grid);
    let lines: Vec<&str> = text.lines().collect();
    assert_eq!(lines.len(), 8);
    assert_eq!(lines[0], "Sun  \x1b[34m█\x1b[0m          ");
    assert_eq!(lines[3], "Wed           \x1b[93m█\x1b[0m ");
    assert_eq!(lines[7], "    ^  ^  ^  ^  ");
    let empty = vec![Vec::<usize>::new(); 7];
    assert_eq!(render_calendar_heatmap_ascii(&empty), "Sun \nMon \nTue \nWed \nThu \nFri \nSat \n    \n");
}

#[test]
fn heatmap_by_hours() {
    let mut rows = vec![vec![0usize; 24]; 2];
    rows[0][1] = 2;
    rows[1][0] = 4;
    let labels = vec!["01".to_string(), "02".to_string()];
    let axis = "    00 01 02 03 04 05 06 07 08 09 10 11 12 13 14 15 16 17 18 19 20 21 22 23 ";
    let text = render_heatmap_rows_x_24(&rows, &labels, false);
    assert_eq!(
        text,
        format!(
            "{axis}\n01     == {}\n02  @@ {}\n{axis}\n",
            "   ".repeat(22),
            "   ".repeat(23),
            axis = axis
        )
    );
    let text = render_heatmap_rows_x_24(&rows, &labels, true);
    assert_eq!(
        text,
        format!(
            "{axis}\n01     \x1b[36m██\x1b[0m {}\n02  \x1b[93m██\x1b[0m {}\n{axis}\n",
            "   ".repeat(22),
            "   ".repeat(23),
            axis = axis
        )
    );
}

#[test]
fn legends() {
    assert_eq!(
        print_ramp_legend(false, "commits/week"),
        "Legend (low→high, blank=' ' 0 commits/week):  .:-=+*#%@"
    );
    assert_eq!(
        print_ramp_legend_rich(false, "commits/day"),
        "Legend (low→high, blank=' ' 0 commits/day):  .:-=+*#%@"
    );
    assert_eq!(
        print_ramp_legend(true, "commits/day"),
        "\x1b[90mLegend (low→high, blank=0 commits/day):\x1b[0m  \x1b[94m█\x1b[0m \x1b[96m█\x1b[0m \x1b[92m█\x1b[0m \x1b[93m█\x1b[0m \x1b[91m█\x1b[0m"
    );
    assert_eq!(
        print_ramp_legend_rich(true, "x"),
        "\x1b[90mLegend (low→high, blank=0 x):\x1b[0m  \x1b[34m█\x1b[0m \x1b[94m█\x1b[0m \x1b[36m█\x1b[0m \x1b[96m█\x1b[0m \x1b[92m█\x1b[0m \x1b[33m█\x1b[0m \x1b[93m█\x1b[0m \x1b[35m█\x1b[0m \x1b[91m█\x1b[0m"
    );
}

#[test]
fn histogram_with_bars() {
    let text = render_histogram_labeled(&["A", "BBBB"], &[1, 4], false, "commits/day");
    assert_eq!(
        text,
        format!(
            "Histogram — unit: commits/day\nLegend (low→high, blank=' ' 0 commits/day):  .:-=+*#%@\n   A | {} 1\nBBBB | {} 4\n",
            "#".repeat(10),
            "#".repeat(40)
        )
    );
    let text = render_histogram_labeled(&["A", "B"], &[0, 0], false, "u");
    assert_eq!(text, "Histogram — unit: u\nLegend (low→high, blank=' ' 0 u):  .:-=+*#%@\n(no commits)\n");
    let text = render_histogram_labeled(&["A", "B"], &[0, 2], true, "u");
    let lines: Vec<&str> = text.lines().collect();
    assert_eq!(lines[0], "\x1b[90mHistogram — unit: u");
    assert!(lines[1].starts_with("\x1b[0m\x1b[90mLegend (low→high, blank=0 u):\x1b[0m "));
    assert_eq!(lines[2], "  A | \x1b[90m\x1b[0m 0");
    assert_eq!(lines[3], format!("  B | \x1b[92m{}\x1b[0m 2", "█".repeat(40)));
}

#[test]
fn tables_plain_and_in_colour() {
    let labels: Vec<&str> = vec!["A", "BB"];
    let counts = vec![1usize, 4];
    assert_eq!(
        render_histogram_table(&labels, &counts, false),
        build_histogram_table(&labels, &counts)
    );
    let rule = "+-------+-------+----------------------+\n";
    let expect = format!(
        "{rule}| Label | Count |                  Bar |\n{rule}|     A | \x1b[34m    1\x1b[0m | \x1b[34m█████               \x1b[0m |\n{rule}|    BB | \x1b[93m    4\x1b[0m | \x1b[93m████████████████████\x1b[0m |\n{rule}",
        rule = rule
    );
    assert_eq!(render_histogram_table(&labels, &counts, true), expect);

    let mut row = vec![0usize; 24];
    row[3] = 7;
    let rows = vec![row];
    let names = vec!["Mo".to_string()];
    assert_eq!(
        render_heatmap_table_rows_x_24(&rows, &names, false),
        build_heatmap_table_rows_x_24(&rows, &names)
    );
    let text = render_heatmap_table_rows_x_24(&rows, &names, true);
    let lines: Vec<&str> = text.lines().collect();
    assert_eq!(lines.len(), 5);
    let mut line = String::from("|  Mo ");
    for h in 0..24 {
        if h == 3 {
            line.push_str("| \x1b[35m 7\x1b[0m ");
        } else {
            line.push_str("| \x1b[90m 0\x1b[0m ");
        }
    }
    line.push('|');
    assert_eq!(lines[3], line);
}

#[test]
fn statistics_of_a_user() {
    let mut stats = UserStats::default();
    stats.pull_requests = 2;
    assert_eq!(
        print_user_stats("test_user_no_tags", &stats),
        "\nStatistics for user: test_user_no_tags\n---------------------------------\nMerged Pull Requests: 2\n\nNo tags found where this user is an author.\n"
    );
    stats.pull_requests = 5;
    stats.tags.insert("v1.1".to_string());
    stats.tags.insert("v1.0".to_string());
    assert_eq!(
        print_user_stats("test_user", &stats),
        "\nStatistics for user: test_user\n---------------------------------\nMerged Pull Requests: 5\n\nAuthored in the following tags:\n  - v1.0\n  - v1.1\n"
    );
    for t in ["v0.9", "v2.0", "v10", "a", "B"] {
        stats.tags.insert(t.to_string());
    }
    assert_eq!(
        print_user_stats("u", &stats),
        "\nStatistics for user: u\n---------------------------------\nMerged Pull Requests: 5\n\nAuthored in the following tags:\n  - B\n  - a\n  - v0.9\n  - v1.0\n  - v1.1\n  ... (1 more tags)\n  - v2.0\n"
    );
}

#[test]
fn test_render_timeline_no_panic() {
    assert_eq!(render_timeline_bars(&[0, 1, 2, 3, 0, 5, 5, 1]).chars().count(), 8);
    render_timeline_bars(&[]);
    render_timeline_bars(&[0, 0, 0]);
}

#[test]
fn test_render_heatmap_no_panic() {
    let mut grid = [[0usize; 24]; 7];
    grid[0][0] = 1;
    grid[6][23] = 5;
    let rows: Vec<Vec<usize>> = grid.iter().map(|r| r.to_vec()).collect();
    assert_eq!(render_heatmap_ascii(&rows).lines().count(), 9);
}

#[test]
fn test_render_calendar_heatmap_no_panic() {
    let mut grid = vec![vec![0usize; 4]; 7];
    grid[0][0] = 1;
    grid[1][1] = 2;
    grid[2][2] = 3;
    grid[3][3] = 4;
    assert_eq!(render_calendar_heatmap_ascii(&grid).lines().count(), 8);
    assert_eq!(render_calendar_heatmap_colored(&grid).lines().count(), 8);
}

#[test]
fn test_print_legends_no_panic() {
    assert!(print_ramp_legend(false, "commits/week").contains("commits/week"));
    assert!(print_ramp_legend(true, "commits/day").contains("commits/day"));
}

#[test]
fn test_heatmap_table_no_panic() {
    // Build a tiny 3-row table and ensure no panic
    let rows = vec![
        {
            let mut r = vec![0usize; 24];
            r[0] = 1;
            r
        },
        vec![0usize; 24],
        {
            let mut r = vec![0usize; 24];
            r[23] = 2;
            r
        },
    ];
    let labels = vec!["A".to_string(), "B".to_string(), "C".to_string()];
    assert_eq!(render_heatmap_table_rows_x_24(&rows, &labels, false).lines().count(), 9);
}

#[test]
fn test_print_user_stats() {
    let mut stats = UserStats::default();
    stats.tags.insert("v1.0".to_string());
    stats.tags.insert("v1.1".to_string());
    stats.pull_requests = 5;
    // Should not panic
    assert!(print_user_stats("test_user", &stats).contains("test_user"));
}

#[test]
fn test_print_user_stats_no_tags() {
    let mut stats = UserStats::default();
    stats.pull_requests = 2;
    // Should not panic
    assert!(print_user_stats("test_user_no_tags", &stats).contains("No tags found"));
}
