use git_insights::output::truncate;
use git_insights::tables::{
    build_heatmap_table_rows_x_24, build_histogram_table, build_hour_axis_24,
    build_timeline_axis_lines,
};

#[test]
fn test_build_hour_axis_24_widths() {
    let s = build_hour_axis_24(4, 3);
    // Starts with 4 spaces (row label indent)
    assert!(s.starts_with("    "));
    // Total visible width = indent + 24 columns * 3 chars each
    assert_eq!(s.len(), 4 + 24 * 3);
    // Digits in order 00..23 when spaces are removed
    let digits: String = s.chars().filter(|c| c.is_ascii_digit()).collect();
    let expect: String = (0..24).map(|h| format!("{:02}", h)).collect();
    assert_eq!(digits, expect);
}

#[test]
fn test_build_histogram_table_alignment() {
    let labels: Vec<&str> = vec!["A", "BB", "CCC"];
    let counts = vec![0usize, 3, 10];
    let s = build_histogram_table(&labels, &counts);
    let lines: Vec<&str> = s.lines().collect();
    // Collect data lines starting with '|' (including header)
    let pipe_lines: Vec<&str> = lines
        .iter()
        .copied()
        .filter(|l| l.starts_with('|'))
        .collect();
    assert!(!pipe_lines.is_empty());
    let len0 = pipe_lines[0].len();
    let pipes0 = pipe_lines[0].chars().filter(|&c| c == '|').count();
    for l in pipe_lines {
        assert_eq!(l.len(), len0, "all '|' lines must be equal length");
        let pipes = l.chars().filter(|&c| c == '|').count();
        assert_eq!(
            pipes, pipes0,
            "all '|' lines must have equal number of separators"
        );
    }
}

#[test]
fn test_build_heatmap_table_alignment() {
    let mut rows = vec![vec![0usize; 24]; 2];
    rows[0][0] = 1;
    rows[1][23] = 12; // ensure multi-digit width
    let labels = vec!["R1".to_string(), "R2".to_string()];
    let s = build_heatmap_table_rows_x_24(&rows, &labels);
    let lines: Vec<&str> = s.lines().collect();
    let pipe_lines: Vec<&str> = lines
        .iter()
        .copied()
        .filter(|l| l.starts_with('|'))
        .collect();
    assert!(!pipe_lines.is_empty());
    let len0 = pipe_lines[0].len();
    let pipes0 = pipe_lines[0].chars().filter(|&c| c == '|').count();
    for l in pipe_lines {
        assert_eq!(l.len(), len0, "all '|' lines must be equal length");
        let pipes = l.chars().filter(|&c| c == '|').count();
        assert_eq!(
            pipes, pipes0,
            "all '|' lines must have equal number of separators"
        );
    }
}

#[test]
fn test_truncate() {
    assert_eq!(truncate("short", 10), "short");
    assert_eq!(truncate("exactlyten", 10), "exactlyten");
    assert_eq!(truncate("this-is-long", 10), "this-is-...");
}

#[test]
fn test_build_timeline_axis_lines_alignment() {
    let weeks = 24usize;
    let left_pad = 5usize;
    let (ticks, labels) = build_timeline_axis_lines(weeks, left_pad, '+', '|');

    assert!(ticks.starts_with(&" ".repeat(left_pad)));
    assert!(labels.starts_with(&" ".repeat(left_pad)));
    assert_eq!(ticks.len(), left_pad + weeks);
    assert_eq!(labels.len(), left_pad + weeks);

    let t_body = &ticks[left_pad..];
    let l_body = &labels[left_pad..];

    for (col, tc) in t_body.chars().enumerate() {
        let rel = weeks - 1 - col;
        let expected = if rel % 12 == 0 {
            '+'
        } else if rel % 4 == 0 {
            '|'
        } else {
            ' '
        };
        assert_eq!(tc, expected, "tick mismatch at col {}", col);
    }

    assert_eq!(&l_body[11..13], "12");
    assert_eq!(&l_body[23..24], "0");
    for col in 0..weeks {
        if !(11..13).contains(&col) && col != 23 {
            assert_eq!(l_body.chars().nth(col).unwrap(), ' ');
        }
    }
}

#[test]
fn histogram_table_is_exact() {
    let labels: Vec<&str> = vec!["A", "BB"];
    let counts = vec![1usize, 4];
    let s = build_histogram_table(&labels, &counts);
    let rule = "+-------+-------+----------------------+\n";
    let expect = format!(
        "{rule}| Label | Count |                  Bar |\n{rule}|     A |     1 | #####                |\n{rule}|    BB |     4 | #################### |\n{rule}",
        rule = rule
    );
    assert_eq!(s, expect);
}

#[test]
fn histogram_table_without_commits_has_empty_bars() {
    let labels: Vec<&str> = vec!["Sun", "Mon", "Tue"];
    let counts = vec![0usize, 0];
    let s = build_histogram_table(&labels, &counts);
    let rule = "+-------+-------+----------------------+\n";
    let expect = format!(
        "{rule}| Label | Count |                  Bar |\n{rule}|   Sun |     0 |                      |\n{rule}|   Mon |     0 |                      |\n{rule}",
        rule = rule
    );
    assert_eq!(s, expect);
}

#[test]
fn heatmap_table_is_exact() {
    let mut row = vec![0usize; 24];
    row[3] = 7;
    let rows = vec![row];
    let labels = vec!["Mo".to_string()];
    let s = build_heatmap_table_rows_x_24(&rows, &labels);
    let mut rule = String::from("+-----");
    for _ in 0..24 {
        rule.push_str("+----");
    }
    rule.push_str("+\n");
    let mut head = String::from("|     ");
    for h in 0..24 {
        head.push_str(&format!("| {:02} ", h));
    }
    head.push_str("|\n");
    let mut line = String::from("|  Mo ");
    for h in 0..24 {
        line.push_str(&format!("| {:>2} ", if h == 3 { 7 } else { 0 }));
    }
    line.push_str("|\n");
    assert_eq!(s, format!("{}{}{}{}{}", rule, head, rule, line, rule));
}

#[test]
fn timeline_axis_of_no_weeks_is_the_padding() {
    let (ticks, labels) = build_timeline_axis_lines(0, 3, '+', '|');
    assert_eq!(ticks, "   ");
    assert_eq!(labels, "   ");
}

#[test]
fn timeline_axis_labels_that_do_not_fit_are_left_out() {
    // 13 weeks: column 0 lies 12 weeks back, column 12 lies 0 weeks back
    let (ticks, labels) = build_timeline_axis_lines(13, 0, '+', '|');
    assert_eq!(ticks, "+   |   |   +");
    assert_eq!(labels, "12          0");
    let (ticks, labels) = build_timeline_axis_lines(1, 2, 'M', 'm');
    assert_eq!(ticks, "  M");
    assert_eq!(labels, "  0");
}

#[test]
fn truncate_edges() {
    assert_eq!(truncate("abcdef", 3), "abc");
    assert_eq!(truncate("abcdef", 0), "");
    assert_eq!(truncate("abcdefgh", 4), "a...");
    // the cut falls after a hyphen rather than before it
    assert_eq!(truncate("ab-defgh", 5), "ab-...");
    // but not where a hyphen stands before the cut already
    assert_eq!(truncate("a--defgh", 5), "a-...");
    assert_eq!(truncate("", 5), "");
}
