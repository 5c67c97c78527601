use git_insights::blame::{
    file_stats, gather_loc_and_file_stats, gather_loc_and_file_statsx, FileBlame, Grouping,
};
use git_insights::code_frequency::{
    heatmap_dom_by_hod, heatmap_dow_by_hod, histogram_day_of_month, histogram_day_of_week,
    histogram_hour_of_day,
};
use git_insights::ledger::gather_commit_stats;
use git_insights::ownership::{file_ownership, get_user_file_ownership};
use git_insights::scope::tracked_text_files_head;
use git_insights::stats::StatsMap;
use git_insights::visualize::{
    collect_commit_timestamps, compute_calendar_heatmap, compute_timeline_weeks,
};

fn entry(hash: &str, name: &str, mail: &str, content: &str) -> String {
    format!(
        "{} 1 1 1\nauthor {}\nauthor-mail <{}>\nauthor-time 1700000000\nsummary something\nfilename f\n\t{}\n",
        hash, name, mail, content
    )
}

fn blame_of(lines: &[(&str, &str)]) -> String {
    let mut out = String::new();
    for (i, (name, mail)) in lines.iter().enumerate() {
        out.push_str(&entry("abc", name, mail, &format!("line {}", i)));
    }
    out
}

fn snapshot(m: &StatsMap) -> Vec<(String, usize, usize, Vec<String>)> {
    let mut rows = Vec::new();
    for i in 0..m.len() {
        let s = m.stats_at(i);
        let mut files: Vec<String> = (0..s.files.len()).map(|j| s.files.get(j).clone()).collect();
        files.sort();
        rows.push((m.author_at(i).clone(), s.loc, s.commits, files));
    }
    rows.sort();
    rows
}

fn file(path: &str, blame: Option<String>) -> FileBlame {
    FileBlame { path: path.to_string(), blame }
}

fn repository() -> Vec<FileBlame> {
    vec![
        file(
            "README.md",
            Some(blame_of(&[
                ("Alice", "alice@example.com"),
                ("Alice", "alice@example.com"),
                ("Bob", "bob@example.com"),
            ])),
        ),
        file("logo.png", None),
        file("src/lib.rs", Some(blame_of(&[("Bob", "bob@example.com"), ("Alice", "ALICE@work.example")]))),
        file("empty.txt", Some(String::new())),
    ]
}

#[test]
fn one_file_by_name_and_by_email() {
    let blame = blame_of(&[
        ("Alice", "alice@example.com"),
        ("Bob", "bob@example.com"),
        ("Alice", "alice@work.example"),
    ]);
    let by_name = file_stats(&blame, "a.txt", Grouping::ByName);
    assert_eq!(
        snapshot(&by_name),
        vec![
            ("Alice".to_string(), 2, 0, vec!["a.txt".to_string()]),
            ("Bob".to_string(), 1, 0, vec!["a.txt".to_string()]),
        ]
    );
    let by_email = file_stats(&blame, "a.txt", Grouping::ByEmail);
    assert_eq!(
        snapshot(&by_email),
        vec![
            ("Alice <alice@example.com>".to_string(), 1, 0, vec!["a.txt".to_string()]),
            ("Alice <alice@work.example>".to_string(), 1, 0, vec!["a.txt".to_string()]),
            ("Bob <bob@example.com>".to_string(), 1, 0, vec!["a.txt".to_string()]),
        ]
    );
}

#[test]
fn content_before_any_author_is_attributed_to_nobody() {
    let blame = "\tfirst line\nauthor Alice\n\tsecond line\nauthor-mail <a@example.com>\n\tthird line\n";
    // by the author line alone, the second and third lines are Alice's
    let m = file_stats(blame, "f", Grouping::AuthorLine);
    assert_eq!(snapshot(&m), vec![("Alice".to_string(), 2, 0, vec!["f".to_string()])]);
    // with the address asked for, only the third
    let m = file_stats(blame, "f", Grouping::ByName);
    assert_eq!(snapshot(&m), vec![("Alice".to_string(), 1, 0, vec!["f".to_string()])]);
    // the ranker counts all three lines of the file, one of them Alice's
    assert_eq!(file_ownership(blame, &"Alice".chars().collect(), false), (1, 3));
}

#[test]
fn an_empty_name_counts_by_name_but_not_by_author_line() {
    let blame = "author \nauthor-mail <x@example.com>\n\tcontent\n";
    assert!(file_stats(blame, "f", Grouping::AuthorLine).is_empty());
    let m = file_stats(blame, "f", Grouping::ByName);
    assert_eq!(snapshot(&m), vec![(String::new(), 1, 0, vec!["f".to_string()])]);
    let m = file_stats(blame, "f", Grouping::ByEmail);
    assert_eq!(snapshot(&m), vec![(" <x@example.com>".to_string(), 1, 0, vec!["f".to_string()])]);
}

#[test]
fn lines_with_carriage_returns_and_padding() {
    let blame = "author   Alice  \r\nauthor-mail  <a@example.com> \r\n\tx\r\n\ty";
    let m = file_stats(blame, "f", Grouping::ByEmail);
    assert_eq!(snapshot(&m), vec![("Alice <a@example.com>".to_string(), 2, 0, vec!["f".to_string()])]);
}

#[test]
fn all_files_together() {
    let m = gather_loc_and_file_statsx(&repository(), true).expect("fits");
    assert_eq!(
        snapshot(&m),
        vec![
            ("Alice".to_string(), 3, 0, vec!["README.md".to_string(), "src/lib.rs".to_string()]),
            ("Bob".to_string(), 2, 0, vec!["README.md".to_string(), "src/lib.rs".to_string()]),
        ]
    );
    let m = gather_loc_and_file_statsx(&repository(), false).expect("fits");
    assert_eq!(m.len(), 3);
    assert_eq!(m.get("Alice <alice@example.com>").map(|s| s.loc), Some(2));
    assert_eq!(m.get("Alice <ALICE@work.example>").map(|s| s.loc), Some(1));
    let m = gather_loc_and_file_stats(&repository()).expect("fits");
    assert_eq!(m.get("Alice").map(|s| s.loc), Some(3));
}

#[test]
fn the_order_of_the_files_plays_no_part() {
    let forward = gather_loc_and_file_statsx(&repository(), false).expect("fits");
    let mut files = repository();
    files.reverse();
    let backward = gather_loc_and_file_statsx(&files, false).expect("fits");
    assert_eq!(snapshot(&forward), snapshot(&backward));
    let mut files = repository();
    files.swap(0, 2);
    let swapped = gather_loc_and_file_statsx(&files, false).expect("fits");
    assert_eq!(snapshot(&forward), snapshot(&swapped));
}

#[test]
fn merging_local_maps_in_any_order() {
    let a = file_stats(&blame_of(&[("Alice", "a@x"), ("Bob", "b@x")]), "one", Grouping::ByName);
    let b = file_stats(&blame_of(&[("Alice", "a@x"), ("Carol", "c@x")]), "two", Grouping::ByName);
    let mut ab = StatsMap::new();
    assert!(ab.can_absorb(&a));
    ab.absorb(&a);
    ab.absorb(&b);
    let mut ba = StatsMap::new();
    ba.absorb(&b);
    ba.absorb(&a);
    assert_eq!(snapshot(&ab), snapshot(&ba));
    assert_eq!(
        snapshot(&ab),
        vec![
            ("Alice".to_string(), 2, 0, vec!["one".to_string(), "two".to_string()]),
            ("Bob".to_string(), 1, 0, vec!["one".to_string()]),
            ("Carol".to_string(), 1, 0, vec!["two".to_string()]),
        ]
    );
}

#[test]
fn every_attributed_line_is_counted_once() {
    let files = repository();
    let m = gather_loc_and_file_statsx(&files, true).expect("fits");
    let total: usize = (0..m.len()).map(|i| m.stats_at(i).loc).sum();
    let mut file_totals = 0usize;
    for f in &files {
        if let Some(b) = &f.blame {
            file_totals += file_ownership(b, &Vec::new(), false).1;
        }
    }
    assert_eq!(total, 5);
    assert_eq!(total, file_totals);
}

#[test]
fn a_count_that_would_not_fit_is_refused() {
    let mut big = StatsMap::new();
    big.add_lines("Alice", "huge", usize::MAX);
    let one = file_stats(&blame_of(&[("Alice", "a@x")]), "one", Grouping::ByName);
    assert!(!big.can_absorb(&one));
    let other = file_stats(&blame_of(&[("Bob", "b@x")]), "one", Grouping::ByName);
    assert!(big.can_absorb(&other));
}

#[test]
fn ownership_by_name_and_by_email() {
    let files = repository();
    let rows = get_user_file_ownership(&files, " Alice ", false, usize::MAX, false);
    let got: Vec<(String, usize, usize)> =
        rows.iter().map(|r| (r.path.clone(), r.user_loc, r.file_total_loc)).collect();
    assert_eq!(got, vec![("README.md".to_string(), 2, 3), ("src/lib.rs".to_string(), 1, 2)]);
    // addresses are compared without brackets and without regard to case
    let rows = get_user_file_ownership(&files, "<Alice@Work.Example>", true, usize::MAX, false);
    let got: Vec<(String, usize, usize)> =
        rows.iter().map(|r| (r.path.clone(), r.user_loc, r.file_total_loc)).collect();
    assert_eq!(got, vec![("src/lib.rs".to_string(), 1, 2)]);
    // names are compared as they are
    assert!(get_user_file_ownership(&files, "alice", false, usize::MAX, false).is_empty());
    for r in get_user_file_ownership(&files, "Bob", false, usize::MAX, true) {
        assert!(0 < r.user_loc && r.user_loc <= r.file_total_loc);
        let pct = r.user_loc as f32 / r.file_total_loc as f32 * 100.0;
        assert!(0.0 < pct && pct <= 100.0);
    }
}

fn owned(path: &str, mine: usize, others: usize) -> FileBlame {
    let mut lines: Vec<(&str, &str)> = Vec::new();
    for _ in 0..mine {
        lines.push(("Alice", "a@x"));
    }
    for _ in 0..others {
        lines.push(("Bob", "b@x"));
    }
    file(path, Some(blame_of(&lines)))
}

fn paths(rows: &[git_insights::ownership::FileOwnershipRow]) -> Vec<String> {
    rows.iter().map(|r| r.path.clone()).collect()
}

#[test]
fn ranking_by_lines_and_by_share() {
    let files = vec![
        owned("half-4", 2, 2),
        owned("full-1", 1, 0),
        owned("full-3", 3, 0),
        owned("third", 1, 2),
        owned("none", 0, 4),
        owned("half-2b", 1, 1),
        owned("half-2a", 1, 1),
        owned("full-3b", 3, 0),
    ];
    // by lines: more lines first, then the greater share, then the path
    let rows = get_user_file_ownership(&files, "Alice", false, usize::MAX, false);
    assert_eq!(
        paths(&rows),
        vec!["full-3", "full-3b", "half-4", "full-1", "half-2a", "half-2b", "third"]
    );
    // by share: the greater share first, then more lines, then the path
    let rows = get_user_file_ownership(&files, "Alice", false, usize::MAX, true);
    assert_eq!(
        paths(&rows),
        vec!["full-3", "full-3b", "full-1", "half-4", "half-2a", "half-2b", "third"]
    );
    // the first rows of the ranking
    let rows = get_user_file_ownership(&files, "Alice", false, 3, true);
    assert_eq!(paths(&rows), vec!["full-3", "full-3b", "full-1"]);
    let rows = get_user_file_ownership(&files, "Alice", false, 0, true);
    assert!(rows.is_empty());
}

#[test]
fn test_get_user_file_ownership_top_and_sort_pct() {
    // three files that Alice owns whole, of 3, 2 and 4 lines
    let files = vec![owned("a.txt", 3, 0), owned("b.txt", 2, 0), owned("c.txt", 4, 0)];
    let rows = get_user_file_ownership(&files, "Alice", false, 2, true);
    // All 100% but ensure we only got top 2 rows
    assert_eq!(rows.len(), 2);
    assert_eq!(paths(&rows), vec!["c.txt", "a.txt"]);
}

#[test]
fn test_get_user_file_ownership_by_name_and_email() {
    let files = vec![owned("README.md", 4, 0), file("src.txt", Some(blame_of(&[("Bob", "bob@example.com"), ("Bob", "bob@example.com")])))];
    let rows = get_user_file_ownership(&files, "Alice", false, usize::MAX, false);
    let mut found_readme = false;
    for r in &rows {
        if r.path == "README.md" {
            found_readme = true;
            assert_eq!(r.user_loc, 4);
            assert_eq!(r.file_total_loc, 4);
            let pct = r.user_loc as f32 / r.file_total_loc as f32 * 100.0;
            assert!((pct - 100.0).abs() < 0.01);
        }
    }
    assert!(found_readme);
    let rows_email = get_user_file_ownership(&files, "a@x", true, usize::MAX, false);
    assert_eq!(paths(&rows_email), vec!["README.md"]);
    let rows_bob = get_user_file_ownership(&files, "Bob", false, usize::MAX, false);
    let mut found_src = false;
    for r in &rows_bob {
        if r.path == "src.txt" {
            found_src = true;
            assert_eq!(r.user_loc, 2);
            assert_eq!(r.file_total_loc, 2);
        }
    }
    assert!(found_src);
}

#[test]
fn files_in_scope() {
    let listing = Ok("README.md\n  src/lib.rs  \n\nlogo.png\nnotes.txt".to_string());
    let probe = Ok("HEAD:src/lib.rs\nHEAD:README.md\nnotes.txt\n\nHEAD:gone.txt".to_string());
    assert_eq!(
        tracked_text_files_head(&listing, &probe),
        Ok(vec!["README.md".to_string(), "src/lib.rs".to_string(), "notes.txt".to_string()])
    );
    // a probe that failed stands for no text files
    assert_eq!(tracked_text_files_head(&listing, &Err("grep failed".to_string())), Ok(Vec::new()));
    // without a listing there is no scope
    assert_eq!(
        tracked_text_files_head(&Err("not a repository".to_string()), &probe),
        Err("not a repository".to_string())
    );
}

#[test]
fn commit_timestamps_are_read_line_by_line() {
    let out = "1700000200\n 1700000100 \nnot a number\n\n+5\n-3\n18446744073709551615\n18446744073709551616";
    assert_eq!(
        collect_commit_timestamps(out),
        vec![1_700_000_200, 1_700_000_100, 5, u64::MAX]
    );
    assert!(collect_commit_timestamps("").is_empty());
}

#[test]
fn an_empty_repository_gives_empty_results() {
    let no_files: Vec<FileBlame> = Vec::new();
    assert!(gather_loc_and_file_statsx(&no_files, true).expect("fits").is_empty());
    assert!(gather_loc_and_file_stats(&no_files).expect("fits").is_empty());
    assert!(gather_commit_stats("").is_empty());
    assert!(get_user_file_ownership(&no_files, "Alice", false, 10, true).is_empty());
    let ts = collect_commit_timestamps("");
    assert_eq!(histogram_hour_of_day(&ts), [0usize; 24]);
    assert_eq!(histogram_day_of_week(&ts), [0usize; 7]);
    assert_eq!(histogram_day_of_month(&ts), [0usize; 31]);
    assert_eq!(heatmap_dow_by_hod(&ts), [[0usize; 24]; 7]);
    assert_eq!(heatmap_dom_by_hod(&ts), [[0usize; 24]; 31]);
    assert_eq!(compute_timeline_weeks(&ts, 4, 1_700_000_000), vec![0, 0, 0, 0]);
    assert_eq!(compute_calendar_heatmap(&ts, 3, 1_700_000_000), vec![vec![0usize; 3]; 7]);
    assert_eq!(
        tracked_text_files_head(&Ok(String::new()), &Ok(String::new())),
        Ok(Vec::<String>::new())
    );
}
