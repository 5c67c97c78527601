use git_insights::blame::{file_stats, Grouping};
use git_insights::ledger::{
    apply_commit_log, apply_commit_summary, gather_commit_stats, gather_commit_statsx,
    read_record, LedgerError,
};
use git_insights::stats::{AuthorStats, StatsMap, UserStats};
use git_insights::user::{gather_user_stats, tag_names, TagLog};

#[test]
fn test_author_stats_default() {
    let stats = AuthorStats::default();
    assert_eq!(stats.loc, 0);
    assert_eq!(stats.commits, 0);
    assert!(stats.files.is_empty());
}

#[test]
fn test_user_stats_default() {
    let stats = UserStats::default();
    assert!(stats.tags.is_empty());
    assert_eq!(stats.pull_requests, 0);
}

#[test]
fn test_gather_commit_stats_runs_ok() {
    // The log of a repository with three commits of two authors.
    let log = "--Alice--\n--Bob--\n--Alice--";
    let stats = gather_commit_stats(log);
    // The project should have at least one commit/author.
    assert!(!stats.is_empty());
    assert_eq!(stats.len(), 2);
    assert_eq!(stats.get("Alice").map(|s| s.commits), Some(2));
    assert_eq!(stats.get("Bob").map(|s| s.commits), Some(1));
    assert_eq!(stats.get("Alice").map(|s| s.loc), Some(0));
}

#[test]
fn test_gather_user_stats_for_unknown_user() {
    // Test with a user that almost certainly doesn't exist: no tag holds a
    // commit of theirs, and the log of their merges is empty.
    let logs = vec![
        TagLog { tag: "v1.0".to_string(), log: Ok(String::new()) },
        TagLog { tag: "v1.1".to_string(), log: Err("bad revision".to_string()) },
    ];
    let stats = gather_user_stats(&logs, &Ok(String::new()));
    assert_eq!(stats.pull_requests, 0);
    assert!(stats.tags.is_empty());
}

#[test]
fn test_author_stats_to_json() {
    let mut author_stats = AuthorStats::default();
    author_stats.loc = 100;
    author_stats.commits = 10;
    author_stats.files.insert("file1.rs".to_string());
    author_stats.files.insert("file2.rs".to_string());

    let json = author_stats.to_json();
    let expected_json1 = "{\"loc\": 100, \"commits\": 10, \"files\": [\"file1.rs\", \"file2.rs\"]}";
    let expected_json2 = "{\"loc\": 100, \"commits\": 10, \"files\": [\"file2.rs\", \"file1.rs\"]}";

    assert!(json == expected_json1 || json == expected_json2, "Actual JSON: {}", json);
}

#[test]
fn test_user_stats_to_json() {
    let mut user_stats = UserStats::default();
    user_stats.pull_requests = 5;
    user_stats.tags.insert("v1.0".to_string());
    user_stats.tags.insert("v1.1".to_string());

    let json = user_stats.to_json();
    let expected_json1 = "{\"tags\": [\"v1.0\", \"v1.1\"], \"pull_requests\": 5}";
    let expected_json2 = "{\"tags\": [\"v1.1\", \"v1.0\"], \"pull_requests\": 5}";

    assert!(json == expected_json1 || json == expected_json2, "Actual JSON: {}", json);
}

#[test]
fn json_keeps_the_order_of_insertion_and_holds_no_file_twice() {
    let mut a = AuthorStats::default();
    a.files.insert("b.rs".to_string());
    a.files.insert("a.rs".to_string());
    assert!(!a.files.insert("b.rs".to_string()));
    assert_eq!(a.files.len(), 2);
    assert_eq!(a.to_json(), "{\"loc\": 0, \"commits\": 0, \"files\": [\"b.rs\", \"a.rs\"]}");
    assert_eq!(AuthorStats::default().to_json(), "{\"loc\": 0, \"commits\": 0, \"files\": []}");
    assert_eq!(UserStats::default().to_json(), "{\"tags\": [], \"pull_requests\": 0}");
}

#[test]
fn commit_walk_passes_over_empty_pieces() {
    let stats = gather_commit_stats("");
    assert!(stats.is_empty());
    let stats = gather_commit_stats("--  --\n----\n-- Carol --");
    assert_eq!(stats.len(), 1);
    assert_eq!(stats.get("Carol").map(|s| s.commits), Some(1));
}

#[test]
fn commit_summary_by_email_and_by_name() {
    let out = "     3\tAlice <alice@example.com>\n     2\tBob <bob@example.com>\n\n     4\tAlice <alice@work.example>\nnot a line\n  7  \n";
    let by_email = gather_commit_statsx(out, false).expect("fits");
    assert_eq!(by_email.len(), 3);
    assert_eq!(by_email.get("Alice <alice@example.com>").map(|s| s.commits), Some(3));
    assert_eq!(by_email.get("Alice <alice@work.example>").map(|s| s.commits), Some(4));
    assert_eq!(by_email.get("Bob <bob@example.com>").map(|s| s.commits), Some(2));
    let by_name = gather_commit_statsx(out, true).expect("fits");
    assert_eq!(by_name.len(), 2);
    assert_eq!(by_name.get("Alice").map(|s| s.commits), Some(7));
    assert_eq!(by_name.get("Bob").map(|s| s.commits), Some(2));
    assert!(by_name.get("not a line").is_none());
}

#[test]
fn commit_summary_splits_the_name_at_the_last_address() {
    let out = "1\tA <x> B <b@example.com>";
    let by_name = gather_commit_statsx(out, true).expect("fits");
    assert_eq!(by_name.get("A <x> B").map(|s| s.commits), Some(1));
}

#[test]
fn commit_summary_counts_that_do_not_fit() {
    // a number that is too large for the machine counts as none
    let out = "99999999999999999999999999\tZed <z@example.com>\n1\tZed <z@example.com>";
    let m = gather_commit_statsx(out, true).expect("fits");
    assert_eq!(m.get("Zed").map(|s| s.commits), Some(1));
    // a sum that is too large gives nothing
    let out = format!("{}\tZed <z@example.com>\n1\tZed <z@example.com>", usize::MAX);
    assert!(gather_commit_statsx(&out, true).is_none());
    assert!(gather_commit_statsx(&out, false).is_none());
    let out = format!("{}\tZed <z@example.com>\n1\tTed <z@example.com>", usize::MAX);
    assert!(gather_commit_statsx(&out, true).is_some());
}

#[test]
fn commit_counts_replace_and_do_not_add() {
    let mut stats = StatsMap::new();
    stats.add_lines("Alice", "a.rs", 10);
    stats.add_commits("Alice", 1);
    let mut ledger = StatsMap::new();
    ledger.add_commits("Alice", 5);
    ledger.add_commits("Bob", 2);
    stats.merge_commits(&ledger);
    stats.merge_commits(&ledger);
    assert_eq!(stats.len(), 2);
    let alice = stats.get("Alice").expect("Alice");
    assert_eq!((alice.loc, alice.commits), (10, 5));
    assert!(alice.files.contains("a.rs"));
    let bob = stats.get("Bob").expect("Bob");
    assert_eq!((bob.loc, bob.commits), (0, 2));
    assert!(bob.files.is_empty());
}

#[test]
fn user_stats_from_tags_and_merges() {
    assert_eq!(tag_names("v1.0\nv1.1\nv2.0"), vec!["v1.0", "v1.1", "v2.0"]);
    let logs = vec![
        TagLog { tag: "v1.0".to_string(), log: Ok("Alice\nAlice".to_string()) },
        TagLog { tag: "v1.1".to_string(), log: Ok(String::new()) },
        TagLog { tag: "v2.0".to_string(), log: Err("no such tag".to_string()) },
        TagLog { tag: "v3.0".to_string(), log: Ok("Alice".to_string()) },
    ];
    let merges = "Merge pull request #12 from x/y\nMerge branch 'dev'\nMerged in feature\nMerge remote-tracking branch\nfix: typo";
    let stats = gather_user_stats(&logs, &Ok(merges.to_string()));
    assert_eq!(stats.pull_requests, 3);
    assert_eq!(stats.tags.len(), 2);
    assert!(stats.tags.contains("v1.0"));
    assert!(stats.tags.contains("v3.0"));
    assert!(!stats.tags.contains("v1.1"));
    let stats = gather_user_stats(&logs, &Err("failed".to_string()));
    assert_eq!(stats.pull_requests, 0);
}

#[test]
fn a_commit_is_one_line_whatever_the_name_holds() {
    // the one commit of an author named `A--B`
    let stats = gather_commit_stats("--A--B--");
    assert_eq!(stats.len(), 1);
    assert_eq!(stats.get("A--B").map(|s| (s.loc, s.commits)), Some((0, 1)));
    assert!(stats.get("A").is_none());
    // three commits of two authors, with white space and lines that name nobody
    let log = "  --A--B--  \r\n\n--Carol--\nnoise\n--\n---\n-- A--B --\n--x\nx--";
    let stats = gather_commit_stats(log);
    assert_eq!(stats.len(), 2);
    assert_eq!(stats.get("A--B").map(|s| s.commits), Some(2));
    assert_eq!(stats.get("Carol").map(|s| s.commits), Some(1));
    let name: Option<String> = read_record(&"-- - --".chars().collect()).map(|v| v.iter().collect());
    assert_eq!(name.as_deref(), Some("-"));
    assert!(read_record(&"-----".chars().collect()).is_some());
    assert!(read_record(&"----".chars().collect()).is_none());
    assert!(read_record(&"---".chars().collect()).is_none());
}

#[test]
fn commits_and_lines_meet_under_one_key() {
    let blame = "author A--B\nauthor-mail <ab@example.com>\n\tline one\n\tline two\n";
    let mut stats = file_stats(blame, "f.rs", Grouping::ByName);
    let log: Result<String, String> = Ok("--A--B--\n--A--B--\n--A--B--".to_string());
    assert!(apply_commit_log(&mut stats, &log).is_ok());
    assert_eq!(stats.len(), 1);
    let entry = stats.get("A--B").expect("one key");
    assert_eq!((entry.loc, entry.commits), (2, 3));
    assert!(entry.files.contains("f.rs"));
}

#[test]
fn a_ledger_that_fails_leaves_lines_and_files() {
    let blame = "author Alice\nauthor-mail <a@example.com>\n\tline\n";
    let mut stats = file_stats(blame, "f.rs", Grouping::ByName);
    stats.add_commits("Alice", 4);
    let failed: Result<String, String> = Err("fatal: bad revision".to_string());
    match apply_commit_log(&mut stats, &failed) {
        Err(LedgerError::Unavailable(m)) => assert_eq!(m, "fatal: bad revision"),
        other => panic!("expected an error, got {:?}", other),
    }
    match apply_commit_summary(&mut stats, &failed, true) {
        Err(LedgerError::Unavailable(m)) => assert_eq!(m, "fatal: bad revision"),
        other => panic!("expected an error, got {:?}", other),
    }
    let too_large: Result<String, String> =
        Ok(format!("{}\tAlice <a@x>\n1\tAlice <b@x>", usize::MAX));
    assert!(matches!(
        apply_commit_summary(&mut stats, &too_large, true),
        Err(LedgerError::TooLarge)
    ));
    let alice = stats.get("Alice").expect("Alice");
    assert_eq!((alice.loc, alice.commits, alice.files.len()), (1, 4, 1));
    let summary: Result<String, String> = Ok("7\tAlice <a@x>\n2\tBob <b@x>".to_string());
    assert!(apply_commit_summary(&mut stats, &summary, true).is_ok());
    assert_eq!(stats.get("Alice").map(|s| (s.loc, s.commits)), Some((1, 7)));
    assert_eq!(stats.get("Bob").map(|s| (s.loc, s.commits)), Some((0, 2)));
}
