use git_insights::names::NameSet;
use git_insights::report::{all_files, map_json, order_by_loc, totals};
use git_insights::stats::StatsMap;
use git_insights::text::{
    chars_of, decimal_vec, line_strings, lower_vec, name_of, parse_u64, parse_usize, sort_texts,
    split_lines, string_of, strip_vec, trim_vec, CharClass,
};

fn sample() -> StatsMap {
    let mut m = StatsMap::new();
    m.add_lines("Bob", "a.rs", 3);
    m.add_lines("Alice", "a.rs", 7);
    m.add_lines("Carol", "b.rs", 3);
    m.add_lines("Alice", "b.rs", 1);
    m.add_commits("Dave", 4);
    m.add_commits("Bob", 1);
    m
}

#[test]
fn totals_of_a_map() {
    let m = sample();
    assert_eq!(totals(&m), Some((14, 5)));
    assert_eq!(totals(&StatsMap::new()), Some((0, 0)));
    let files = all_files(&m);
    assert_eq!(files.len(), 2);
    assert!(files.contains("a.rs") && files.contains("b.rs"));
    let mut big = StatsMap::new();
    big.add_lines("A", "f", usize::MAX);
    big.add_lines("B", "f", 1);
    assert_eq!(totals(&big), None);
}

#[test]
fn authors_in_the_order_of_their_lines() {
    let m = sample();
    let order = order_by_loc(&m);
    let names: Vec<&str> = order.iter().map(|&i| m.author_at(i).as_str()).collect();
    // Bob and Carol have the same lines; Bob was met first
    assert_eq!(names, vec!["Alice", "Bob", "Carol", "Dave"]);
    assert!(order_by_loc(&StatsMap::new()).is_empty());
}

#[test]
fn the_map_as_json() {
    let mut m = StatsMap::new();
    assert_eq!(map_json(&m), "{\n\n}");
    m.add_lines("Bob", "a.rs", 3);
    m.add_lines("Alice", "a.rs", 7);
    m.add_lines("Alice", "b.rs", 1);
    m.add_commits("Bob", 2);
    assert_eq!(
        map_json(&m),
        "{\n\"Bob\": {\"loc\": 3, \"commits\": 2, \"files\": [\"a.rs\"]},\n\"Alice\": {\"loc\": 8, \"commits\": 0, \"files\": [\"a.rs\", \"b.rs\"]}\n}"
    );
}

#[test]
fn the_map_of_authors() {
    let mut m = sample();
    assert_eq!(m.len(), 4);
    assert!(m.contains_key("Dave"));
    assert!(!m.contains_key("dave"));
    assert_eq!(m.find("Alice"), Some(1));
    assert_eq!(m.find("Eve"), None);
    m.set_commits("Eve", 9);
    m.set_commits("Bob", 0);
    assert_eq!(m.get("Eve").map(|s| (s.loc, s.commits)), Some((0, 9)));
    assert_eq!(m.get("Bob").map(|s| (s.loc, s.commits)), Some((3, 0)));
    let mut extra = git_insights::stats::AuthorStats::default();
    extra.loc = 2;
    extra.commits = 1;
    extra.files.insert("c.rs".to_string());
    m.join_into("Bob", &extra);
    let bob = m.get("Bob").expect("Bob");
    assert_eq!((bob.loc, bob.commits, bob.files.len()), (5, 1, 2));
}

#[test]
fn sets_of_names() {
    let mut s = NameSet::new();
    assert!(s.is_empty());
    assert!(s.insert("b".to_string()));
    assert!(s.insert("a".to_string()));
    assert!(!s.insert("b".to_string()));
    assert_eq!(s.len(), 2);
    assert_eq!(s.get(0), "b");
    assert_eq!(s.get(1), "a");
    let mut t = NameSet::new();
    t.insert("c".to_string());
    t.insert("a".to_string());
    s.extend(&t);
    assert_eq!(s.len(), 3);
    assert!(s.contains("c"));
    assert!(!s.contains("d"));
}

fn text(s: &str) -> Vec<char> {
    s.chars().collect()
}

#[test]
fn lines_of_a_text() {
    assert_eq!(line_strings(""), Vec::<String>::new());
    assert_eq!(line_strings("a"), vec!["a"]);
    assert_eq!(line_strings("a\n"), vec!["a"]);
    assert_eq!(line_strings("a\n\nb\r\nc\r"), vec!["a", "", "b", "c\r"]);
    assert_eq!(line_strings("\n"), vec![""]);
    assert_eq!(line_strings("\r\n\r\n"), vec!["", ""]);
    for s in ["", "x", "x\ny", "x\r\n\ny\n", "\n\n", "a\rb\n", "é\n\u{2028}z"] {
        let mine: Vec<String> = line_strings(s);
        let std: Vec<String> = s.lines().map(String::from).collect();
        assert_eq!(mine, std);
        let split: Vec<String> = split_lines(&text(s)).iter().map(string_of).collect();
        assert_eq!(split, std);
    }
}

#[test]
fn trimming() {
    for s in ["", "  a b \t\n", "\u{a0}x\u{3000}", "x", " \u{2003} ", "\u{85}é\u{1680}", "<a>"] {
        assert_eq!(string_of(&trim_vec(&text(s))), s.trim());
        assert_eq!(
            string_of(&strip_vec(&text(s), CharClass::Angle)),
            s.trim_matches(|c| c == '<' || c == '>')
        );
    }
    assert_eq!(string_of(&strip_vec(&text("<<a<b>>"), CharClass::Angle)), "a<b");
    assert_eq!(string_of(&lower_vec(&text("AbC-ÉZ@x"))), "abc-Éz@x");
    assert_eq!(string_of(&chars_of("héllo")), "héllo");
}

#[test]
fn numbers_in_decimal() {
    for s in ["0", "7", "+7", "007", "18446744073709551615", "18446744073709551616", "", "+", "-1", "1a", " 1", "１"] {
        assert_eq!(parse_u64(&text(s)), s.parse::<u64>().ok());
        assert_eq!(parse_usize(&text(s)), s.parse::<usize>().ok());
    }
    for n in [0usize, 9, 10, 99, 100, 12345, usize::MAX] {
        assert_eq!(string_of(&decimal_vec(n)), n.to_string());
    }
}

#[test]
fn names_and_order() {
    assert_eq!(string_of(&name_of(&text("Alice <a@x>"))), "Alice");
    assert_eq!(string_of(&name_of(&text("Alice"))), "Alice");
    assert_eq!(string_of(&name_of(&text("A <b> C <d>"))), "A <b> C");
    assert_eq!(string_of(&name_of(&text(" <x>"))), "");
    let mut std = vec!["b", "a", "", "ab", "B", "é", "a", "z"];
    let mine: Vec<String> =
        sort_texts(&std.iter().map(|s| text(s)).collect()).iter().map(string_of).collect();
    std.sort();
    assert_eq!(mine, std);
}
