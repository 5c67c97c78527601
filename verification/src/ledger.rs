//! Commits per author, read from the history in one of two ways: from a walk
//! over all commits, or from a summary with one line per author.

use vstd::prelude::*;
use crate::stats::{
    commits_of, entry_or_zero, fits_usize, joined_at, overwritten, AuthorStatsView, StatsMap,
};
use crate::text::{
    all_digits, chars_of, decimal, is_space, leading, leading_count, lemma_leading_bound,
    lemma_leading_is, lemma_trailing_is, lines, name_of, name_part, parse_usize, seqs,
    split_lines, string_of, strip_start, subvec, trim, trim_vec, unsigned_body, CharClass,
};

verus! {

// ---------------------------------------------------------------------------
// The walk over all commits
// ---------------------------------------------------------------------------

/// Whether `t` begins with `--` and ends with another `--`.
pub open spec fn is_record(t: Seq<char>) -> bool {
    t.len() >= 4 && t[0] == '-' && t[1] == '-' && t[t.len() - 2] == '-' && t[t.len() - 1] == '-'
}

/// The author that one line of the log names, if it names one. The log
/// holds one line per commit, with the author's name between two `--`. The
/// line is read without the white space around it; the author is what stands
/// between its first `--` and its last, again without white space around it,
/// whatever it holds. A line that is not of this form, or whose author is
/// empty, names nobody.
pub open spec fn record_name(line: Seq<char>) -> Option<Seq<char>> {
    let t = trim(line);
    if is_record(t) && trim(t.subrange(2, t.len() - 2)).len() > 0 {
        Some(trim(t.subrange(2, t.len() - 2)))
    } else {
        None
    }
}

/// The commits per author that the lines `ls` of the log stand for: each
/// line that names an author is one commit of that author.
pub open spec fn walk_map(ls: Seq<Seq<char>>) -> Map<Seq<char>, AuthorStatsView>
    decreases ls.len(),
{
    if ls.len() == 0 {
        Map::empty()
    } else {
        let rest = walk_map(ls.drop_last());
        match record_name(ls.last()) {
            Some(author) => joined_at(rest, author, commits_of(1)),
            None => rest,
        }
    }
}

/// How many of the lines `ls` name an author.
pub open spec fn walk_commits(ls: Seq<Seq<char>>) -> nat
    decreases ls.len(),
{
    if ls.len() == 0 {
        0
    } else {
        walk_commits(ls.drop_last()) + if record_name(ls.last()) is Some {
            1nat
        } else {
            0nat
        }
    }
}

/// There are no more commits than lines.
pub proof fn lemma_walk_commits_bound(ls: Seq<Seq<char>>)
    ensures
        walk_commits(ls) <= ls.len(),
    decreases ls.len(),
{
    if ls.len() > 0 {
        lemma_walk_commits_bound(ls.drop_last());
    }
}

/// The commits of an author are the lines that name them; an author whom no
/// line names is not in the map. Nobody has lines or files from the log.
pub proof fn lemma_walk_entry(ls: Seq<Seq<char>>, author: Seq<char>)
    ensures
        walk_map(ls).contains_key(author) <==> commits_by(ls, author) > 0,
        entry_or_zero(walk_map(ls), author).commits == commits_by(ls, author),
        entry_or_zero(walk_map(ls), author).loc == 0,
        entry_or_zero(walk_map(ls), author).files == Set::<Seq<char>>::empty(),
    decreases ls.len(),
{
    if ls.len() > 0 {
        lemma_walk_entry(ls.drop_last(), author);
        let rest = walk_map(ls.drop_last());
        match record_name(ls.last()) {
            Some(k) => {
                assert(entry_or_zero(rest, k).files.union(Set::<Seq<char>>::empty())
                    =~= entry_or_zero(rest, k).files);
                if k == author {
                    assert(walk_map(ls)[author].files =~= Set::<Seq<char>>::empty());
                }
            },
            None => {},
        }
    }
}

/// How many of the lines `ls` name `author`.
pub open spec fn commits_by(ls: Seq<Seq<char>>, author: Seq<char>) -> nat
    decreases ls.len(),
{
    if ls.len() == 0 {
        0
    } else {
        commits_by(ls.drop_last(), author) + if record_name(ls.last()) == Some(author) {
            1nat
        } else {
            0nat
        }
    }
}

/// The key of a commit is the key of the attribution: the line that the
/// log holds for an author whose name has no white space around it names
/// that author, whatever the name holds, a `--` too.
pub proof fn lemma_record_of_name(name: Seq<char>)
    requires
        name.len() > 0,
        trim(name) == name,
    ensures
        record_name(seq!['-', '-'] + name + seq!['-', '-']) == Some(name),
{
    let line = seq!['-', '-'] + name + seq!['-', '-'];
    assert(line[0] == '-');
    assert(line[line.len() - 1] == '-');
    assert(!is_space('-'));
    lemma_leading_is(line, CharClass::Space, 0);
    assert(strip_start(line, CharClass::Space) == line);
    lemma_trailing_is(line, CharClass::Space, 0);
    assert(line.take(line.len() as int) == line);
    assert(trim(line) == line);
    assert(line[1] == '-');
    assert(line[line.len() - 2] == '-');
    assert(line.subrange(2, line.len() - 2) == name);
}

/// The author that `line` names, as `record_name` defines it.
pub fn read_record(line: &Vec<char>) -> (r: Option<Vec<char>>)
    ensures
        match r {
            Some(author) => record_name(line@) == Some(author@),
            None => record_name(line@) is None,
        },
{
    let t = trim_vec(line);
    let n = t.len();
    if n < 4 || t[0] != '-' || t[1] != '-' || t[n - 2] != '-' || t[n - 1] != '-' {
        return None;
    }
    let author = trim_vec(&subvec(&t, 2, n - 2));
    if author.len() > 0 {
        Some(author)
    } else {
        None
    }
}

/// Commits per author, from a log that holds one line per commit, with the
/// author's name between two `--`. Lines that name nobody are passed over.
pub fn gather_commit_stats(log_output: &str) -> (m: StatsMap)
    ensures
        m.wf(),
        m@ == walk_map(lines(log_output@)),
        m.total_commits() == walk_commits(lines(log_output@)),
        m.total_loc() == 0,
{
    let text = chars_of(log_output);
    let ls = split_lines(&text);
    let mut m = StatsMap::new();
    let mut i: usize = 0;
    while i < ls.len()
        invariant
            i <= ls.len(),
            m.wf(),
            m@ == walk_map(seqs(ls@).take(i as int)),
            m.total_commits() == walk_commits(seqs(ls@).take(i as int)),
            m.total_loc() == 0,
        decreases ls.len() - i,
    {
        proof {
            let done = seqs(ls@).take(i as int);
            let next = seqs(ls@).take(i + 1);
            assert(next.drop_last() == done);
            assert(next.last() == ls@[i as int]@);
            lemma_walk_commits_bound(done);
        }
        match read_record(&ls[i]) {
            Some(author) => {
                let key = string_of(&author);
                proof {
                    if m@.contains_key(key@) {
                        m.lemma_entry_bound(key@);
                    }
                }
                m.add_commits(key.as_str(), 1);
            },
            None => {},
        }
        i += 1;
    }
    assert(seqs(ls@).take(ls.len() as int) == seqs(ls@));
    m
}

// ---------------------------------------------------------------------------
// The summary
// ---------------------------------------------------------------------------

/// The author and the number of commits that one line of a summary holds,
/// if it holds any. The line is read without the white space around it: its
/// leading digits are the number (0 where they write more than `usize`
/// holds), what follows them, again without white space around it, names the
/// author. A line without digits at its start, or without anything after
/// them, holds nothing. Where `by_name` holds, the author is what stands
/// before the last ` <` of the name.
pub open spec fn summary_entry(line: Seq<char>, by_name: bool) -> Option<(Seq<char>, nat)> {
    let l = trim(line);
    let d = leading(l, CharClass::Digit) as int;
    let rest = trim(l.skip(d));
    if d == 0 || rest.len() == 0 {
        None
    } else {
        Some(
            (
                if by_name {
                    name_part(rest)
                } else {
                    rest
                },
                if decimal(l.take(d)) <= usize::MAX {
                    decimal(l.take(d))
                } else {
                    0
                },
            ),
        )
    }
}

/// The commits per author that the lines `ls` of a summary stand for; the
/// numbers of lines with the same author add up.
pub open spec fn summary_map(ls: Seq<Seq<char>>, by_name: bool) -> Map<Seq<char>, AuthorStatsView>
    decreases ls.len(),
{
    if ls.len() == 0 {
        Map::empty()
    } else {
        let rest = summary_map(ls.drop_last(), by_name);
        match summary_entry(ls.last(), by_name) {
            Some((author, n)) => joined_at(rest, author, commits_of(n)),
            None => rest,
        }
    }
}

/// What the first `i` lines give is part of what all give.
pub proof fn lemma_summary_grows(ls: Seq<Seq<char>>, by_name: bool, i: int, k: Seq<char>)
    requires
        0 <= i <= ls.len(),
        summary_map(ls.take(i), by_name).contains_key(k),
    ensures
        summary_map(ls, by_name).contains_key(k),
        summary_map(ls.take(i), by_name)[k].commits <= summary_map(ls, by_name)[k].commits,
        summary_map(ls.take(i), by_name)[k].loc <= summary_map(ls, by_name)[k].loc,
    decreases ls.len() - i,
{
    if i == ls.len() {
        assert(ls.take(i) == ls);
    } else {
        assert(ls.drop_last().take(i) == ls.take(i));
        lemma_summary_grows(ls.drop_last(), by_name, i, k);
    }
}

/// The author and the number of commits that `line` holds, as
/// `summary_entry` defines them.
pub fn read_summary_line(line: &Vec<char>, by_name: bool) -> (r: Option<(Vec<char>, usize)>)
    ensures
        match r {
            Some((author, n)) => summary_entry(line@, by_name) == Some((author@, n as nat)),
            None => summary_entry(line@, by_name) is None,
        },
{
    let l = trim_vec(line);
    let d = leading_count(&l, CharClass::Digit);
    if d == 0 {
        return None;
    }
    let digits = subvec(&l, 0, d);
    let tail = subvec(&l, d, l.len());
    let rest = trim_vec(&tail);
    if rest.len() == 0 {
        return None;
    }
    proof {
        lemma_leading_bound(l@, CharClass::Digit);
        assert(digits@ == l@.take(d as int));
        assert(tail@ == l@.skip(d as int));
        assert(all_digits(digits@)) by {
            assert forall|j: int| 0 <= j < digits@.len() implies crate::text::is_digit(
                #[trigger] digits@[j],
            ) by {
                assert(digits@[j] == l@[j]);
                assert(CharClass::Digit.has(l@[j]));
            }
        }
        assert(digits@.len() > 0 && digits@[0] != '+') by {
            assert(CharClass::Digit.has(l@[0]));
        }
        assert(unsigned_body(digits@) == digits@);
    }
    let n: usize = match parse_usize(&digits) {
        Some(n) => n,
        None => 0,
    };
    let author = if by_name {
        name_of(&rest)
    } else {
        rest
    };
    Some((author, n))
}

/// Commits per author, from a summary with one line per author: a number,
/// white space, and the author as `Name <address>`. Authors are told apart by
/// name where `by_name` holds, by name and address where not. Lines that hold
/// no entry are passed over. Nothing is returned where a count would leave
/// `usize`.
pub fn gather_commit_statsx(summary: &str, by_name: bool) -> (r: Option<StatsMap>)
    ensures
        r is Some <==> fits_usize(summary_map(lines(summary@), by_name)),
        match r {
            Some(m) => m.wf() && m@ == summary_map(lines(summary@), by_name) && m.total_loc()
                == 0,
            None => true,
        },
{
    let text = chars_of(summary);
    let ls = split_lines(&text);
    let mut m = StatsMap::new();
    let mut i: usize = 0;
    let ghost all = seqs(ls@);
    while i < ls.len()
        invariant
            i <= ls.len(),
            all == seqs(ls@),
            all == lines(summary@),
            m.wf(),
            m@ == summary_map(all.take(i as int), by_name),
            m.total_loc() == 0,
        decreases ls.len() - i,
    {
        proof {
            assert(all.take(i + 1).drop_last() == all.take(i as int));
            assert(all.take(i + 1).last() == ls@[i as int]@);
            m.lemma_fits();
        }
        match read_summary_line(&ls[i], by_name) {
            Some((author, n)) => {
                let key = string_of(&author);
                let held: usize = match m.get(key.as_str()) {
                    Some(s) => s.commits,
                    None => 0,
                };
                if held.checked_add(n).is_none() {
                    proof {
                        let next = summary_map(all.take(i + 1), by_name);
                        assert(next == joined_at(m@, key@, commits_of(n as nat)));
                        assert(next.contains_key(key@));
                        assert(next[key@].commits > usize::MAX);
                        lemma_summary_grows(all, by_name, i + 1, key@);
                    }
                    return None;
                }
                m.add_commits(key.as_str(), n);
            },
            None => {},
        }
        i += 1;
    }
    proof {
        assert(all.take(ls.len() as int) == all);
        m.lemma_fits();
    }
    Some(m)
}

// ---------------------------------------------------------------------------
// Bringing the commits into the statistics
// ---------------------------------------------------------------------------

/// Why the commits could not be brought into the statistics.
#[derive(Debug)]
pub enum LedgerError {
    /// The history of commits could not be had; the message says why.
    Unavailable(String),
    /// A count of commits does not fit `usize`.
    TooLarge,
}

/// Brings the commits of the log `log` into `stats`, where the log was had:
/// the commits of the log replace what `stats` held of commits. A log that
/// could not be had leaves `stats` as it is, with its lines and files, and
/// the error says so.
pub fn apply_commit_log(stats: &mut StatsMap, log: &Result<String, String>) -> (r: Result<
    (),
    LedgerError,
>)
    requires
        old(stats).wf(),
    ensures
        final(stats).wf(),
        final(stats).total_loc() == old(stats).total_loc(),
        match *log {
            Ok(l) => r is Ok && final(stats)@ == overwritten(old(stats)@, walk_map(lines(l@))),
            Err(e) => r matches Err(LedgerError::Unavailable(m)) && m@ == e@ && *final(stats)
                == *old(stats),
        },
{
    match log {
        Ok(l) => {
            let ledger = gather_commit_stats(l.as_str());
            stats.merge_commits(&ledger);
            Ok(())
        },
        Err(e) => Err(LedgerError::Unavailable(e.clone())),
    }
}

/// Brings the commits of the summary `summary` into `stats`, where the
/// summary was had and its counts fit `usize`: the commits of the summary
/// replace what `stats` held of commits. Otherwise `stats` stays as it is,
/// with its lines and files, and the error says which of the two it was.
pub fn apply_commit_summary(
    stats: &mut StatsMap,
    summary: &Result<String, String>,
    by_name: bool,
) -> (r: Result<(), LedgerError>)
    requires
        old(stats).wf(),
    ensures
        final(stats).wf(),
        final(stats).total_loc() == old(stats).total_loc(),
        match *summary {
            Ok(s) => if fits_usize(summary_map(lines(s@), by_name)) {
                r is Ok && final(stats)@ == overwritten(
                    old(stats)@,
                    summary_map(lines(s@), by_name),
                )
            } else {
                r matches Err(LedgerError::TooLarge) && *final(stats) == *old(stats)
            },
            Err(e) => r matches Err(LedgerError::Unavailable(m)) && m@ == e@ && *final(stats)
                == *old(stats),
        },
{
    match summary {
        Ok(s) => match gather_commit_statsx(s.as_str(), by_name) {
            Some(ledger) => {
                stats.merge_commits(&ledger);
                Ok(())
            },
            None => Err(LedgerError::TooLarge),
        },
        Err(e) => Err(LedgerError::Unavailable(e.clone())),
    }
}

} // verus!
