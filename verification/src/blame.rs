//! Line attribution: reading the per-line attribution of one file, and
//! bringing the files of a repository together into one map of authors.

use vstd::prelude::*;
use crate::stats::{
    absorbed, entry_or_zero, fits_usize, joined_at, lemma_absorbed_associates,
    lemma_absorbed_commutes, lines_in, AuthorStatsView, StatsMap,
};
use crate::text::{
    after_prefix, chars_of, lines, push_all, seqs, split_lines, starts_with, string_of, trim,
    trim_vec,
};

verus! {

/// By what the lines of a file are attributed.
#[derive(Clone, Copy, Debug)]
pub enum Grouping {
    /// By the author's name, read from the author line alone; a line whose
    /// author has an empty name is attributed to nobody.
    AuthorLine,
    /// By the author's name, for lines that carry both a name and an address.
    ByName,
    /// By name and address together, as `Name <address>`.
    ByEmail,
}

/// What is known, while an attribution is read line by line, of the commit
/// that the next content line belongs to.
pub struct BlameState {
    /// The author's name, once an author line was read.
    pub name: Option<Seq<char>>,
    /// The author's address, as written (in angle brackets), once a mail line
    /// was read.
    pub mail: Option<Seq<char>>,
}

/// The state in which nothing is known.
pub open spec fn start_state() -> BlameState {
    BlameState { name: None, mail: None }
}

/// The state after `line` was read in state `st`: an author line sets the
/// name, a mail line the address, any other line changes nothing.
pub open spec fn step(st: BlameState, line: Seq<char>) -> BlameState {
    if starts_with(line, "author "@) {
        BlameState { name: Some(trim(line.skip("author "@.len() as int))), mail: st.mail }
    } else if starts_with(line, "author-mail "@) {
        BlameState { name: st.name, mail: Some(trim(line.skip("author-mail "@.len() as int))) }
    } else {
        st
    }
}

/// The state after all of `ls` were read.
pub open spec fn state_after(ls: Seq<Seq<char>>) -> BlameState
    decreases ls.len(),
{
    if ls.len() == 0 {
        start_state()
    } else {
        step(state_after(ls.drop_last()), ls.last())
    }
}

/// Whether `line` holds a line of the file's content: those begin with a tab.
pub open spec fn is_content(line: Seq<char>) -> bool {
    line.len() > 0 && line[0] == '\t'
}

/// The author to whom a content line read in state `st` is attributed, if
/// to anybody.
pub open spec fn key_of(grouping: Grouping, st: BlameState) -> Option<Seq<char>> {
    match grouping {
        Grouping::AuthorLine => match st.name {
            Some(n) => if n.len() > 0 {
                Some(n)
            } else {
                None
            },
            None => None,
        },
        Grouping::ByName => match (st.name, st.mail) {
            (Some(n), Some(m)) => Some(n),
            _ => None,
        },
        Grouping::ByEmail => match (st.name, st.mail) {
            (Some(n), Some(m)) => Some(n + seq![' '] + m),
            _ => None,
        },
    }
}

/// The author of the last line of `ls`, where it is a content line that is
/// attributed to somebody.
pub open spec fn last_key(ls: Seq<Seq<char>>, grouping: Grouping) -> Option<Seq<char>> {
    if ls.len() > 0 && is_content(ls.last()) {
        key_of(grouping, state_after(ls.drop_last()))
    } else {
        None
    }
}

/// The authors of the file `file` whose attribution is `ls`, each with the
/// number of content lines attributed to them and with `file` as their file.
pub open spec fn blame_map(ls: Seq<Seq<char>>, file: Seq<char>, grouping: Grouping) -> Map<
    Seq<char>,
    AuthorStatsView,
>
    decreases ls.len(),
{
    if ls.len() == 0 {
        Map::empty()
    } else {
        let rest = blame_map(ls.drop_last(), file, grouping);
        match last_key(ls, grouping) {
            Some(k) => joined_at(rest, k, lines_in(file, 1)),
            None => rest,
        }
    }
}

/// How many content lines of `ls` are attributed to somebody.
pub open spec fn attributed(ls: Seq<Seq<char>>, grouping: Grouping) -> nat
    decreases ls.len(),
{
    if ls.len() == 0 {
        0
    } else {
        attributed(ls.drop_last(), grouping) + if last_key(ls, grouping) is Some {
            1nat
        } else {
            0nat
        }
    }
}

/// How many content lines `ls` holds.
pub open spec fn content_lines(ls: Seq<Seq<char>>) -> nat
    decreases ls.len(),
{
    if ls.len() == 0 {
        0
    } else {
        content_lines(ls.drop_last()) + if is_content(ls.last()) {
            1nat
        } else {
            0nat
        }
    }
}

/// The attributed lines are content lines, and those are lines.
pub proof fn lemma_attributed_bound(ls: Seq<Seq<char>>, grouping: Grouping)
    ensures
        attributed(ls, grouping) <= content_lines(ls) <= ls.len(),
    decreases ls.len(),
{
    if ls.len() > 0 {
        lemma_attributed_bound(ls.drop_last(), grouping);
    }
}

/// Whether every content line of `ls` is attributed to somebody.
pub open spec fn all_attributed(ls: Seq<Seq<char>>, grouping: Grouping) -> bool {
    forall|i: int|
        0 <= i < ls.len() && is_content(#[trigger] ls[i]) ==> key_of(
            grouping,
            state_after(ls.take(i)),
        ) is Some
}

/// Where every content line is attributed, the attributed lines are all the
/// content lines.
pub proof fn lemma_all_attributed(ls: Seq<Seq<char>>, grouping: Grouping)
    requires
        all_attributed(ls, grouping),
    ensures
        attributed(ls, grouping) == content_lines(ls),
    decreases ls.len(),
{
    if ls.len() > 0 {
        let front = ls.drop_last();
        assert forall|i: int| 0 <= i < front.len() && is_content(#[trigger] front[i]) implies key_of(
            grouping,
            state_after(front.take(i)),
        ) is Some by {
            assert(front[i] == ls[i]);
            assert(front.take(i) == ls.take(i));
        }
        lemma_all_attributed(front, grouping);
        assert(ls.take(ls.len() - 1) == front);
        assert(ls[ls.len() - 1] == ls.last());
    }
}

/// What the reader of an attribution knows of the current commit.
pub struct Scan {
    name: Option<Vec<char>>,
    mail: Option<Vec<char>>,
}

/// The text of `o`, where it holds one.
pub open spec fn view_opt(o: Option<Vec<char>>) -> Option<Seq<char>> {
    match o {
        Some(v) => Some(v@),
        None => None,
    }
}

impl View for Scan {
    type V = BlameState;

    closed spec fn view(&self) -> BlameState {
        BlameState { name: view_opt(self.name), mail: view_opt(self.mail) }
    }
}

impl Scan {
    /// The reader before the first line.
    pub fn start() -> (s: Self)
        ensures
            s@ == start_state(),
    {
        Scan { name: None, mail: None }
    }

    /// The reader after `line`.
    pub fn advance(self, line: &Vec<char>) -> (s: Self)
        ensures
            s@ == step(self@, line@),
    {
        match after_prefix(line, "author ") {
            Some(rest) => Scan { name: Some(trim_vec(&rest)), mail: self.mail },
            None => match after_prefix(line, "author-mail ") {
                Some(rest) => Scan { name: self.name, mail: Some(trim_vec(&rest)) },
                None => self,
            },
        }
    }

    /// The author to whom a content line read now is attributed.
    pub fn key(&self, grouping: Grouping) -> (k: Option<Vec<char>>)
        ensures
            view_opt(k) == key_of(grouping, self@),
    {
        match grouping {
            Grouping::AuthorLine => match &self.name {
                Some(n) => if n.len() > 0 {
                    Some(n.clone())
                } else {
                    None
                },
                None => None,
            },
            Grouping::ByName => match (&self.name, &self.mail) {
                (Some(n), Some(_)) => Some(n.clone()),
                _ => None,
            },
            Grouping::ByEmail => match (&self.name, &self.mail) {
                (Some(n), Some(m)) => {
                    let mut k = n.clone();
                    k.push(' ');
                    push_all(&mut k, m);
                    Some(k)
                },
                _ => None,
            },
        }
    }

    /// The name read last, if any.
    pub fn name(&self) -> (n: &Option<Vec<char>>)
        ensures
            view_opt(*n) == self@.name,
    {
        &self.name
    }

    /// The address read last, if any.
    pub fn mail(&self) -> (m: &Option<Vec<char>>)
        ensures
            view_opt(*m) == self@.mail,
    {
        &self.mail
    }
}

/// The statistics of one file: for each author to whom lines of `file` are
/// attributed, the number of those lines, and `file`.
pub fn file_stats(blame: &str, file: &str, grouping: Grouping) -> (m: StatsMap)
    ensures
        m.wf(),
        m@ == blame_map(lines(blame@), file@, grouping),
        m.total_loc() == attributed(lines(blame@), grouping),
        m.total_commits() == 0,
{
    let text = chars_of(blame);
    let ls = split_lines(&text);
    let mut m = StatsMap::new();
    let mut st = Scan::start();
    let mut i: usize = 0;
    while i < ls.len()
        invariant
            i <= ls.len(),
            m.wf(),
            st@ == state_after(seqs(ls@).take(i as int)),
            m@ == blame_map(seqs(ls@).take(i as int), file@, grouping),
            m.total_loc() == attributed(seqs(ls@).take(i as int), grouping),
            m.total_commits() == 0,
        decreases ls.len() - i,
    {
        let line = &ls[i];
        let ghost done = seqs(ls@).take(i as int);
        let ghost next = seqs(ls@).take(i + 1);
        proof {
            assert(next.drop_last() == done);
            assert(next.last() == line@);
            lemma_attributed_bound(done, grouping);
        }
        if line.len() > 0 && line[0] == '\t' {
            match st.key(grouping) {
                Some(k) => {
                    let author = string_of(&k);
                    proof {
                        if m@.contains_key(author@) {
                            m.lemma_entry_bound(author@);
                        }
                    }
                    m.add_lines(author.as_str(), file, 1);
                },
                None => {},
            }
        }
        st = st.advance(line);
        i += 1;
    }
    assert(seqs(ls@).take(ls.len() as int) == seqs(ls@));
    m
}

// ---------------------------------------------------------------------------
// All files together
// ---------------------------------------------------------------------------

/// One file of the repository with its attribution, as it was obtained: the
/// attribution is missing where it could not be had.
#[derive(Debug)]
pub struct FileBlame {
    pub path: String,
    pub blame: Option<String>,
}

/// A file and its attribution, as text.
pub struct FileBlameView {
    pub path: Seq<char>,
    pub blame: Option<Seq<char>>,
}

impl View for FileBlame {
    type V = FileBlameView;

    open spec fn view(&self) -> FileBlameView {
        FileBlameView {
            path: self.path@,
            blame: match self.blame {
                Some(b) => Some(b@),
                None => None,
            },
        }
    }
}

/// The views of `v`, one per element.
pub open spec fn file_views(v: Seq<FileBlame>) -> Seq<FileBlameView> {
    Seq::new(v.len(), |i: int| v[i]@)
}

/// The authors of one file: none where its attribution is missing.
pub open spec fn file_map(fb: FileBlameView, grouping: Grouping) -> Map<
    Seq<char>,
    AuthorStatsView,
> {
    match fb.blame {
        Some(b) => blame_map(lines(b), fb.path, grouping),
        None => Map::empty(),
    }
}

/// The map `m` after the file `fb` was taken in. A file whose attribution is
/// missing is passed over.
pub open spec fn take_in(
    m: Map<Seq<char>, AuthorStatsView>,
    fb: FileBlameView,
    grouping: Grouping,
) -> Map<Seq<char>, AuthorStatsView> {
    match fb.blame {
        Some(b) => absorbed(m, file_map(fb, grouping)),
        None => m,
    }
}

/// The map of all authors of the files `fbs`, taken in one after the other.
pub open spec fn aggregate(fbs: Seq<FileBlameView>, grouping: Grouping) -> Map<
    Seq<char>,
    AuthorStatsView,
>
    decreases fbs.len(),
{
    if fbs.len() == 0 {
        Map::empty()
    } else {
        take_in(aggregate(fbs.drop_last(), grouping), fbs.last(), grouping)
    }
}

/// The attributed lines of one file: none where its attribution is missing.
pub open spec fn file_attributed(fb: FileBlameView, grouping: Grouping) -> nat {
    match fb.blame {
        Some(b) => attributed(lines(b), grouping),
        None => 0,
    }
}

/// The attributed lines of all the files `fbs`.
pub open spec fn total_attributed(fbs: Seq<FileBlameView>, grouping: Grouping) -> nat
    decreases fbs.len(),
{
    if fbs.len() == 0 {
        0
    } else {
        total_attributed(fbs.drop_last(), grouping) + file_attributed(fbs.last(), grouping)
    }
}

/// The content lines of one file: none where its attribution is missing.
pub open spec fn file_content(fb: FileBlameView) -> nat {
    match fb.blame {
        Some(b) => content_lines(lines(b)),
        None => 0,
    }
}

/// The content lines of all the files `fbs`.
pub open spec fn total_content(fbs: Seq<FileBlameView>) -> nat
    decreases fbs.len(),
{
    if fbs.len() == 0 {
        0
    } else {
        total_content(fbs.drop_last()) + file_content(fbs.last())
    }
}

/// Whether every content line of every file of `fbs` is attributed.
pub open spec fn files_attributed(fbs: Seq<FileBlameView>, grouping: Grouping) -> bool {
    forall|i: int|
        0 <= i < fbs.len() ==> match (#[trigger] fbs[i]).blame {
            Some(b) => all_attributed(lines(b), grouping),
            None => true,
        }
}

/// Conservation of lines: where every content line of every file is
/// attributed, the attributed lines of all files, which are the lines of
/// all authors together, are the lines of all files together. Never are
/// they more.
pub proof fn lemma_loc_conservation(fbs: Seq<FileBlameView>, grouping: Grouping)
    ensures
        total_attributed(fbs, grouping) <= total_content(fbs),
        files_attributed(fbs, grouping) ==> total_attributed(fbs, grouping) == total_content(fbs),
    decreases fbs.len(),
{
    if fbs.len() > 0 {
        let front = fbs.drop_last();
        lemma_loc_conservation(front, grouping);
        match fbs.last().blame {
            Some(b) => {
                lemma_attributed_bound(lines(b), grouping);
            },
            None => {},
        }
        if files_attributed(fbs, grouping) {
            assert forall|i: int| 0 <= i < front.len() implies match (#[trigger] front[i]).blame {
                Some(b) => all_attributed(lines(b), grouping),
                None => true,
            } by {
                assert(front[i] == fbs[i]);
            }
            assert(fbs[fbs.len() - 1] == fbs.last());
            match fbs.last().blame {
                Some(b) => {
                    lemma_all_attributed(lines(b), grouping);
                },
                None => {},
            }
        }
    }
}

/// What the first `i` files give is part of what all give: an author stays,
/// and their lines and commits do not get fewer.
pub proof fn lemma_aggregate_grows(
    fbs: Seq<FileBlameView>,
    grouping: Grouping,
    i: int,
    k: Seq<char>,
)
    requires
        0 <= i <= fbs.len(),
        aggregate(fbs.take(i), grouping).contains_key(k),
    ensures
        aggregate(fbs, grouping).contains_key(k),
        aggregate(fbs.take(i), grouping)[k].loc <= aggregate(fbs, grouping)[k].loc,
        aggregate(fbs.take(i), grouping)[k].commits <= aggregate(fbs, grouping)[k].commits,
    decreases fbs.len() - i,
{
    if i == fbs.len() {
        assert(fbs.take(i) == fbs);
    } else {
        assert(fbs.drop_last().take(i) == fbs.take(i));
        lemma_aggregate_grows(fbs.drop_last(), grouping, i, k);
    }
}

/// The map of all authors of the files `inputs`, or nothing where a count
/// would leave `usize`.
fn gather(inputs: &Vec<FileBlame>, grouping: Grouping) -> (r: Option<StatsMap>)
    ensures
        r is Some <==> fits_usize(aggregate(file_views(inputs@), grouping)),
        match r {
            Some(m) => m.wf() && m@ == aggregate(file_views(inputs@), grouping) && m.total_loc()
                == total_attributed(file_views(inputs@), grouping) && m.total_commits() == 0,
            None => true,
        },
{
    let mut m = StatsMap::new();
    let mut i: usize = 0;
    let ghost fbs = file_views(inputs@);
    while i < inputs.len()
        invariant
            i <= inputs.len(),
            fbs == file_views(inputs@),
            m.wf(),
            m@ == aggregate(fbs.take(i as int), grouping),
            m.total_loc() == total_attributed(fbs.take(i as int), grouping),
            m.total_commits() == 0,
        decreases inputs.len() - i,
    {
        proof {
            assert(fbs.take(i + 1).drop_last() == fbs.take(i as int));
            assert(fbs.take(i + 1).last() == inputs@[i as int]@);
        }
        match &inputs[i].blame {
            Some(b) => {
                let local = file_stats(b.as_str(), inputs[i].path.as_str(), grouping);
                if !m.can_absorb(&local) {
                    proof {
                        let k = choose|k: Seq<char>| #[trigger]
                            local@.contains_key(k) && !(entry_or_zero(m@, k).loc + local@[k].loc
                                <= usize::MAX && entry_or_zero(m@, k).commits + local@[k].commits
                                <= usize::MAX);
                        let next = aggregate(fbs.take(i + 1), grouping);
                        assert(next == absorbed(m@, local@));
                        assert(next.contains_key(k));
                        lemma_aggregate_grows(fbs, grouping, i + 1, k);
                        assert(aggregate(fbs, grouping).contains_key(k));
                    }
                    return None;
                }
                m.absorb(&local);
            },
            None => {},
        }
        i += 1;
    }
    proof {
        assert(fbs.take(inputs.len() as int) == fbs);
        m.lemma_fits();
    }
    Some(m)
}

/// Lines and files per author over all the files `inputs`, each line
/// attributed by the name on its author line alone. A file without an
/// attribution is passed over. Nothing is returned where a count would leave
/// `usize`.
pub fn gather_loc_and_file_stats(inputs: &Vec<FileBlame>) -> (r: Option<StatsMap>)
    ensures
        r is Some <==> fits_usize(aggregate(file_views(inputs@), Grouping::AuthorLine)),
        match r {
            Some(m) => m.wf() && m@ == aggregate(file_views(inputs@), Grouping::AuthorLine)
                && m.total_loc() == total_attributed(file_views(inputs@), Grouping::AuthorLine)
                && m.total_commits() == 0,
            None => true,
        },
{
    gather(inputs, Grouping::AuthorLine)
}

/// The grouping that the flag `by_name` stands for.
pub open spec fn grouping_of(by_name: bool) -> Grouping {
    if by_name {
        Grouping::ByName
    } else {
        Grouping::ByEmail
    }
}

/// Lines and files per author over all the files `inputs`; authors are told
/// apart by name where `by_name` holds, by name and address where not. A file
/// without an attribution is passed over. Nothing is returned where a count
/// would leave `usize`.
pub fn gather_loc_and_file_statsx(inputs: &Vec<FileBlame>, by_name: bool) -> (r: Option<StatsMap>)
    ensures
        r is Some <==> fits_usize(aggregate(file_views(inputs@), grouping_of(by_name))),
        match r {
            Some(m) => m.wf() && m@ == aggregate(file_views(inputs@), grouping_of(by_name))
                && m.total_loc() == total_attributed(file_views(inputs@), grouping_of(by_name))
                && m.total_commits() == 0,
            None => true,
        },
{
    let grouping = if by_name {
        Grouping::ByName
    } else {
        Grouping::ByEmail
    };
    gather(inputs, grouping)
}

// ---------------------------------------------------------------------------
// The order of the files plays no part
// ---------------------------------------------------------------------------

/// Two files can be taken in in either order.
pub proof fn lemma_take_in_commutes(
    m: Map<Seq<char>, AuthorStatsView>,
    x: FileBlameView,
    y: FileBlameView,
    grouping: Grouping,
)
    ensures
        take_in(take_in(m, x, grouping), y, grouping) == take_in(
            take_in(m, y, grouping),
            x,
            grouping,
        ),
{
    let a = file_map(x, grouping);
    let b = file_map(y, grouping);
    if x.blame is Some && y.blame is Some {
        lemma_absorbed_associates(m, a, b);
        lemma_absorbed_associates(m, b, a);
        lemma_absorbed_commutes(a, b);
    }
}

/// The file at place `i` can as well be taken in last.
pub proof fn lemma_aggregate_move_last(fbs: Seq<FileBlameView>, grouping: Grouping, i: int)
    requires
        0 <= i < fbs.len(),
    ensures
        aggregate(fbs, grouping) == take_in(aggregate(fbs.remove(i), grouping), fbs[i], grouping),
    decreases fbs.len(),
{
    if i == fbs.len() - 1 {
        assert(fbs.remove(i) == fbs.drop_last());
    } else {
        let front = fbs.drop_last();
        lemma_aggregate_move_last(front, grouping, i);
        let rest = aggregate(front.remove(i), grouping);
        lemma_take_in_commutes(rest, fbs[i], fbs.last(), grouping);
        assert(fbs.remove(i).drop_last() == front.remove(i));
        assert(fbs.remove(i).last() == fbs.last());
    }
}

/// Merge commutativity: in whatever order the same files are taken in, the
/// resulting map is the same, with the same authors, lines and files.
pub proof fn lemma_aggregate_any_order(
    first: Seq<FileBlameView>,
    second: Seq<FileBlameView>,
    grouping: Grouping,
)
    requires
        first.to_multiset() == second.to_multiset(),
    ensures
        aggregate(first, grouping) == aggregate(second, grouping),
    decreases first.len(),
{
    first.to_multiset_ensures();
    second.to_multiset_ensures();
    if first.len() == 0 {
        assert(second.len() == 0);
    } else {
        let x = first.last();
        assert(first.contains(x));
        assert(second.to_multiset().count(x) > 0);
        assert(second.contains(x));
        let i = choose|i: int| 0 <= i < second.len() && second[i] == x;
        assert(first.remove(first.len() - 1) == first.drop_last());
        assert(first.drop_last().to_multiset() == second.remove(i).to_multiset());
        lemma_aggregate_any_order(first.drop_last(), second.remove(i), grouping);
        lemma_aggregate_move_last(second, grouping, i);
    }
}

} // verus!
