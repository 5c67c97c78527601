//! Ownership of files: for one user, the share of each file's lines that is
//! attributed to them, ranked.

use vstd::prelude::*;
use crate::blame::{
    blame_map, content_lines, file_views, is_content, state_after, BlameState, FileBlame,
    FileBlameView, Grouping, Scan,
};
use crate::stats::entry_or_zero;
use crate::text::{
    chars_of, lemma_lex_irreflexive, lemma_lex_total, lemma_lex_transitive, lex_before, lex_lt,
    lines, lower, lower_vec, same_chars, seqs, split_lines, string_of, strip, strip_vec, trim,
    trim_vec, CharClass,
};

verus! {

/// One file with the lines of it that are attributed to the user.
#[derive(Debug)]
pub struct FileOwnershipRow {
    pub path: String,
    /// The lines attributed to the user.
    pub user_loc: usize,
    /// All lines of the file.
    pub file_total_loc: usize,
}

/// A row as mathematics sees it. The user's share of the file, in percent,
/// is `100 * user_loc / file_total_loc`.
pub struct RowView {
    pub path: Seq<char>,
    pub user_loc: nat,
    pub file_total_loc: nat,
}

impl View for FileOwnershipRow {
    type V = RowView;

    open spec fn view(&self) -> RowView {
        RowView {
            path: self.path@,
            user_loc: self.user_loc as nat,
            file_total_loc: self.file_total_loc as nat,
        }
    }
}

/// The views of `v`, one per element.
pub open spec fn row_views(v: Seq<FileOwnershipRow>) -> Seq<RowView> {
    Seq::new(v.len(), |i: int| v[i]@)
}

impl RowView {
    /// A row is only made for a file of which the user owns a line: the
    /// user's lines are more than none and at most all, so that the share is
    /// more than 0 and at most 100 percent.
    pub open spec fn valid(self) -> bool {
        0 < self.user_loc <= self.file_total_loc
    }
}

/// Ownership bounds: the share of a valid row, `100 * user_loc /
/// file_total_loc` percent, is more than 0 and at most 100.
pub proof fn lemma_share_bounds(r: RowView)
    requires
        r.valid(),
    ensures
        r.file_total_loc > 0,
        0 < 100 * r.user_loc,
        100 * r.user_loc <= 100 * r.file_total_loc,
{
}

// ---------------------------------------------------------------------------
// Whose line it is
// ---------------------------------------------------------------------------

/// The form in which the user is looked for: the name without the white
/// space around it; for an address also without angle brackets around it and
/// in lower case.
pub open spec fn wanted_of(username: Seq<char>, by_email: bool) -> Seq<char> {
    if by_email {
        lower(strip(trim(username), CharClass::Angle))
    } else {
        trim(username)
    }
}

/// Whether a content line read in state `st` belongs to the user `wanted`.
/// Addresses are compared without angle brackets and without regard to case,
/// names as they are. A line that lacks a name or an address belongs to
/// nobody.
pub open spec fn is_owner(st: BlameState, wanted: Seq<char>, by_email: bool) -> bool {
    match (st.name, st.mail) {
        (Some(n), Some(m)) => if by_email {
            lower(strip(m, CharClass::Angle)) == wanted
        } else {
            n == wanted
        },
        _ => false,
    }
}

/// How many content lines of `ls` belong to the user `wanted`.
pub open spec fn owned_lines(ls: Seq<Seq<char>>, wanted: Seq<char>, by_email: bool) -> nat
    decreases ls.len(),
{
    if ls.len() == 0 {
        0
    } else {
        owned_lines(ls.drop_last(), wanted, by_email) + if is_content(ls.last()) && is_owner(
            state_after(ls.drop_last()),
            wanted,
            by_email,
        ) {
            1nat
        } else {
            0nat
        }
    }
}

/// The lines of the user are content lines, and those are lines.
pub proof fn lemma_owned_bound(ls: Seq<Seq<char>>, wanted: Seq<char>, by_email: bool)
    ensures
        owned_lines(ls, wanted, by_email) <= content_lines(ls) <= ls.len(),
    decreases ls.len(),
{
    if ls.len() > 0 {
        lemma_owned_bound(ls.drop_last(), wanted, by_email);
    }
}

/// The ranker and the aggregator agree: by name, the lines of a file that
/// belong to a user are the lines that the aggregator, telling authors apart
/// by name, attributes to that name in the file.
pub proof fn lemma_owned_is_attributed(ls: Seq<Seq<char>>, file: Seq<char>, name: Seq<char>)
    ensures
        owned_lines(ls, name, false) == entry_or_zero(
            blame_map(ls, file, Grouping::ByName),
            name,
        ).loc,
    decreases ls.len(),
{
    if ls.len() > 0 {
        lemma_owned_is_attributed(ls.drop_last(), file, name);
    }
}

/// The row of one file, if the user owns a line of it.
pub open spec fn row_of(fb: FileBlameView, wanted: Seq<char>, by_email: bool) -> Option<RowView> {
    match fb.blame {
        Some(b) => if owned_lines(lines(b), wanted, by_email) > 0 {
            Some(
                RowView {
                    path: fb.path,
                    user_loc: owned_lines(lines(b), wanted, by_email),
                    file_total_loc: content_lines(lines(b)),
                },
            )
        } else {
            None
        },
        None => None,
    }
}

/// The rows of the files `fbs`, in their order: one for each file of which
/// the user owns a line.
pub open spec fn candidate_rows(fbs: Seq<FileBlameView>, wanted: Seq<char>, by_email: bool) -> Seq<
    RowView,
>
    decreases fbs.len(),
{
    if fbs.len() == 0 {
        Seq::empty()
    } else {
        let rest = candidate_rows(fbs.drop_last(), wanted, by_email);
        match row_of(fbs.last(), wanted, by_email) {
            Some(r) => rest.push(r),
            None => rest,
        }
    }
}

/// Whether a line read by `scan` belongs to the user `wanted`.
fn owner_now(scan: &Scan, wanted: &Vec<char>, by_email: bool) -> (b: bool)
    ensures
        b == is_owner(scan@, wanted@, by_email),
{
    match (scan.name(), scan.mail()) {
        (Some(n), Some(m)) => {
            if by_email {
                let bare = strip_vec(m, CharClass::Angle);
                let low = lower_vec(&bare);
                same_chars(&low, wanted)
            } else {
                same_chars(n, wanted)
            }
        },
        _ => false,
    }
}

/// The lines of a file that belong to the user `wanted`, and all its lines.
pub fn file_ownership(blame: &str, wanted: &Vec<char>, by_email: bool) -> (r: (usize, usize))
    ensures
        r.0 == owned_lines(lines(blame@), wanted@, by_email),
        r.1 == content_lines(lines(blame@)),
        r.0 <= r.1,
{
    let text = chars_of(blame);
    let ls = split_lines(&text);
    let mut scan = Scan::start();
    let mut user_loc: usize = 0;
    let mut file_total: usize = 0;
    let mut i: usize = 0;
    while i < ls.len()
        invariant
            i <= ls.len(),
            scan@ == state_after(seqs(ls@).take(i as int)),
            user_loc == owned_lines(seqs(ls@).take(i as int), wanted@, by_email),
            file_total == content_lines(seqs(ls@).take(i as int)),
        decreases ls.len() - i,
    {
        let line = &ls[i];
        proof {
            let done = seqs(ls@).take(i as int);
            let next = seqs(ls@).take(i + 1);
            assert(next.drop_last() == done);
            assert(next.last() == line@);
            lemma_owned_bound(done, wanted@, by_email);
        }
        if line.len() > 0 && line[0] == '\t' {
            file_total += 1;
            if owner_now(&scan, wanted, by_email) {
                user_loc += 1;
            }
        }
        scan = scan.advance(line);
        i += 1;
    }
    proof {
        assert(seqs(ls@).take(ls.len() as int) == seqs(ls@));
        lemma_owned_bound(seqs(ls@), wanted@, by_email);
    }
    (user_loc, file_total)
}

// ---------------------------------------------------------------------------
// The order of the rows
// ---------------------------------------------------------------------------

/// Whether the share of `a` is less than the share of `b`. Shares are
/// fractions; they are compared exactly, by their cross products.
pub open spec fn pct_lt(a: RowView, b: RowView) -> bool {
    a.user_loc * b.file_total_loc < b.user_loc * a.file_total_loc
}

/// Whether the shares of `a` and `b` are the same.
pub open spec fn pct_eq(a: RowView, b: RowView) -> bool {
    a.user_loc * b.file_total_loc == b.user_loc * a.file_total_loc
}

/// Whether `a` has to stand before `b`. By lines: more lines first, then the
/// greater share, then the path that comes first. By share, where `sort_pct`
/// holds: the greater share first, then more lines, then the path that comes
/// first.
pub open spec fn before(sort_pct: bool, a: RowView, b: RowView) -> bool {
    if sort_pct {
        pct_lt(b, a) || (pct_eq(a, b) && (a.user_loc > b.user_loc || (a.user_loc == b.user_loc
            && lex_lt(a.path, b.path))))
    } else {
        a.user_loc > b.user_loc || (a.user_loc == b.user_loc && (pct_lt(b, a) || (pct_eq(a, b)
            && lex_lt(a.path, b.path))))
    }
}

/// Whether no row of `rows` stands after a row that it has to stand before.
pub open spec fn in_order(rows: Seq<RowView>, sort_pct: bool) -> bool {
    forall|i: int, j: int| 0 <= i < j < rows.len() ==> !before(sort_pct, rows[j], rows[i])
}

/// Whether `out` holds the first `top` rows of the ranking of `cands`: it is
/// in order, it holds `top` of the candidates (all of them where they are
/// fewer), and no candidate that it leaves out has to stand before one that
/// it holds.
pub open spec fn is_top(cands: Seq<RowView>, sort_pct: bool, top: nat, out: Seq<RowView>) -> bool {
    &&& in_order(out, sort_pct)
    &&& out.len() == if top < cands.len() {
        top
    } else {
        cands.len()
    }
    &&& out.to_multiset().subset_of(cands.to_multiset())
    &&& forall|r: RowView, i: int|
        cands.to_multiset().sub(out.to_multiset()).count(r) > 0 && 0 <= i < out.len() ==> !(
        #[trigger] before(sort_pct, r, out[i]))
}

/// Shares compare like the fractions they are.
pub proof fn lemma_pct_chain(a: RowView, b: RowView, c: RowView)
    requires
        a.file_total_loc > 0,
        b.file_total_loc > 0,
        c.file_total_loc > 0,
    ensures
        !pct_lt(b, a) && !pct_lt(c, b) ==> !pct_lt(c, a),
        pct_lt(a, b) && !pct_lt(c, b) ==> pct_lt(a, c),
        !pct_lt(b, a) && pct_lt(b, c) ==> pct_lt(a, c),
{
    let u1 = a.user_loc as int;
    let t1 = a.file_total_loc as int;
    let u2 = b.user_loc as int;
    let t2 = b.file_total_loc as int;
    let u3 = c.user_loc as int;
    let t3 = c.file_total_loc as int;
    if u1 * t2 <= u2 * t1 && u2 * t3 <= u3 * t2 {
        assert((u1 * t2) * t3 <= (u2 * t1) * t3) by (nonlinear_arith)
            requires
                u1 * t2 <= u2 * t1,
                t3 > 0,
        ;
        assert((u2 * t3) * t1 <= (u3 * t2) * t1) by (nonlinear_arith)
            requires
                u2 * t3 <= u3 * t2,
                t1 > 0,
        ;
        assert((u1 * t2) * t3 == (u1 * t3) * t2) by (nonlinear_arith);
        assert((u2 * t1) * t3 == (u2 * t3) * t1) by (nonlinear_arith);
        assert((u3 * t2) * t1 == (u3 * t1) * t2) by (nonlinear_arith);
        assert(u1 * t3 <= u3 * t1) by (nonlinear_arith)
            requires
                (u1 * t3) * t2 <= (u3 * t1) * t2,
                t2 > 0,
        ;
        if u1 * t2 < u2 * t1 {
            assert((u1 * t2) * t3 < (u2 * t1) * t3) by (nonlinear_arith)
                requires
                    u1 * t2 < u2 * t1,
                    t3 > 0,
            ;
            assert(u1 * t3 < u3 * t1) by (nonlinear_arith)
                requires
                    (u1 * t3) * t2 < (u3 * t1) * t2,
                    t2 > 0,
            ;
        }
        if u2 * t3 < u3 * t2 {
            assert((u2 * t3) * t1 < (u3 * t2) * t1) by (nonlinear_arith)
                requires
                    u2 * t3 < u3 * t2,
                    t1 > 0,
            ;
            assert(u1 * t3 < u3 * t1) by (nonlinear_arith)
                requires
                    (u1 * t3) * t2 < (u3 * t1) * t2,
                    t2 > 0,
            ;
        }
    }
}

/// The order of the rows is transitive.
pub proof fn lemma_before_transitive(sort_pct: bool, a: RowView, b: RowView, c: RowView)
    requires
        a.valid(),
        b.valid(),
        c.valid(),
        before(sort_pct, a, b),
        before(sort_pct, b, c),
    ensures
        before(sort_pct, a, c),
{
    lemma_pct_chain(a, b, c);
    lemma_pct_chain(c, b, a);
    if lex_lt(a.path, b.path) && lex_lt(b.path, c.path) {
        lemma_lex_transitive(a.path, b.path, c.path);
    }
}

/// Of two different rows one has to stand before the other, and never both.
pub proof fn lemma_before_total(sort_pct: bool, a: RowView, b: RowView)
    requires
        a.valid(),
        b.valid(),
    ensures
        a == b || before(sort_pct, a, b) || before(sort_pct, b, a),
        !(before(sort_pct, a, b) && before(sort_pct, b, a)),
        !before(sort_pct, a, a),
{
    lemma_lex_total(a.path, b.path);
    lemma_lex_irreflexive(a.path);
    if pct_eq(a, b) && a.user_loc == b.user_loc {
        assert(a.file_total_loc == b.file_total_loc) by (nonlinear_arith)
            requires
                a.user_loc * b.file_total_loc == b.user_loc * a.file_total_loc,
                a.user_loc == b.user_loc,
                a.user_loc > 0,
        ;
    }
}

/// A row of a ranking is one of the candidates.
pub proof fn lemma_top_member(cands: Seq<RowView>, out: Seq<RowView>, i: int)
    requires
        out.to_multiset().subset_of(cands.to_multiset()),
        0 <= i < out.len(),
    ensures
        cands.contains(out[i]),
        cands.to_multiset().count(out[i]) >= out.to_multiset().count(out[i]),
{
    cands.to_multiset_ensures();
    out.to_multiset_ensures();
    let x = out[i];
    assert(out.contains(x));
    assert(out.to_multiset().count(x) > 0);
    assert(out.to_multiset().count(x) <= cands.to_multiset().count(x));
    assert(cands.to_multiset().count(x) > 0);
    assert(cands.contains(x));
}

/// Two rankings that agree on their first `n` rows cannot differ at the
/// next row in that the row of the first has to stand before the row of the
/// second.
proof fn lemma_top_next(
    cands: Seq<RowView>,
    sort_pct: bool,
    top: nat,
    a: Seq<RowView>,
    b: Seq<RowView>,
    n: int,
)
    requires
        all_valid(cands),
        is_top(cands, sort_pct, top, a),
        is_top(cands, sort_pct, top, b),
        0 <= n < a.len(),
        a.take(n) == b.take(n),
    ensures
        !before(sort_pct, a[n], b[n]),
{
    let x = a[n];
    if before(sort_pct, x, b[n]) {
        lemma_top_member(cands, a, n);
        lemma_top_member(cands, b, n);
        let i = choose|i: int| 0 <= i < cands.len() && cands[i] == x;
        assert(cands[i].valid());
        let j = choose|j: int| 0 <= j < cands.len() && cands[j] == b[n];
        assert(cands[j].valid());
        lemma_before_total(sort_pct, x, b[n]);
        let tail = b.skip(n);
        assert(!tail.contains(x)) by {
            if tail.contains(x) {
                let k = choose|k: int| 0 <= k < tail.len() && tail[k] == x;
                assert(tail[k] == b[n + k]);
                if k > 0 {
                    assert(!before(sort_pct, b[n + k], b[n]));
                }
            }
        }
        tail.to_multiset_ensures();
        assert(tail.to_multiset().count(x) == 0);
        assert(b == b.take(n) + tail);
        vstd::seq_lib::lemma_multiset_commutative(b.take(n), tail);
        assert(b.to_multiset().count(x) == b.take(n).to_multiset().count(x));
        let rest = a.skip(n);
        assert(a == a.take(n) + rest);
        vstd::seq_lib::lemma_multiset_commutative(a.take(n), rest);
        rest.to_multiset_ensures();
        assert(rest[0] == x);
        assert(rest.contains(x));
        assert(a.to_multiset().count(x) > a.take(n).to_multiset().count(x));
        assert(cands.to_multiset().sub(b.to_multiset()).count(x) > 0);
        assert(!before(sort_pct, x, b[n]));
    }
}

/// Two rankings of the same candidates agree on their first `n` rows.
proof fn lemma_top_prefix(
    cands: Seq<RowView>,
    sort_pct: bool,
    top: nat,
    a: Seq<RowView>,
    b: Seq<RowView>,
    n: int,
)
    requires
        all_valid(cands),
        is_top(cands, sort_pct, top, a),
        is_top(cands, sort_pct, top, b),
        0 <= n <= a.len(),
    ensures
        a.take(n) == b.take(n),
    decreases n,
{
    if n > 0 {
        lemma_top_prefix(cands, sort_pct, top, a, b, n - 1);
        lemma_top_next(cands, sort_pct, top, a, b, n - 1);
        lemma_top_next(cands, sort_pct, top, b, a, n - 1);
        lemma_top_member(cands, a, n - 1);
        lemma_top_member(cands, b, n - 1);
        let i = choose|i: int| 0 <= i < cands.len() && cands[i] == a[n - 1];
        assert(cands[i].valid());
        let j = choose|j: int| 0 <= j < cands.len() && cands[j] == b[n - 1];
        assert(cands[j].valid());
        lemma_before_total(sort_pct, a[n - 1], b[n - 1]);
        assert(a.take(n) == a.take(n - 1).push(a[n - 1]));
        assert(b.take(n) == b.take(n - 1).push(b[n - 1]));
    } else {
        assert(a.take(0) == b.take(0));
    }
}

/// The ranking is determined: what `is_top` says of the first rows of a
/// ranking holds of one sequence of rows only.
pub proof fn lemma_top_unique(
    cands: Seq<RowView>,
    sort_pct: bool,
    top: nat,
    a: Seq<RowView>,
    b: Seq<RowView>,
)
    requires
        all_valid(cands),
        is_top(cands, sort_pct, top, a),
        is_top(cands, sort_pct, top, b),
    ensures
        a == b,
{
    lemma_top_prefix(cands, sort_pct, top, a, b, a.len() as int);
    assert(a.take(a.len() as int) == a);
    assert(b.take(b.len() as int) == b);
}

/// Sort determinism: in a ranking by share, rows with the same share stand
/// by their lines, more lines first, and rows with the same lines too by
/// their paths.
pub proof fn lemma_tied_share_order(rows: Seq<RowView>, i: int, j: int)
    requires
        in_order(rows, true),
        0 <= i < j < rows.len(),
        pct_eq(rows[i], rows[j]),
    ensures
        rows[i].user_loc > rows[j].user_loc || (rows[i].user_loc == rows[j].user_loc && !lex_lt(
            rows[j].path,
            rows[i].path,
        )),
{
    assert(!before(true, rows[j], rows[i]));
    assert(pct_eq(rows[j], rows[i])) by (nonlinear_arith)
        requires
            pct_eq(rows[i], rows[j]),
    ;
}

// ---------------------------------------------------------------------------
// Ranking
// ---------------------------------------------------------------------------

/// A row while it is ranked, with its path as characters.
pub struct RankRow {
    pub path: Vec<char>,
    pub user_loc: usize,
    pub file_total_loc: usize,
}

impl View for RankRow {
    type V = RowView;

    open spec fn view(&self) -> RowView {
        RowView {
            path: self.path@,
            user_loc: self.user_loc as nat,
            file_total_loc: self.file_total_loc as nat,
        }
    }
}

/// The views of `v`, one per element.
pub open spec fn rank_views(v: Seq<RankRow>) -> Seq<RowView> {
    Seq::new(v.len(), |i: int| v[i]@)
}

/// Whether every row of `rows` is valid.
pub open spec fn all_valid(rows: Seq<RowView>) -> bool {
    forall|i: int| 0 <= i < rows.len() ==> (#[trigger] rows[i]).valid()
}

/// The product of two counts, which fits 128 bits.
pub fn product(x: usize, y: usize) -> (p: u128)
    ensures
        p == x * y,
{
    assert(x * y <= 0xFFFF_FFFF_FFFF_FFFF * 0xFFFF_FFFF_FFFF_FFFF) by (nonlinear_arith)
        requires
            0 <= x <= 0xFFFF_FFFF_FFFF_FFFF,
            0 <= y <= 0xFFFF_FFFF_FFFF_FFFF,
    ;
    (x as u128) * (y as u128)
}

/// Whether `a` has to stand before `b`.
pub fn stands_before(sort_pct: bool, a: &RankRow, b: &RankRow) -> (r: bool)
    ensures
        r == before(sort_pct, a@, b@),
{
    let left: u128 = product(a.user_loc, b.file_total_loc);
    let right: u128 = product(b.user_loc, a.file_total_loc);
    if sort_pct {
        right < left || (left == right && (a.user_loc > b.user_loc || (a.user_loc == b.user_loc
            && lex_before(&a.path, &b.path))))
    } else {
        a.user_loc > b.user_loc || (a.user_loc == b.user_loc && (right < left || (left == right
            && lex_before(&a.path, &b.path))))
    }
}

/// The place of a row that no other row of `rows` has to stand before.
pub fn first_place(rows: &Vec<RankRow>, sort_pct: bool) -> (best: usize)
    requires
        rows.len() > 0,
        all_valid(rank_views(rows@)),
    ensures
        best < rows.len(),
        forall|j: int| 0 <= j < rows.len() ==> !before(sort_pct, #[trigger] rows@[j]@, rows@[best as int]@),
{
    let mut best: usize = 0;
    let mut i: usize = 1;
    proof {
        assert(rank_views(rows@)[0].valid());
        lemma_before_total(sort_pct, rows@[0]@, rows@[0]@);
    }
    while i < rows.len()
        invariant
            best < i <= rows.len(),
            all_valid(rank_views(rows@)),
            forall|j: int| 0 <= j < i ==> !before(sort_pct, #[trigger] rows@[j]@, rows@[best as int]@),
        decreases rows.len() - i,
    {
        proof {
            assert(rank_views(rows@)[i as int].valid());
            assert(rank_views(rows@)[best as int].valid());
            lemma_before_total(sort_pct, rows@[i as int]@, rows@[best as int]@);
        }
        if stands_before(sort_pct, &rows[i], &rows[best]) {
            proof {
                assert forall|j: int| 0 <= j < i + 1 implies !before(
                    sort_pct,
                    #[trigger] rows@[j]@,
                    rows@[i as int]@,
                ) by {
                    assert(rank_views(rows@)[j].valid());
                    if j < i {
                        if before(sort_pct, rows@[j]@, rows@[i as int]@) {
                            lemma_before_transitive(
                                sort_pct,
                                rows@[j]@,
                                rows@[i as int]@,
                                rows@[best as int]@,
                            );
                        }
                    } else {
                        lemma_before_total(sort_pct, rows@[i as int]@, rows@[i as int]@);
                    }
                }
            }
            best = i;
        }
        i += 1;
    }
    best
}

/// The first `top` rows of the ranking of `cands`.
pub fn rank_rows(cands: Vec<RankRow>, sort_pct: bool, top: usize) -> (out: Vec<FileOwnershipRow>)
    requires
        all_valid(rank_views(cands@)),
    ensures
        is_top(rank_views(cands@), sort_pct, top as nat, row_views(out@)),
        all_valid(row_views(out@)),
{
    let ghost all = rank_views(cands@);
    let mut rest = cands;
    let mut out: Vec<FileOwnershipRow> = Vec::new();
    proof {
        all.to_multiset_ensures();
        row_views(out@).to_multiset_ensures();
        assert(row_views(out@) == Seq::<RowView>::empty());
        assert(row_views(out@).to_multiset().add(all.to_multiset()) == all.to_multiset());
    }
    while out.len() < top && rest.len() > 0
        invariant
            all_valid(rank_views(rest@)),
            all_valid(row_views(out@)),
            in_order(row_views(out@), sort_pct),
            row_views(out@).to_multiset().add(rank_views(rest@).to_multiset())
                == all.to_multiset(),
            out.len() + rest.len() == all.len(),
            out.len() <= top,
            forall|i: int, j: int|
                0 <= i < rest.len() && 0 <= j < out.len() ==> !before(
                    sort_pct,
                    #[trigger] rest@[i]@,
                    #[trigger] out@[j]@,
                ),
        decreases rest.len(),
    {
        let best = first_place(&rest, sort_pct);
        let ghost old_rest = rest@;
        let ghost old_out = out@;
        let row = rest.remove(best);
        let picked = FileOwnershipRow {
            path: string_of(&row.path),
            user_loc: row.user_loc,
            file_total_loc: row.file_total_loc,
        };
        proof {
            assert(picked@ == old_rest[best as int]@);
            assert(rank_views(old_rest)[best as int].valid());
            rank_views(old_rest).to_multiset_ensures();
            row_views(old_out).to_multiset_ensures();
            assert(rank_views(rest@) == rank_views(old_rest).remove(best as int));
            assert(row_views(old_out.push(picked)) == row_views(old_out).push(picked@));
            let o = row_views(old_out).to_multiset();
            let r = rank_views(old_rest).to_multiset();
            assert(r.count(picked@) > 0);
            assert(o.insert(picked@).add(r.remove(picked@)) == o.add(r));
            assert forall|i: int, j: int| 0 <= i < rest@.len() && 0 <= j < old_out.len() + 1
                implies !before(
                sort_pct,
                #[trigger] rest@[i]@,
                #[trigger] old_out.push(picked)[j]@,
            ) by {
                let x = if i < best {
                    i
                } else {
                    i + 1
                };
                assert(rest@[i] == old_rest[x]);
                if j < old_out.len() {
                    assert(!before(sort_pct, old_rest[x]@, old_out[j]@));
                }
            }
            assert forall|i: int, j: int| 0 <= i < j < old_out.len() + 1 implies !before(
                sort_pct,
                row_views(old_out.push(picked))[j],
                row_views(old_out.push(picked))[i],
            ) by {
                if j < old_out.len() {
                    assert(!before(sort_pct, row_views(old_out)[j], row_views(old_out)[i]));
                } else {
                    assert(!before(sort_pct, old_rest[best as int]@, old_out[i]@));
                }
            }
            assert forall|i: int| 0 <= i < rest@.len() implies (#[trigger] rank_views(
                rest@,
            )[i]).valid() by {
                let x = if i < best {
                    i
                } else {
                    i + 1
                };
                assert(rest@[i] == old_rest[x]);
                assert(rank_views(old_rest)[x].valid());
            }
            assert forall|i: int| 0 <= i < old_out.len() + 1 implies (#[trigger] row_views(
                old_out.push(picked),
            )[i]).valid() by {
                if i < old_out.len() {
                    assert(row_views(old_out)[i].valid());
                }
            }
        }
        out.push(picked);
    }
    proof {
        let o = row_views(out@).to_multiset();
        let r = rank_views(rest@).to_multiset();
        let c = all.to_multiset();
        rank_views(rest@).to_multiset_ensures();
        row_views(out@).to_multiset_ensures();
        assert(c.sub(o) == r);
        assert(o.subset_of(c));
        assert forall|x: RowView, i: int| c.sub(o).count(x) > 0 && 0 <= i < out@.len() implies !(
        #[trigger] before(sort_pct, x, row_views(out@)[i])) by {
            assert(rank_views(rest@).contains(x));
            let k = choose|k: int| 0 <= k < rest@.len() && rank_views(rest@)[k] == x;
            assert(!before(sort_pct, rest@[k]@, out@[i]@));
        }
    }
    out
}

/// The files of which the user owns a line, ranked, and of those the first
/// `top`. The user is looked for by name, or by address where `by_email`
/// holds; the rows are ranked by lines, or by share where `sort_pct` holds.
/// A file without an attribution gives no row.
pub fn get_user_file_ownership(
    inputs: &Vec<FileBlame>,
    username: &str,
    by_email: bool,
    top: usize,
    sort_pct: bool,
) -> (rows: Vec<FileOwnershipRow>)
    ensures
        is_top(
            candidate_rows(file_views(inputs@), wanted_of(username@, by_email), by_email),
            sort_pct,
            top as nat,
            row_views(rows@),
        ),
        all_valid(row_views(rows@)),
{
    let name = trim_vec(&chars_of(username));
    let wanted = if by_email {
        lower_vec(&strip_vec(&name, CharClass::Angle))
    } else {
        name
    };
    let ghost fbs = file_views(inputs@);
    let mut cands: Vec<RankRow> = Vec::new();
    let mut i: usize = 0;
    assert(rank_views(cands@) == Seq::<RowView>::empty());
    while i < inputs.len()
        invariant
            i <= inputs.len(),
            fbs == file_views(inputs@),
            wanted@ == wanted_of(username@, by_email),
            rank_views(cands@) == candidate_rows(fbs.take(i as int), wanted@, by_email),
            all_valid(rank_views(cands@)),
        decreases inputs.len() - i,
    {
        proof {
            assert(fbs.take(i + 1).drop_last() == fbs.take(i as int));
            assert(fbs.take(i + 1).last() == inputs@[i as int]@);
        }
        match &inputs[i].blame {
            Some(b) => {
                let (user_loc, file_total) = file_ownership(b.as_str(), &wanted, by_email);
                if user_loc > 0 {
                    let row = RankRow {
                        path: chars_of(inputs[i].path.as_str()),
                        user_loc: user_loc,
                        file_total_loc: file_total,
                    };
                    proof {
                        assert(rank_views(cands@.push(row)) == rank_views(cands@).push(row@));
                        assert forall|k: int| 0 <= k < cands@.len() + 1 implies (
                        #[trigger] rank_views(cands@.push(row))[k]).valid() by {
                            if k < cands@.len() {
                                assert(rank_views(cands@)[k].valid());
                            }
                        }
                    }
                    cands.push(row);
                }
            },
            None => {},
        }
        i += 1;
    }
    assert(fbs.take(inputs.len() as int) == fbs);
    rank_rows(cands, sort_pct, top)
}

} // verus!
