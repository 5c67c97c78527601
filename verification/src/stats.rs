//! Per-author statistics: lines of code that survive at HEAD, commits, and the
//! files an author appears in; and the map from author to statistics in which
//! the results of single files are brought together.

use vstd::prelude::*;
use crate::names::NameSet;
use crate::text::strs;

verus! {

/// What is known of one author, as mathematics sees it.
#[verifier::ext_equal]
pub struct AuthorStatsView {
    /// Lines at HEAD attributed to the author.
    pub loc: nat,
    /// Commits of the author.
    pub commits: nat,
    /// The files in which a line is attributed to the author.
    pub files: Set<Seq<char>>,
}

/// The statistics of a single author.
#[derive(Debug, Clone)]
pub struct AuthorStats {
    pub loc: usize,
    pub commits: usize,
    pub files: NameSet,
}

impl View for AuthorStats {
    type V = AuthorStatsView;

    open spec fn view(&self) -> AuthorStatsView {
        AuthorStatsView { loc: self.loc as nat, commits: self.commits as nat, files: self.files@ }
    }
}

/// The statistics of an author of whom nothing is known yet.
pub open spec fn zero_stats() -> AuthorStatsView {
    AuthorStatsView { loc: 0, commits: 0, files: Set::empty() }
}

/// Two findings about one author, taken together: lines and commits add up,
/// the files are united.
pub open spec fn join(a: AuthorStatsView, b: AuthorStatsView) -> AuthorStatsView {
    AuthorStatsView {
        loc: a.loc + b.loc,
        commits: a.commits + b.commits,
        files: a.files.union(b.files),
    }
}

impl Default for AuthorStats {
    fn default() -> (s: Self)
        ensures
            s@ == zero_stats(),
            s.files.wf(),
            s.files.order().len() == 0,
    {
        AuthorStats { loc: 0, commits: 0, files: NameSet::new() }
    }
}

/// What is gathered about one user: the tags that hold a commit of theirs,
/// and the number of their merged pull requests.
#[derive(Debug, Clone)]
pub struct UserStats {
    pub tags: NameSet,
    pub pull_requests: usize,
}

impl Default for UserStats {
    fn default() -> (s: Self)
        ensures
            s.tags.wf(),
            s.tags@ == Set::<Seq<char>>::empty(),
            s.tags.order().len() == 0,
            s.pull_requests == 0,
    {
        UserStats { tags: NameSet::new(), pull_requests: 0 }
    }
}

// ---------------------------------------------------------------------------
// The model of a map held as two sequences
// ---------------------------------------------------------------------------

/// The map that sends each of `keys` to the value at the same place in `vals`.
pub open spec fn entries_map(keys: Seq<Seq<char>>, vals: Seq<AuthorStatsView>) -> Map<
    Seq<char>,
    AuthorStatsView,
> {
    Map::new(|k: Seq<char>| keys.contains(k), |k: Seq<char>| vals[keys.index_of(k)])
}

/// The statistics that `m` holds for `k`; those of an unknown author where it
/// holds none.
pub open spec fn entry_or_zero(m: Map<Seq<char>, AuthorStatsView>, k: Seq<char>) -> AuthorStatsView {
    if m.contains_key(k) {
        m[k]
    } else {
        zero_stats()
    }
}

/// The sum of the lines in `vals`.
pub open spec fn sum_loc(vals: Seq<AuthorStatsView>) -> nat
    decreases vals.len(),
{
    if vals.len() == 0 {
        0
    } else {
        sum_loc(vals.drop_last()) + vals.last().loc
    }
}

/// The sum of the commits in `vals`.
pub open spec fn sum_commits(vals: Seq<AuthorStatsView>) -> nat
    decreases vals.len(),
{
    if vals.len() == 0 {
        0
    } else {
        sum_commits(vals.drop_last()) + vals.last().commits
    }
}

/// A key without a double is sent to the value at its place.
pub proof fn lemma_entries_get(keys: Seq<Seq<char>>, vals: Seq<AuthorStatsView>, i: int)
    requires
        keys.no_duplicates(),
        0 <= i < keys.len(),
    ensures
        entries_map(keys, vals).contains_key(keys[i]),
        entries_map(keys, vals)[keys[i]] == vals[i],
        keys.index_of(keys[i]) == i,
{
    assert(keys.contains(keys[i]));
    let j = keys.index_of(keys[i]);
    assert(0 <= j < keys.len() && keys[j] == keys[i]);
}

/// Changing the value at a place is inserting it under the key of that place.
pub proof fn lemma_entries_update(
    keys: Seq<Seq<char>>,
    vals: Seq<AuthorStatsView>,
    i: int,
    v: AuthorStatsView,
)
    requires
        keys.no_duplicates(),
        0 <= i < keys.len() == vals.len(),
    ensures
        entries_map(keys, vals.update(i, v)) == entries_map(keys, vals).insert(keys[i], v),
{
    let a = entries_map(keys, vals.update(i, v));
    let b = entries_map(keys, vals).insert(keys[i], v);
    assert(keys.contains(keys[i]));
    assert forall|k: Seq<char>| a.contains_key(k) implies #[trigger] a[k] == b[k] by {
        let j = keys.index_of(k);
        assert(0 <= j < keys.len() && keys[j] == k);
    }
    assert(a =~= b);
}

/// Appending a new key with its value is inserting it.
pub proof fn lemma_entries_push(
    keys: Seq<Seq<char>>,
    vals: Seq<AuthorStatsView>,
    k: Seq<char>,
    v: AuthorStatsView,
)
    requires
        keys.no_duplicates(),
        keys.len() == vals.len(),
        !keys.contains(k),
    ensures
        keys.push(k).no_duplicates(),
        entries_map(keys.push(k), vals.push(v)) == entries_map(keys, vals).insert(k, v),
{
    let keys2 = keys.push(k);
    let vals2 = vals.push(v);
    assert forall|x: int, y: int| 0 <= x < keys2.len() && 0 <= y < keys2.len() && x != y implies keys2[x] != keys2[y] by {
        if x < keys.len() && y < keys.len() {
        } else if x < keys.len() {
            assert(keys.contains(keys[x]));
        } else {
            assert(keys.contains(keys[y]));
        }
    }
    let a = entries_map(keys2, vals2);
    let b = entries_map(keys, vals).insert(k, v);
    assert(keys2[keys.len() as int] == k);
    assert forall|x: Seq<char>| a.contains_key(x) <==> b.contains_key(x) by {
        if keys2.contains(x) {
            let j = choose|j: int| 0 <= j < keys2.len() && keys2[j] == x;
            if j < keys.len() {
                assert(keys[j] == x);
            }
        }
        if keys.contains(x) {
            let j = choose|j: int| 0 <= j < keys.len() && keys[j] == x;
            assert(keys2[j] == x);
        }
    }
    assert forall|x: Seq<char>| a.contains_key(x) implies #[trigger] a[x] == b[x] by {
        let j = keys2.index_of(x);
        assert(0 <= j < keys2.len() && keys2[j] == x);
        if j < keys.len() {
            assert(keys[j] == x);
            let j2 = keys.index_of(x);
            assert(0 <= j2 < keys.len() && keys[j2] == x);
            assert(keys2[j2] == x);
        }
    }
    assert(a =~= b);
}

/// Changing one value changes the sums by the difference.
pub proof fn lemma_sum_loc_update(vals: Seq<AuthorStatsView>, i: int, v: AuthorStatsView)
    requires
        0 <= i < vals.len(),
    ensures
        sum_loc(vals.update(i, v)) + vals[i].loc == sum_loc(vals) + v.loc,
        sum_commits(vals.update(i, v)) + vals[i].commits == sum_commits(vals) + v.commits,
    decreases vals.len(),
{
    if i == vals.len() - 1 {
        assert(vals.update(i, v).drop_last() == vals.drop_last());
    } else {
        assert(vals.update(i, v).drop_last() == vals.drop_last().update(i, v));
        lemma_sum_loc_update(vals.drop_last(), i, v);
    }
}

/// No value is more than the sum.
pub proof fn lemma_sum_loc_bound(vals: Seq<AuthorStatsView>, i: int)
    requires
        0 <= i < vals.len(),
    ensures
        vals[i].loc <= sum_loc(vals),
        vals[i].commits <= sum_commits(vals),
    decreases vals.len(),
{
    if i < vals.len() - 1 {
        lemma_sum_loc_bound(vals.drop_last(), i);
    }
}

/// `n` lines found in `file`, and nothing else.
pub open spec fn lines_in(file: Seq<char>, n: nat) -> AuthorStatsView {
    AuthorStatsView { loc: n, commits: 0, files: Set::<Seq<char>>::empty().insert(file) }
}

/// `n` commits, and nothing else.
pub open spec fn commits_of(n: nat) -> AuthorStatsView {
    AuthorStatsView { loc: 0, commits: n, files: Set::empty() }
}

/// The map `m` after the finding `v` about `k` has been joined to what `m`
/// held for `k`.
pub open spec fn joined_at(
    m: Map<Seq<char>, AuthorStatsView>,
    k: Seq<char>,
    v: AuthorStatsView,
) -> Map<Seq<char>, AuthorStatsView> {
    m.insert(k, join(entry_or_zero(m, k), v))
}

/// The map `m` after the commits of `k` have been set to `n`: what `m` held
/// of lines and files for `k` stays, the commits are replaced.
pub open spec fn with_commits(m: Map<Seq<char>, AuthorStatsView>, k: Seq<char>, n: nat) -> Map<
    Seq<char>,
    AuthorStatsView,
> {
    m.insert(
        k,
        AuthorStatsView {
            loc: entry_or_zero(m, k).loc,
            commits: n,
            files: entry_or_zero(m, k).files,
        },
    )
}

/// Two maps taken together: an author of either is an author of the result,
/// with what both hold for them joined.
pub open spec fn absorbed(
    a: Map<Seq<char>, AuthorStatsView>,
    b: Map<Seq<char>, AuthorStatsView>,
) -> Map<Seq<char>, AuthorStatsView> {
    Map::new(
        |k: Seq<char>| a.contains_key(k) || b.contains_key(k),
        |k: Seq<char>| join(entry_or_zero(a, k), entry_or_zero(b, k)),
    )
}

/// Whether the sums that `absorbed(a, b)` holds all fit `usize`.
pub open spec fn absorb_fits(
    a: Map<Seq<char>, AuthorStatsView>,
    b: Map<Seq<char>, AuthorStatsView>,
) -> bool {
    forall|k: Seq<char>| #[trigger]
        b.contains_key(k) ==> entry_or_zero(a, k).loc + b[k].loc <= usize::MAX && entry_or_zero(
            a,
            k,
        ).commits + b[k].commits <= usize::MAX
}

/// Taking in a map without authors changes nothing.
pub proof fn lemma_absorbed_empty(a: Map<Seq<char>, AuthorStatsView>)
    ensures
        absorbed(a, Map::<Seq<char>, AuthorStatsView>::empty()) == a,
{
    let e = Map::<Seq<char>, AuthorStatsView>::empty();
    assert forall|k: Seq<char>| a.contains_key(k) implies #[trigger] absorbed(a, e)[k] == a[k] by {
        assert(join(a[k], zero_stats()) =~= a[k]);
    }
    assert(absorbed(a, e) =~= a);
}

/// Taking in one author more is joining their statistics to the result.
pub proof fn lemma_absorbed_insert(
    a: Map<Seq<char>, AuthorStatsView>,
    b: Map<Seq<char>, AuthorStatsView>,
    k: Seq<char>,
    v: AuthorStatsView,
)
    requires
        !b.contains_key(k),
    ensures
        absorbed(a, b.insert(k, v)) == joined_at(absorbed(a, b), k, v),
{
    let x = absorbed(a, b.insert(k, v));
    let y = joined_at(absorbed(a, b), k, v);
    assert forall|q: Seq<char>| x.contains_key(q) implies #[trigger] x[q] == y[q] by {
        if q == k {
            assert(join(join(entry_or_zero(a, k), zero_stats()), v) =~= join(
                entry_or_zero(a, k),
                v,
            ));
            assert(join(zero_stats(), v) =~= v);
        }
    }
    assert(x =~= y);
}

/// The map `a` with the commits that `b` holds: an author of `b` gets the
/// commits that `b` gives them in place of what `a` held, and keeps the lines
/// and files of `a`; any other author of `a` stays as they are.
pub open spec fn overwritten(
    a: Map<Seq<char>, AuthorStatsView>,
    b: Map<Seq<char>, AuthorStatsView>,
) -> Map<Seq<char>, AuthorStatsView> {
    Map::new(
        |k: Seq<char>| a.contains_key(k) || b.contains_key(k),
        |k: Seq<char>|
            if b.contains_key(k) {
                AuthorStatsView {
                    loc: entry_or_zero(a, k).loc,
                    commits: b[k].commits,
                    files: entry_or_zero(a, k).files,
                }
            } else {
                a[k]
            },
    )
}

/// Bringing in no commit counts changes nothing.
pub proof fn lemma_overwritten_empty(a: Map<Seq<char>, AuthorStatsView>)
    ensures
        overwritten(a, Map::<Seq<char>, AuthorStatsView>::empty()) == a,
{
    assert(overwritten(a, Map::<Seq<char>, AuthorStatsView>::empty()) =~= a);
}

/// Bringing in one author more is setting the commits of that author.
pub proof fn lemma_overwritten_insert(
    a: Map<Seq<char>, AuthorStatsView>,
    b: Map<Seq<char>, AuthorStatsView>,
    k: Seq<char>,
    v: AuthorStatsView,
)
    requires
        !b.contains_key(k),
    ensures
        overwritten(a, b.insert(k, v)) == with_commits(overwritten(a, b), k, v.commits),
{
    assert(overwritten(a, b.insert(k, v)) =~= with_commits(overwritten(a, b), k, v.commits));
}

/// Commit counts replace, they do not add: bringing the same counts in a
/// second time changes nothing.
pub proof fn lemma_overwritten_twice(
    a: Map<Seq<char>, AuthorStatsView>,
    b: Map<Seq<char>, AuthorStatsView>,
)
    ensures
        overwritten(overwritten(a, b), b) == overwritten(a, b),
{
    assert(overwritten(overwritten(a, b), b) =~= overwritten(a, b));
}

/// Whether every count that `m` holds fits `usize`.
pub open spec fn fits_usize(m: Map<Seq<char>, AuthorStatsView>) -> bool {
    forall|k: Seq<char>| #[trigger]
        m.contains_key(k) ==> m[k].loc <= usize::MAX && m[k].commits <= usize::MAX
}

/// Taking two maps together gives the same whichever comes first.
pub proof fn lemma_absorbed_commutes(
    a: Map<Seq<char>, AuthorStatsView>,
    b: Map<Seq<char>, AuthorStatsView>,
)
    ensures
        absorbed(a, b) == absorbed(b, a),
{
    let x = absorbed(a, b);
    let y = absorbed(b, a);
    assert forall|k: Seq<char>| x.contains_key(k) implies #[trigger] x[k] == y[k] by {
        assert(join(entry_or_zero(a, k), entry_or_zero(b, k)) =~= join(
            entry_or_zero(b, k),
            entry_or_zero(a, k),
        ));
    }
    assert(x =~= y);
}

/// Taking three maps together gives the same however they are grouped.
pub proof fn lemma_absorbed_associates(
    a: Map<Seq<char>, AuthorStatsView>,
    b: Map<Seq<char>, AuthorStatsView>,
    c: Map<Seq<char>, AuthorStatsView>,
)
    ensures
        absorbed(absorbed(a, b), c) == absorbed(a, absorbed(b, c)),
{
    let x = absorbed(absorbed(a, b), c);
    let y = absorbed(a, absorbed(b, c));
    assert forall|k: Seq<char>| x.contains_key(k) implies #[trigger] x[k] == y[k] by {
        let ea = entry_or_zero(a, k);
        let eb = entry_or_zero(b, k);
        let ec = entry_or_zero(c, k);
        assert(join(zero_stats(), zero_stats()) =~= zero_stats());
        assert(entry_or_zero(absorbed(a, b), k) =~= join(ea, eb));
        assert(entry_or_zero(absorbed(b, c), k) =~= join(eb, ec));
        assert(join(join(ea, eb), ec) =~= join(ea, join(eb, ec)));
    }
    assert(x =~= y);
}

/// Taking out the entry at a place is removing its key.
pub proof fn lemma_entries_remove(keys: Seq<Seq<char>>, vals: Seq<AuthorStatsView>, j: int)
    requires
        keys.no_duplicates(),
        0 <= j < keys.len() == vals.len(),
    ensures
        keys.remove(j).no_duplicates(),
        entries_map(keys.remove(j), vals.remove(j)) == entries_map(keys, vals).remove(keys[j]),
{
    let keys2 = keys.remove(j);
    let vals2 = vals.remove(j);
    let a = entries_map(keys2, vals2);
    let b = entries_map(keys, vals).remove(keys[j]);
    assert forall|x: int| 0 <= x < keys2.len() implies #[trigger] keys2[x] == keys[if x < j {
        x
    } else {
        x + 1
    }] by {}
    assert forall|k: Seq<char>| a.contains_key(k) <==> b.contains_key(k) by {
        if keys2.contains(k) {
            let x = choose|x: int| 0 <= x < keys2.len() && keys2[x] == k;
            let y = if x < j {
                x
            } else {
                x + 1
            };
            assert(keys[y] == k);
        }
        if keys.contains(k) && k != keys[j] {
            let y = choose|y: int| 0 <= y < keys.len() && keys[y] == k;
            let x = if y < j {
                y
            } else {
                y - 1
            };
            assert(keys2[x] == k);
        }
    }
    assert forall|k: Seq<char>| a.contains_key(k) implies #[trigger] a[k] == b[k] by {
        let x = keys2.index_of(k);
        assert(0 <= x < keys2.len() && keys2[x] == k);
        let y = if x < j {
            x
        } else {
            x + 1
        };
        assert(keys[y] == k);
        lemma_entries_get(keys, vals, y);
        assert(vals2[x] == vals[y]);
    }
    assert(a =~= b);
}

/// The sums are those without one value, and that value.
pub proof fn lemma_sum_remove(vals: Seq<AuthorStatsView>, j: int)
    requires
        0 <= j < vals.len(),
    ensures
        sum_loc(vals) == sum_loc(vals.remove(j)) + vals[j].loc,
        sum_commits(vals) == sum_commits(vals.remove(j)) + vals[j].commits,
    decreases vals.len(),
{
    if j == vals.len() - 1 {
        assert(vals.remove(j) == vals.drop_last());
    } else {
        assert(vals.remove(j).drop_last() == vals.drop_last().remove(j));
        assert(vals.remove(j).last() == vals.last());
        lemma_sum_remove(vals.drop_last(), j);
    }
}

/// The sums over the entries of a map do not depend on the order of the
/// entries: two listings of the same map have the same sums.
pub proof fn lemma_sum_by_map(
    keys1: Seq<Seq<char>>,
    vals1: Seq<AuthorStatsView>,
    keys2: Seq<Seq<char>>,
    vals2: Seq<AuthorStatsView>,
)
    requires
        keys1.no_duplicates(),
        keys2.no_duplicates(),
        keys1.len() == vals1.len(),
        keys2.len() == vals2.len(),
        entries_map(keys1, vals1) == entries_map(keys2, vals2),
    ensures
        sum_loc(vals1) == sum_loc(vals2),
        sum_commits(vals1) == sum_commits(vals2),
    decreases keys1.len(),
{
    let m = entries_map(keys1, vals1);
    if keys1.len() == 0 {
        if keys2.len() > 0 {
            assert(keys2.contains(keys2[0]));
            assert(m.contains_key(keys2[0]));
            assert(keys1.contains(keys2[0]));
        }
    } else {
        let last = keys1.len() - 1;
        let k = keys1[last];
        lemma_entries_get(keys1, vals1, last);
        assert(keys2.contains(k));
        let j = keys2.index_of(k);
        assert(0 <= j < keys2.len() && keys2[j] == k);
        lemma_entries_get(keys2, vals2, j);
        lemma_entries_remove(keys1, vals1, last);
        lemma_entries_remove(keys2, vals2, j);
        lemma_sum_remove(vals1, last);
        lemma_sum_remove(vals2, j);
        lemma_sum_by_map(keys1.remove(last), vals1.remove(last), keys2.remove(j), vals2.remove(j));
    }
}

// ---------------------------------------------------------------------------
// The map
// ---------------------------------------------------------------------------

/// The statistics of many authors, one entry per author.
#[derive(Debug, Clone)]
pub struct StatsMap {
    keys: Vec<String>,
    vals: Vec<AuthorStats>,
}

impl View for StatsMap {
    type V = Map<Seq<char>, AuthorStatsView>;

    /// The map from an author to their statistics; the order of the entries
    /// plays no part in it.
    open spec fn view(&self) -> Map<Seq<char>, AuthorStatsView> {
        entries_map(self.authors(), self.values())
    }
}

impl StatsMap {
    /// The authors, in the order in which they were first met.
    pub closed spec fn authors(&self) -> Seq<Seq<char>> {
        strs(self.keys@)
    }

    /// The statistics, each at the place of its author in `authors`.
    pub closed spec fn values(&self) -> Seq<AuthorStatsView> {
        Seq::new(self.vals@.len(), |i: int| self.vals@[i]@)
    }

    /// The files of the author at place `i`, in the order in which they
    /// were found.
    pub closed spec fn files_at(&self, i: int) -> Seq<Seq<char>> {
        self.vals@[i].files.order()
    }

    /// Every author has one entry, and no file is held twice for an author.
    pub closed spec fn wf(&self) -> bool {
        &&& self.keys@.len() == self.vals@.len()
        &&& self.authors().no_duplicates()
        &&& forall|i: int| 0 <= i < self.vals@.len() ==> (#[trigger] self.vals@[i]).files.wf()
    }

    /// The lines of all authors together.
    pub open spec fn total_loc(&self) -> nat {
        sum_loc(self.values())
    }

    /// The commits of all authors together.
    pub open spec fn total_commits(&self) -> nat {
        sum_commits(self.values())
    }

    /// What `wf` says of `authors` and `values`.
    pub proof fn lemma_wf(&self)
        requires
            self.wf(),
        ensures
            self.authors().len() == self.values().len(),
            self.authors().no_duplicates(),
            forall|k: Seq<char>| self@.contains_key(k) <==> self.authors().contains(k),
            forall|i: int|
                0 <= i < self.authors().len() ==> self@.contains_key(#[trigger] self.authors()[i])
                    && self@[self.authors()[i]] == self.values()[i],
    {
        assert forall|i: int| 0 <= i < self.authors().len() implies self@.contains_key(
            #[trigger] self.authors()[i],
        ) && self@[self.authors()[i]] == self.values()[i] by {
            lemma_entries_get(self.authors(), self.values(), i);
        }
    }

    /// The totals are those of the map: two maps with the same authors and
    /// the same statistics have the same totals, in whatever order they hold
    /// their entries.
    pub proof fn lemma_totals_by_view(&self, other: &StatsMap)
        requires
            self.wf(),
            other.wf(),
            self@ == other@,
        ensures
            self.total_loc() == other.total_loc(),
            self.total_commits() == other.total_commits(),
    {
        lemma_sum_by_map(self.authors(), self.values(), other.authors(), other.values());
    }

    /// The counts of a map that is held in memory fit `usize`.
    pub proof fn lemma_fits(&self)
        requires
            self.wf(),
        ensures
            fits_usize(self@),
    {
        assert forall|k: Seq<char>| #[trigger] self@.contains_key(k) implies self@[k].loc
            <= usize::MAX && self@[k].commits <= usize::MAX by {
            let i = self.authors().index_of(k);
            assert(0 <= i < self.authors().len() && self.authors()[i] == k);
            lemma_entries_get(self.authors(), self.values(), i);
        }
    }

    /// No author has more lines, or commits, than all authors together.
    pub proof fn lemma_entry_bound(&self, k: Seq<char>)
        requires
            self.wf(),
            self@.contains_key(k),
        ensures
            self@[k].loc <= self.total_loc(),
            self@[k].commits <= self.total_commits(),
    {
        let i = self.authors().index_of(k);
        assert(0 <= i < self.authors().len() && self.authors()[i] == k);
        lemma_entries_get(self.authors(), self.values(), i);
        lemma_sum_loc_bound(self.values(), i);
    }

    /// The map without any author.
    pub fn new() -> (m: Self)
        ensures
            m.wf(),
            m@ == Map::<Seq<char>, AuthorStatsView>::empty(),
            m.authors().len() == 0,
            m.total_loc() == 0,
            m.total_commits() == 0,
    {
        let m = StatsMap { keys: Vec::new(), vals: Vec::new() };
        assert(m@ =~= Map::<Seq<char>, AuthorStatsView>::empty());
        m
    }

    /// The number of authors.
    pub fn len(&self) -> (n: usize)
        ensures
            n == self.authors().len(),
    {
        self.keys.len()
    }

    /// Whether the map holds no author.
    pub fn is_empty(&self) -> (b: bool)
        ensures
            b == (self.authors().len() == 0),
            b == (self@ == Map::<Seq<char>, AuthorStatsView>::empty()),
    {
        proof {
            if self.authors().len() > 0 {
                assert(self.authors().contains(self.authors()[0]));
                assert(self@.contains_key(self.authors()[0]));
            } else {
                assert(self@ =~= Map::<Seq<char>, AuthorStatsView>::empty());
            }
        }
        self.keys.len() == 0
    }

    /// The author at place `i`.
    pub fn author_at(&self, i: usize) -> (a: &String)
        requires
            i < self.authors().len(),
        ensures
            a@ == self.authors()[i as int],
    {
        &self.keys[i]
    }

    /// The statistics of the author at place `i`.
    pub fn stats_at(&self, i: usize) -> (s: &AuthorStats)
        requires
            self.wf(),
            i < self.authors().len(),
        ensures
            s@ == self.values()[i as int],
            s@ == self@[self.authors()[i as int]],
            s.files.wf(),
            s.files.order() == self.files_at(i as int),
    {
        proof {
            self.lemma_wf();
        }
        &self.vals[i]
    }

    /// The place of `author`, where the map holds them.
    pub fn find(&self, author: &str) -> (r: Option<usize>)
        ensures
            match r {
                Some(i) => i < self.authors().len() && self.authors()[i as int] == author@,
                None => !self.authors().contains(author@),
            },
    {
        let wanted = author.to_owned();
        let mut i: usize = 0;
        while i < self.keys.len()
            invariant
                i <= self.keys.len(),
                wanted@ == author@,
                forall|j: int| 0 <= j < i ==> self.authors()[j] != author@,
            decreases self.keys.len() - i,
        {
            if self.keys[i] == wanted {
                return Some(i);
            }
            i += 1;
        }
        None
    }

    /// Whether the map holds `author`.
    pub fn contains_key(&self, author: &str) -> (b: bool)
        ensures
            b == self@.contains_key(author@),
    {
        self.find(author).is_some()
    }

    /// The statistics of `author`, where the map holds them.
    pub fn get(&self, author: &str) -> (r: Option<&AuthorStats>)
        requires
            self.wf(),
        ensures
            match r {
                Some(s) => self@.contains_key(author@) && s@ == self@[author@] && s.files.wf(),
                None => !self@.contains_key(author@),
            },
    {
        match self.find(author) {
            Some(i) => {
                proof {
                    self.lemma_wf();
                }
                Some(&self.vals[i])
            },
            None => None,
        }
    }

    /// Attributes `n` more lines, found in `file`, to `author`.
    pub fn add_lines(&mut self, author: &str, file: &str, n: usize)
        requires
            old(self).wf(),
            entry_or_zero(old(self)@, author@).loc + n <= usize::MAX,
        ensures
            final(self).wf(),
            final(self)@ == joined_at(old(self)@, author@, lines_in(file@, n as nat)),
            final(self).total_loc() == old(self).total_loc() + n,
            final(self).total_commits() == old(self).total_commits(),
    {
        let i = self.slot(author);
        let ghost keys = self.authors();
        let ghost vals = self.values();
        let ghost before = self.vals@;
        self.vals[i].loc += n;
        self.vals[i].files.insert(file.to_owned());
        proof {
            let v = self.vals@[i as int]@;
            assert(self.vals@ == before.update(i as int, self.vals@[i as int]));
            assert(self.values() == vals.update(i as int, v));
            assert(v == join(vals[i as int], lines_in(file@, n as nat)));
            lemma_entries_update(keys, vals, i as int, v);
            lemma_sum_loc_update(vals, i as int, v);
            assert(old(self)@.insert(author@, entry_or_zero(old(self)@, author@)).insert(
                author@,
                v,
            ) == old(self)@.insert(author@, v));
        }
    }

    /// Counts `n` more commits for `author`.
    pub fn add_commits(&mut self, author: &str, n: usize)
        requires
            old(self).wf(),
            entry_or_zero(old(self)@, author@).commits + n <= usize::MAX,
        ensures
            final(self).wf(),
            final(self)@ == joined_at(old(self)@, author@, commits_of(n as nat)),
            final(self).total_loc() == old(self).total_loc(),
            final(self).total_commits() == old(self).total_commits() + n,
    {
        let i = self.slot(author);
        let ghost keys = self.authors();
        let ghost vals = self.values();
        let ghost before = self.vals@;
        self.vals[i].commits += n;
        proof {
            let v = self.vals@[i as int]@;
            assert(self.vals@ == before.update(i as int, self.vals@[i as int]));
            assert(self.values() == vals.update(i as int, v));
            assert(v == join(vals[i as int], commits_of(n as nat)));
            lemma_entries_update(keys, vals, i as int, v);
            lemma_sum_loc_update(vals, i as int, v);
            assert(old(self)@.insert(author@, entry_or_zero(old(self)@, author@)).insert(
                author@,
                v,
            ) == old(self)@.insert(author@, v));
        }
    }

    /// Sets the commits of `author` to `n`, whatever they were; their lines
    /// and files stay.
    pub fn set_commits(&mut self, author: &str, n: usize)
        requires
            old(self).wf(),
        ensures
            final(self).wf(),
            final(self)@ == with_commits(old(self)@, author@, n as nat),
            final(self).total_loc() == old(self).total_loc(),
            final(self).total_commits() + entry_or_zero(old(self)@, author@).commits == old(
                self,
            ).total_commits() + n,
    {
        let i = self.slot(author);
        let ghost keys = self.authors();
        let ghost vals = self.values();
        let ghost before = self.vals@;
        self.vals[i].commits = n;
        proof {
            let v = self.vals@[i as int]@;
            assert(self.vals@ == before.update(i as int, self.vals@[i as int]));
            assert(self.values() == vals.update(i as int, v));
            lemma_entries_update(keys, vals, i as int, v);
            lemma_sum_loc_update(vals, i as int, v);
            assert(old(self)@.insert(author@, entry_or_zero(old(self)@, author@)).insert(
                author@,
                v,
            ) == old(self)@.insert(author@, v));
        }
    }

    /// Joins the finding `add` to what the map holds for `author`.
    pub fn join_into(&mut self, author: &str, add: &AuthorStats)
        requires
            old(self).wf(),
            entry_or_zero(old(self)@, author@).loc + add.loc <= usize::MAX,
            entry_or_zero(old(self)@, author@).commits + add.commits <= usize::MAX,
        ensures
            final(self).wf(),
            final(self)@ == joined_at(old(self)@, author@, add@),
            final(self).total_loc() == old(self).total_loc() + add.loc,
            final(self).total_commits() == old(self).total_commits() + add.commits,
    {
        let i = self.slot(author);
        let ghost keys = self.authors();
        let ghost vals = self.values();
        let ghost before = self.vals@;
        self.vals[i].loc += add.loc;
        self.vals[i].commits += add.commits;
        self.vals[i].files.extend(&add.files);
        proof {
            let v = self.vals@[i as int]@;
            assert(self.vals@ == before.update(i as int, self.vals@[i as int]));
            assert(self.values() == vals.update(i as int, v));
            assert(v == join(vals[i as int], add@));
            lemma_entries_update(keys, vals, i as int, v);
            lemma_sum_loc_update(vals, i as int, v);
            assert(old(self)@.insert(author@, entry_or_zero(old(self)@, author@)).insert(
                author@,
                v,
            ) == old(self)@.insert(author@, v));
        }
    }

    /// Whether `other` can be taken into this map without a sum leaving `usize`.
    pub fn can_absorb(&self, other: &StatsMap) -> (b: bool)
        requires
            self.wf(),
            other.wf(),
        ensures
            b == absorb_fits(self@, other@),
    {
        proof {
            self.lemma_wf();
            other.lemma_wf();
        }
        let mut j: usize = 0;
        while j < other.keys.len()
            invariant
                j <= other.keys.len(),
                self.wf(),
                other.wf(),
                forall|x: int|
                    0 <= x < j ==> entry_or_zero(self@, #[trigger] other.authors()[x]).loc
                        + other.values()[x].loc <= usize::MAX && entry_or_zero(
                        self@,
                        other.authors()[x],
                    ).commits + other.values()[x].commits <= usize::MAX,
            decreases other.keys.len() - j,
        {
            proof {
                self.lemma_wf();
                other.lemma_wf();
            }
            let (loc, commits): (usize, usize) = match self.find(other.keys[j].as_str()) {
                Some(i) => (self.vals[i].loc, self.vals[i].commits),
                None => (0, 0),
            };
            let add = &other.vals[j];
            if loc.checked_add(add.loc).is_none() || commits.checked_add(add.commits).is_none() {
                proof {
                    let k = other.authors()[j as int];
                    assert(other@.contains_key(k));
                    assert(other@[k] == other.values()[j as int]);
                }
                return false;
            }
            j += 1;
        }
        proof {
            other.lemma_wf();
            assert forall|k: Seq<char>| #[trigger]
                other@.contains_key(k) implies entry_or_zero(self@, k).loc + other@[k].loc
                <= usize::MAX && entry_or_zero(self@, k).commits + other@[k].commits
                <= usize::MAX by {
                let x = other.authors().index_of(k);
                assert(0 <= x < other.authors().len() && other.authors()[x] == k);
            }
        }
        true
    }

    /// Takes `other` into this map: an author of either is an author of the
    /// result, with what both held for them joined.
    pub fn absorb(&mut self, other: &StatsMap)
        requires
            old(self).wf(),
            other.wf(),
            absorb_fits(old(self)@, other@),
        ensures
            final(self).wf(),
            final(self)@ == absorbed(old(self)@, other@),
            final(self).total_loc() == old(self).total_loc() + other.total_loc(),
            final(self).total_commits() == old(self).total_commits() + other.total_commits(),
    {
        let mut j: usize = 0;
        proof {
            other.lemma_wf();
            lemma_absorbed_empty(self@);
            assert(other.authors().take(0) == Seq::<Seq<char>>::empty());
            assert(entries_map(other.authors().take(0), other.values().take(0))
                == Map::<Seq<char>, AuthorStatsView>::empty());
        }
        while j < other.keys.len()
            invariant
                j <= other.keys.len(),
                self.wf(),
                other.wf(),
                absorb_fits(old(self)@, other@),
                self@ == absorbed(
                    old(self)@,
                    entries_map(other.authors().take(j as int), other.values().take(j as int)),
                ),
                self.total_loc() == old(self).total_loc() + sum_loc(other.values().take(j as int)),
                self.total_commits() == old(self).total_commits() + sum_commits(
                    other.values().take(j as int),
                ),
            decreases other.keys.len() - j,
        {
            let ghost keys = other.authors();
            let ghost vals = other.values();
            let ghost done = entries_map(keys.take(j as int), vals.take(j as int));
            let ghost k = keys[j as int];
            let ghost v = vals[j as int];
            proof {
                other.lemma_wf();
                assert(keys.take(j + 1) == keys.take(j as int).push(k));
                assert(vals.take(j + 1) == vals.take(j as int).push(v));
                assert(!keys.take(j as int).contains(k)) by {
                    if keys.take(j as int).contains(k) {
                        let x = choose|x: int| 0 <= x < j && keys.take(j as int)[x] == k;
                        assert(keys[x] == keys[j as int]);
                    }
                }
                assert(keys.take(j as int).no_duplicates());
                lemma_entries_push(keys.take(j as int), vals.take(j as int), k, v);
                lemma_absorbed_insert(old(self)@, done, k, v);
                assert(other@.contains_key(k) && other@[k] == v);
                assert(!done.contains_key(k));
                assert(vals.take(j + 1).drop_last() == vals.take(j as int));
            }
            self.join_into(other.keys[j].as_str(), &other.vals[j]);
            j += 1;
        }
        proof {
            assert(other.authors().take(other.authors().len() as int) == other.authors());
            assert(other.values().take(other.values().len() as int) == other.values());
        }
    }

    /// Brings the commit counts of `ledger` into this map. The counts of
    /// `ledger` replace what the map held for the same author; lines and
    /// files stay as they are.
    pub fn merge_commits(&mut self, ledger: &StatsMap)
        requires
            old(self).wf(),
            ledger.wf(),
        ensures
            final(self).wf(),
            final(self)@ == overwritten(old(self)@, ledger@),
            final(self).total_loc() == old(self).total_loc(),
    {
        let mut j: usize = 0;
        proof {
            ledger.lemma_wf();
            lemma_overwritten_empty(self@);
            assert(ledger.authors().take(0) == Seq::<Seq<char>>::empty());
            assert(entries_map(ledger.authors().take(0), ledger.values().take(0))
                == Map::<Seq<char>, AuthorStatsView>::empty());
        }
        while j < ledger.keys.len()
            invariant
                j <= ledger.keys.len(),
                self.wf(),
                ledger.wf(),
                self@ == overwritten(
                    old(self)@,
                    entries_map(ledger.authors().take(j as int), ledger.values().take(j as int)),
                ),
                self.total_loc() == old(self).total_loc(),
            decreases ledger.keys.len() - j,
        {
            let ghost keys = ledger.authors();
            let ghost vals = ledger.values();
            let ghost done = entries_map(keys.take(j as int), vals.take(j as int));
            let ghost k = keys[j as int];
            let ghost v = vals[j as int];
            proof {
                ledger.lemma_wf();
                assert(keys.take(j + 1) == keys.take(j as int).push(k));
                assert(vals.take(j + 1) == vals.take(j as int).push(v));
                assert(!keys.take(j as int).contains(k)) by {
                    if keys.take(j as int).contains(k) {
                        let x = choose|x: int| 0 <= x < j && keys.take(j as int)[x] == k;
                        assert(keys[x] == keys[j as int]);
                    }
                }
                assert(keys.take(j as int).no_duplicates());
                lemma_entries_push(keys.take(j as int), vals.take(j as int), k, v);
                lemma_overwritten_insert(old(self)@, done, k, v);
            }
            self.set_commits(ledger.keys[j].as_str(), ledger.vals[j].commits);
            j += 1;
        }
        proof {
            assert(ledger.authors().take(ledger.authors().len() as int) == ledger.authors());
            assert(ledger.values().take(ledger.values().len() as int) == ledger.values());
        }
    }

    /// The place of `author`, who gets an entry without lines, commits or
    /// files where the map held none.
    fn slot(&mut self, author: &str) -> (i: usize)
        requires
            old(self).wf(),
        ensures
            final(self).wf(),
            i < final(self).authors().len(),
            final(self).authors()[i as int] == author@,
            final(self).values()[i as int] == entry_or_zero(old(self)@, author@),
            final(self)@ == old(self)@.insert(author@, entry_or_zero(old(self)@, author@)),
            final(self).total_loc() == old(self).total_loc(),
            final(self).total_commits() == old(self).total_commits(),
    {
        proof {
            self.lemma_wf();
        }
        match self.find(author) {
            Some(i) => {
                assert(self@.insert(author@, self@[author@]) =~= self@);
                i
            },
            None => {
                let fresh = AuthorStats::default();
                let key = author.to_owned();
                proof {
                    lemma_entries_push(self.authors(), self.values(), author@, fresh@);
                }
                let ghost old_keys = self.authors();
                let ghost old_vals = self.values();
                self.keys.push(key);
                self.vals.push(fresh);
                proof {
                    assert(self.authors() == old_keys.push(author@));
                    assert(self.values() == old_vals.push(zero_stats()));
                    assert(self.values().drop_last() == old_vals);
                }
                self.keys.len() - 1
            },
        }
    }
}

} // verus!
