//! The report on a map of authors: totals, the authors in the order of
//! their lines, and the whole map as JSON.

use vstd::prelude::*;
use crate::names::NameSet;
use crate::output::author_json;
use crate::stats::{sum_commits, sum_loc, AuthorStatsView, StatsMap};
use crate::text::{push_str, string_of};

verus! {

// ---------------------------------------------------------------------------
// Totals
// ---------------------------------------------------------------------------

/// The sums over the first entries are at most the sums over all.
pub proof fn lemma_sum_prefix(vals: Seq<AuthorStatsView>, i: int)
    requires
        0 <= i <= vals.len(),
    ensures
        sum_loc(vals.take(i)) <= sum_loc(vals),
        sum_commits(vals.take(i)) <= sum_commits(vals),
    decreases vals.len() - i,
{
    if i < vals.len() {
        assert(vals.drop_last().take(i) == vals.take(i));
        lemma_sum_prefix(vals.drop_last(), i);
    } else {
        assert(vals.take(i) == vals);
    }
}

/// The lines and the commits of all authors of `m` together; nothing where
/// one of the two sums does not fit `usize`.
pub fn totals(m: &StatsMap) -> (r: Option<(usize, usize)>)
    requires
        m.wf(),
    ensures
        match r {
            Some((loc, commits)) => loc == m.total_loc() && commits == m.total_commits(),
            None => m.total_loc() > usize::MAX || m.total_commits() > usize::MAX,
        },
{
    let mut loc: usize = 0;
    let mut commits: usize = 0;
    let mut i: usize = 0;
    let ghost vals = m.values();
    proof {
        m.lemma_wf();
    }
    while i < m.len()
        invariant
            i <= m.authors().len(),
            m.wf(),
            vals == m.values(),
            vals.len() == m.authors().len(),
            loc == sum_loc(vals.take(i as int)),
            commits == sum_commits(vals.take(i as int)),
        decreases m.authors().len() - i,
    {
        let s = m.stats_at(i);
        proof {
            assert(vals.take(i + 1).drop_last() == vals.take(i as int));
            assert(vals.take(i + 1).last() == vals[i as int]);
            lemma_sum_prefix(vals, i + 1);
        }
        loc = match loc.checked_add(s.loc) {
            Some(x) => x,
            None => {
                return None;
            },
        };
        commits = match commits.checked_add(s.commits) {
            Some(x) => x,
            None => {
                return None;
            },
        };
        i += 1;
    }
    assert(vals.take(vals.len() as int) == vals);
    Some((loc, commits))
}

/// The files of all of `vals` together.
pub open spec fn files_union(vals: Seq<AuthorStatsView>) -> Set<Seq<char>>
    decreases vals.len(),
{
    if vals.len() == 0 {
        Set::empty()
    } else {
        files_union(vals.drop_last()).union(vals.last().files)
    }
}

/// The files in which a line is attributed to any author of `m`.
pub fn all_files(m: &StatsMap) -> (files: NameSet)
    requires
        m.wf(),
    ensures
        files.wf(),
        files@ == files_union(m.values()),
{
    let mut files = NameSet::new();
    let mut i: usize = 0;
    let ghost vals = m.values();
    proof {
        m.lemma_wf();
    }
    while i < m.len()
        invariant
            i <= m.authors().len(),
            m.wf(),
            vals == m.values(),
            vals.len() == m.authors().len(),
            files.wf(),
            files@ == files_union(vals.take(i as int)),
        decreases m.authors().len() - i,
    {
        let s = m.stats_at(i);
        proof {
            assert(vals.take(i + 1).drop_last() == vals.take(i as int));
            assert(vals.take(i + 1).last() == vals[i as int]);
        }
        files.extend(&s.files);
        i += 1;
    }
    assert(vals.take(vals.len() as int) == vals);
    files
}

// ---------------------------------------------------------------------------
// The authors in the order of their lines
// ---------------------------------------------------------------------------

/// Whether `order` lists the places of `vals`, each once, by lines: more
/// lines first, and of two authors with the same lines the one that the map
/// met first.
pub open spec fn by_loc(vals: Seq<AuthorStatsView>, order: Seq<usize>) -> bool {
    &&& order.len() == vals.len()
    &&& order.no_duplicates()
    &&& forall|i: int| 0 <= i < order.len() ==> (#[trigger] order[i]) < vals.len()
    &&& forall|i: int, j: int|
        0 <= i < j < order.len() ==> vals[order[i] as int].loc > vals[order[j] as int].loc || (
        vals[order[i] as int].loc == vals[order[j] as int].loc && order[i] < order[j])
}

/// The places of the authors of `m` in the order of their lines.
pub fn order_by_loc(m: &StatsMap) -> (order: Vec<usize>)
    requires
        m.wf(),
    ensures
        by_loc(m.values(), order@),
{
    let n = m.len();
    let ghost vals = m.values();
    proof {
        m.lemma_wf();
    }
    let mut order: Vec<usize> = Vec::new();
    let mut k: usize = 0;
    while k < n
        invariant
            k <= n,
            n == m.authors().len(),
            m.wf(),
            vals == m.values(),
            vals.len() == n,
            order@.len() == k,
            order@.no_duplicates(),
            forall|i: int| 0 <= i < order@.len() ==> (#[trigger] order@[i]) < k,
            forall|i: int, j: int|
                0 <= i < j < order@.len() ==> vals[order@[i] as int].loc > vals[order@[j] as int].loc
                    || (vals[order@[i] as int].loc == vals[order@[j] as int].loc && order@[i]
                    < order@[j]),
        decreases n - k,
    {
        let loc = m.stats_at(k).loc;
        let mut p: usize = 0;
        while p < order.len() && m.stats_at(order[p]).loc >= loc
            invariant
                p <= order@.len(),
                order@.len() == k,
                k < n,
                n == m.authors().len(),
                m.wf(),
                vals == m.values(),
                vals.len() == n,
                loc == vals[k as int].loc,
                forall|i: int| 0 <= i < order@.len() ==> (#[trigger] order@[i]) < k,
                forall|i: int| 0 <= i < p ==> vals[(#[trigger] order@[i]) as int].loc >= loc,
            decreases order@.len() - p,
        {
            p += 1;
        }
        let ghost before = order@;
        order.insert(p, k);
        proof {
            let after = order@;
            assert(after == before.insert(p as int, k));
            assert forall|i: int| 0 <= i < after.len() implies (#[trigger] after[i]) < k + 1 by {
                if i < p {
                    assert(after[i] == before[i]);
                } else if i > p {
                    assert(after[i] == before[i - 1]);
                }
            }
            assert forall|i: int, j: int| 0 <= i < after.len() && 0 <= j < after.len() && i
                != j implies after[i] != after[j] by {
                let a = if i < p {
                    i
                } else {
                    i - 1
                };
                let b = if j < p {
                    j
                } else {
                    j - 1
                };
                if i != p && j != p {
                    assert(after[i] == before[a]);
                    assert(after[j] == before[b]);
                } else if i == p {
                    assert(after[j] == before[b]);
                } else {
                    assert(after[i] == before[a]);
                }
            }
            assert forall|i: int, j: int| 0 <= i < j < after.len() implies vals[after[i] as int].loc
                > vals[after[j] as int].loc || (vals[after[i] as int].loc
                == vals[after[j] as int].loc && after[i] < after[j]) by {
                let a = if i < p {
                    i
                } else {
                    i - 1
                };
                let b = if j < p {
                    j
                } else {
                    j - 1
                };
                if i != p && j != p {
                    assert(after[i] == before[a]);
                    assert(after[j] == before[b]);
                } else if i == p {
                    assert(after[j] == before[b]);
                    if p < before.len() {
                        assert(vals[before[p as int] as int].loc < loc);
                        if b > p {
                            assert(vals[before[p as int] as int].loc >= vals[before[b] as int].loc);
                        }
                    }
                } else {
                    assert(after[i] == before[a]);
                    assert(vals[before[a] as int].loc >= loc);
                }
            }
        }
        k += 1;
    }
    order
}

// ---------------------------------------------------------------------------
// The map as JSON
// ---------------------------------------------------------------------------

/// `acc` followed by the first `n` entries of the map, each as the author
/// in double quotes, a colon, and the author's statistics as JSON; a comma
/// and a line feed stand between two entries.
pub open spec fn entries_onto(acc: Seq<char>, m: StatsMap, n: nat) -> Seq<char>
    decreases n,
{
    if n == 0 {
        acc
    } else {
        let head = if n == 1 {
            acc
        } else {
            entries_onto(acc, m, (n - 1) as nat) + ",\n"@
        };
        head + "\""@ + m.authors()[n - 1] + "\": "@ + author_json(
            m.values()[n - 1].loc,
            m.values()[n - 1].commits,
            m.files_at(n - 1),
        )
    }
}

/// The whole map as JSON: one entry per author, in the order in which the
/// map met them, between braces.
pub open spec fn map_json_text(m: StatsMap) -> Seq<char> {
    entries_onto("{\n"@, m, m.authors().len()) + "\n}"@
}

/// The whole map as JSON.
pub fn map_json(m: &StatsMap) -> (json: String)
    requires
        m.wf(),
    ensures
        json@ == map_json_text(*m),
{
    let mut out: Vec<char> = Vec::new();
    push_str(&mut out, "{\n");
    assert(out@ == "{\n"@);
    let mut i: usize = 0;
    while i < m.len()
        invariant
            i <= m.authors().len(),
            m.wf(),
            out@ == entries_onto("{\n"@, *m, i as nat),
        decreases m.authors().len() - i,
    {
        if i > 0 {
            push_str(&mut out, ",\n");
        }
        push_str(&mut out, "\"");
        push_str(&mut out, m.author_at(i).as_str());
        push_str(&mut out, "\": ");
        let s = m.stats_at(i);
        let j = s.to_json();
        push_str(&mut out, j.as_str());
        i += 1;
    }
    push_str(&mut out, "\n}");
    string_of(&out)
}

} // verus!
