//! What is read from the output of the history tool about merges.

use vstd::prelude::*;
use crate::text::{chars_of, has_prefix, lines, seqs, split_lines, starts_with};

verus! {

/// Whether the subject line `line` of a merge commit tells of a merged pull
/// request.
pub open spec fn is_pull_request(line: Seq<char>) -> bool {
    starts_with(line, "Merge pull request #"@) || starts_with(line, "Merge branch '"@)
        || starts_with(line, "Merged in"@)
}

/// How many of the lines `ls` tell of a merged pull request.
pub open spec fn count_merged(ls: Seq<Seq<char>>) -> nat
    decreases ls.len(),
{
    if ls.len() == 0 {
        0
    } else {
        count_merged(ls.drop_last()) + if is_pull_request(ls.last()) {
            1nat
        } else {
            0nat
        }
    }
}

/// There are no more merged pull requests than lines.
pub proof fn lemma_count_merged_bound(ls: Seq<Seq<char>>)
    ensures
        count_merged(ls) <= ls.len(),
    decreases ls.len(),
{
    if ls.len() > 0 {
        lemma_count_merged_bound(ls.drop_last());
    }
}

/// The number of merged pull requests in `log_output`, which holds the
/// subject lines of an author's merge commits, one per line.
pub fn count_pull_requests(log_output: &str) -> (n: usize)
    ensures
        n == count_merged(lines(log_output@)),
{
    let text = chars_of(log_output);
    let ls = split_lines(&text);
    let mut n: usize = 0;
    let mut i: usize = 0;
    while i < ls.len()
        invariant
            i <= ls.len(),
            n == count_merged(seqs(ls@).take(i as int)),
        decreases ls.len() - i,
    {
        let line = &ls[i];
        proof {
            let done = seqs(ls@).take(i as int);
            let next = seqs(ls@).take(i + 1);
            assert(next.drop_last() == done);
            assert(next.last() == line@);
            lemma_count_merged_bound(done);
        }
        if has_prefix(line, "Merge pull request #") || has_prefix(line, "Merge branch '")
            || has_prefix(line, "Merged in") {
            n += 1;
        }
        i += 1;
    }
    assert(seqs(ls@).take(ls.len() as int) == seqs(ls@));
    n
}

} // verus!
