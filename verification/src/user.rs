//! What is gathered about one user: the tags that hold a commit of theirs,
//! and their merged pull requests.

use vstd::prelude::*;
use crate::git::{count_merged, count_pull_requests};
use crate::names::NameSet;
use crate::stats::UserStats;
use crate::text::{line_strings, lines, strs};

verus! {

/// A tag with the log of the user's commits that it holds, as it was
/// obtained: an error where the log could not be had.
#[derive(Debug)]
pub struct TagLog {
    pub tag: String,
    pub log: Result<String, String>,
}

/// Whether the tag holds a commit of the user: its log was had and is not
/// empty.
pub open spec fn tag_has_commits(t: TagLog) -> bool {
    match t.log {
        Ok(l) => l@.len() > 0,
        Err(_) => false,
    }
}

/// The tags among `logs` that hold a commit of the user.
pub open spec fn authored_tags(logs: Seq<TagLog>) -> Set<Seq<char>>
    decreases logs.len(),
{
    if logs.len() == 0 {
        Set::empty()
    } else {
        let rest = authored_tags(logs.drop_last());
        if tag_has_commits(logs.last()) {
            rest.insert(logs.last().tag@)
        } else {
            rest
        }
    }
}

/// The merged pull requests that the log of merges tells of; none where the
/// log could not be had.
pub open spec fn merged_requests(merges: Result<String, String>) -> nat {
    match merges {
        Ok(l) => count_merged(lines(l@)),
        Err(_) => 0,
    }
}

/// The names of the tags in `tags_output`, which holds one tag per line.
pub fn tag_names(tags_output: &str) -> (tags: Vec<String>)
    ensures
        strs(tags@) == lines(tags_output@),
{
    line_strings(tags_output)
}

/// The statistics of one user, from the logs of the tags and the log of the
/// user's merges. A tag whose log could not be had counts as one without a
/// commit of the user, a log of merges that could not be had as one without
/// merges.
pub fn gather_user_stats(logs: &Vec<TagLog>, merges: &Result<String, String>) -> (stats: UserStats)
    ensures
        stats.tags.wf(),
        stats.tags@ == authored_tags(logs@),
        stats.pull_requests == merged_requests(*merges),
{
    let mut tags = NameSet::new();
    let mut i: usize = 0;
    while i < logs.len()
        invariant
            i <= logs.len(),
            tags.wf(),
            tags@ == authored_tags(logs@.take(i as int)),
        decreases logs.len() - i,
    {
        proof {
            assert(logs@.take(i + 1).drop_last() == logs@.take(i as int));
            assert(logs@.take(i + 1).last() == logs@[i as int]);
        }
        match &logs[i].log {
            Ok(l) => {
                if !l.as_str().is_empty() {
                    tags.insert(logs[i].tag.clone());
                }
            },
            Err(_) => {},
        }
        i += 1;
    }
    assert(logs@.take(logs.len() as int) == logs@);
    let pull_requests = match merges {
        Ok(l) => count_pull_requests(l.as_str()),
        Err(_) => 0,
    };
    UserStats { tags, pull_requests }
}

} // verus!
