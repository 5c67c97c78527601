//! What is shown of the numbers: the short forms of long paths, and the
//! statistics as JSON.

use vstd::prelude::*;
use crate::names::NameSet;
use crate::stats::{AuthorStats, UserStats};
use crate::text::{
    chars_of, digits_of, push_all, push_decimal, push_str, seqs, sort_texts, sorted_texts, string_of,
    subvec,
};

verus! {

/// `s` cut to at most `max` characters. A text that is longer than `max`
/// ends in three dots where `max` leaves room for them (more than three
/// characters); the cut then falls after a hyphen rather than before it.
pub open spec fn truncated(s: Seq<char>, max: nat) -> Seq<char> {
    if s.len() <= max {
        s
    } else if max > 3 {
        let cut = max - 3;
        let end = if cut > 0 && cut < s.len() && s[cut - 1] != '-' && s[cut] == '-' {
            cut + 1
        } else {
            cut
        };
        s.take(end) + "..."@
    } else {
        s.take(max as int)
    }
}

/// `s` cut to at most `max` characters, as `truncated` defines it.
pub fn truncate(s: &str, max: usize) -> (r: String)
    ensures
        r@ == truncated(s@, max as nat),
{
    let v = chars_of(s);
    if v.len() <= max {
        assert(v@.subrange(0, v.len() as int) == v@);
        string_of(&v)
    } else if max > 3 {
        let cut = max - 3;
        let end = if cut > 0 && cut < v.len() && v[cut - 1] != '-' && v[cut] == '-' {
            cut + 1
        } else {
            cut
        };
        let mut out = subvec(&v, 0, end);
        push_str(&mut out, "...");
        string_of(&out)
    } else {
        let out = subvec(&v, 0, max);
        string_of(&out)
    }
}

// ---------------------------------------------------------------------------
// JSON
// ---------------------------------------------------------------------------

/// `acc` followed by the names `names`, each in double quotes, with a comma
/// and a space between two of them.
pub open spec fn quoted_onto(acc: Seq<char>, names: Seq<Seq<char>>) -> Seq<char>
    decreases names.len(),
{
    if names.len() == 0 {
        acc
    } else if names.len() == 1 {
        acc + "\""@ + names[0] + "\""@
    } else {
        quoted_onto(acc, names.drop_last()) + ", "@ + "\""@ + names.last() + "\""@
    }
}

/// The statistics of one author as JSON, the files in the order in which
/// they were found.
pub open spec fn author_json(loc: nat, commits: nat, files: Seq<Seq<char>>) -> Seq<char> {
    quoted_onto(
        "{\"loc\": "@ + digits_of(loc) + ", \"commits\": "@ + digits_of(commits)
            + ", \"files\": ["@,
        files,
    ) + "]}"@
}

/// The statistics of one user as JSON, the tags in the order in which they
/// were found.
pub open spec fn user_json(tags: Seq<Seq<char>>, pull_requests: nat) -> Seq<char> {
    quoted_onto("{\"tags\": ["@, tags) + "], \"pull_requests\": "@ + digits_of(pull_requests)
        + "}"@
}

/// Appends the names of `names`, as `quoted_onto` writes them, to `out`.
fn push_quoted(out: &mut Vec<char>, names: &NameSet)
    ensures
        final(out)@ == quoted_onto(old(out)@, names.order()),
{
    let n = names.len();
    let mut i: usize = 0;
    while i < n
        invariant
            i <= n == names.order().len(),
            out@ == quoted_onto(old(out)@, names.order().take(i as int)),
        decreases n - i,
    {
        proof {
            let next = names.order().take(i + 1);
            assert(next.drop_last() == names.order().take(i as int));
            assert(next.last() == names.order()[i as int]);
            if i == 0 {
                assert(next[0] == names.order()[0]);
            }
        }
        if i > 0 {
            push_str(out, ", ");
        }
        push_str(out, "\"");
        push_str(out, names.get(i).as_str());
        push_str(out, "\"");
        i += 1;
    }
    assert(names.order().take(n as int) == names.order());
}

impl AuthorStats {
    /// The statistics as JSON.
    pub fn to_json(&self) -> (json: String)
        ensures
            json@ == author_json(self.loc as nat, self.commits as nat, self.files.order()),
    {
        let mut out: Vec<char> = Vec::new();
        push_str(&mut out, "{\"loc\": ");
        push_decimal(&mut out, self.loc);
        push_str(&mut out, ", \"commits\": ");
        push_decimal(&mut out, self.commits);
        push_str(&mut out, ", \"files\": [");
        assert(out@ == "{\"loc\": "@ + digits_of(self.loc as nat) + ", \"commits\": "@ + digits_of(
            self.commits as nat,
        ) + ", \"files\": ["@);
        push_quoted(&mut out, &self.files);
        push_str(&mut out, "]}");
        string_of(&out)
    }
}

impl UserStats {
    /// The statistics as JSON.
    pub fn to_json(&self) -> (json: String)
        ensures
            json@ == user_json(self.tags.order(), self.pull_requests as nat),
    {
        let mut out: Vec<char> = Vec::new();
        push_str(&mut out, "{\"tags\": [");
        assert(out@ == "{\"tags\": ["@);
        push_quoted(&mut out, &self.tags);
        push_str(&mut out, "], \"pull_requests\": ");
        push_decimal(&mut out, self.pull_requests);
        push_str(&mut out, "}");
        string_of(&out)
    }
}

// ---------------------------------------------------------------------------
// The statistics of a user
// ---------------------------------------------------------------------------

/// `acc` followed by a line for each of the tags from place `from` up to,
/// not including, place `to`.
pub open spec fn tag_lines_onto(acc: Seq<char>, tags: Seq<Seq<char>>, from: int, to: int) -> Seq<
    char,
>
    decreases to - from,
{
    if to <= from {
        acc
    } else {
        tag_lines_onto(acc, tags, from, to - 1) + "  - "@ + tags[to - 1] + "\n"@
    }
}

/// What is shown of a user: the merged pull requests, and the tags in
/// order. Of more than six tags the first five and the last are shown, with
/// a remark between them.
pub open spec fn user_stats_text(username: Seq<char>, tags: Seq<Seq<char>>, pull_requests: nat) -> Seq<
    char,
> {
    let head = "\nStatistics for user: "@ + username
        + "\n---------------------------------\nMerged Pull Requests: "@ + digits_of(pull_requests)
        + "\n"@;
    if tags.len() == 0 {
        head + "\nNo tags found where this user is an author.\n"@
    } else if tags.len() <= 6 {
        tag_lines_onto(head + "\nAuthored in the following tags:\n"@, tags, 0, tags.len() as int)
    } else {
        tag_lines_onto(head + "\nAuthored in the following tags:\n"@, tags, 0, 5) + "  ... ("@
            + digits_of((tags.len() - 6) as nat) + " more tags)\n"@ + "  - "@ + tags.last() + "\n"@
    }
}

/// What is shown of the user `username`, the tags sorted.
pub fn print_user_stats(username: &str, stats: &UserStats) -> (text: String)
    ensures
        text@ == user_stats_text(
            username@,
            sorted_texts(stats.tags.order()),
            stats.pull_requests as nat,
        ),
{
    let mut names: Vec<Vec<char>> = Vec::new();
    let n = stats.tags.len();
    let mut i: usize = 0;
    while i < n
        invariant
            i <= n == stats.tags.order().len(),
            seqs(names@) == stats.tags.order().take(i as int),
        decreases n - i,
    {
        let c = chars_of(stats.tags.get(i).as_str());
        proof {
            assert(seqs(names@.push(c)) == seqs(names@).push(c@));
            assert(stats.tags.order().take(i + 1) == stats.tags.order().take(i as int).push(
                stats.tags.order()[i as int],
            ));
        }
        names.push(c);
        i += 1;
    }
    assert(stats.tags.order().take(n as int) == stats.tags.order());
    let tags = sort_texts(&names);
    proof {
        crate::text::lemma_sorted_texts(stats.tags.order());
        assert(seqs(tags@).len() == tags@.len());
    }
    let mut out: Vec<char> = Vec::new();
    push_str(&mut out, "\nStatistics for user: ");
    push_str(&mut out, username);
    push_str(&mut out, "\n---------------------------------\nMerged Pull Requests: ");
    push_decimal(&mut out, stats.pull_requests);
    push_str(&mut out, "\n");
    if tags.len() == 0 {
        push_str(&mut out, "\nNo tags found where this user is an author.\n");
        return string_of(&out);
    }
    push_str(&mut out, "\nAuthored in the following tags:\n");
    let ghost head = out@;
    let count = tags.len();
    let shown: usize = if count <= 6 {
        count
    } else {
        5
    };
    let mut k: usize = 0;
    while k < shown
        invariant
            k <= shown <= tags@.len(),
            out@ == tag_lines_onto(head, seqs(tags@), 0, k as int),
        decreases shown - k,
    {
        assert(seqs(tags@)[k as int] == tags@[k as int]@);
        push_str(&mut out, "  - ");
        push_all(&mut out, &tags[k]);
        push_str(&mut out, "\n");
        k += 1;
    }
    if count > 6 {
        push_str(&mut out, "  ... (");
        push_decimal(&mut out, count - 6);
        push_str(&mut out, " more tags)\n");
        push_str(&mut out, "  - ");
        assert(seqs(tags@).last() == tags@[count - 1]@);
        push_all(&mut out, &tags[count - 1]);
        push_str(&mut out, "\n");
    }
    string_of(&out)
}

} // verus!
