//! The files in scope: those tracked at HEAD that hold text.

use vstd::prelude::*;
use crate::names::NameSet;
use crate::text::{
    after_prefix, chars_of, lines, seqs, split_lines, starts_with, string_of, strs, trim, trim_vec,
};

verus! {

/// The paths that the lines `ls` of a listing name, in their order: each
/// line without the white space around it, empty lines left out.
pub open spec fn listed_paths(ls: Seq<Seq<char>>) -> Seq<Seq<char>>
    decreases ls.len(),
{
    if ls.len() == 0 {
        Seq::empty()
    } else {
        let rest = listed_paths(ls.drop_last());
        if trim(ls.last()).len() > 0 {
            rest.push(trim(ls.last()))
        } else {
            rest
        }
    }
}

/// The path that one line of a text probe names: the line without the white
/// space around it and without the revision `HEAD:` before the path.
pub open spec fn probed_path(line: Seq<char>) -> Seq<char> {
    let t = trim(line);
    if starts_with(t, "HEAD:"@) {
        t.skip("HEAD:"@.len() as int)
    } else {
        t
    }
}

/// The paths that the lines `ls` of a text probe name; empty lines name none.
pub open spec fn probed_paths(ls: Seq<Seq<char>>) -> Set<Seq<char>>
    decreases ls.len(),
{
    if ls.len() == 0 {
        Set::empty()
    } else {
        let rest = probed_paths(ls.drop_last());
        if trim(ls.last()).len() > 0 {
            rest.insert(probed_path(ls.last()))
        } else {
            rest
        }
    }
}

/// Those of `paths` that belong to `text`, in their order.
pub open spec fn keep_text(paths: Seq<Seq<char>>, text: Set<Seq<char>>) -> Seq<Seq<char>>
    decreases paths.len(),
{
    if paths.len() == 0 {
        Seq::empty()
    } else {
        let rest = keep_text(paths.drop_last(), text);
        if text.contains(paths.last()) {
            rest.push(paths.last())
        } else {
            rest
        }
    }
}

/// The paths that a text probe found; none where the probe failed.
pub open spec fn text_set(probe: Result<String, String>) -> Set<Seq<char>> {
    match probe {
        Ok(p) => probed_paths(lines(p@)),
        Err(_) => Set::empty(),
    }
}

/// The paths that the listing `listing` names.
pub fn read_listing(listing: &str) -> (paths: Vec<String>)
    ensures
        strs(paths@) == listed_paths(lines(listing@)),
{
    let text = chars_of(listing);
    let ls = split_lines(&text);
    let mut paths: Vec<String> = Vec::new();
    let mut i: usize = 0;
    while i < ls.len()
        invariant
            i <= ls.len(),
            strs(paths@) == listed_paths(seqs(ls@).take(i as int)),
        decreases ls.len() - i,
    {
        let t = trim_vec(&ls[i]);
        proof {
            assert(seqs(ls@).take(i + 1).drop_last() == seqs(ls@).take(i as int));
            assert(seqs(ls@).take(i + 1).last() == ls@[i as int]@);
        }
        if t.len() > 0 {
            let p = string_of(&t);
            proof {
                assert(strs(paths@.push(p)) == strs(paths@).push(p@));
            }
            paths.push(p);
        }
        i += 1;
    }
    assert(seqs(ls@).take(ls.len() as int) == seqs(ls@));
    paths
}

/// The paths that the text probe `probe` names.
pub fn read_probe(probe: &str) -> (text: NameSet)
    ensures
        text.wf(),
        text@ == probed_paths(lines(probe@)),
{
    let chars = chars_of(probe);
    let ls = split_lines(&chars);
    let mut text = NameSet::new();
    let mut i: usize = 0;
    while i < ls.len()
        invariant
            i <= ls.len(),
            text.wf(),
            text@ == probed_paths(seqs(ls@).take(i as int)),
        decreases ls.len() - i,
    {
        let t = trim_vec(&ls[i]);
        proof {
            assert(seqs(ls@).take(i + 1).drop_last() == seqs(ls@).take(i as int));
            assert(seqs(ls@).take(i + 1).last() == ls@[i as int]@);
        }
        if t.len() > 0 {
            let path = match after_prefix(&t, "HEAD:") {
                Some(rest) => rest,
                None => t,
            };
            text.insert(string_of(&path));
        }
        i += 1;
    }
    assert(seqs(ls@).take(ls.len() as int) == seqs(ls@));
    text
}

/// The files in scope: the tracked files, in the order of the listing, that
/// the text probe found to hold text. Without a listing there is no scope,
/// and the error of the listing is handed on; a probe that failed stands for
/// no text files at all.
pub fn tracked_text_files_head(
    listing: &Result<String, String>,
    probe: &Result<String, String>,
) -> (r: Result<Vec<String>, String>)
    ensures
        match *listing {
            Ok(l) => r is Ok && strs(r->Ok_0@) == keep_text(
                listed_paths(lines(l@)),
                text_set(*probe),
            ),
            Err(e) => r is Err && r->Err_0@ == e@,
        },
{
    let paths = match listing {
        Ok(l) => read_listing(l.as_str()),
        Err(e) => {
            return Err(e.clone());
        },
    };
    let text = match probe {
        Ok(p) => read_probe(p.as_str()),
        Err(_) => NameSet::new(),
    };
    let mut kept: Vec<String> = Vec::new();
    let mut i: usize = 0;
    while i < paths.len()
        invariant
            i <= paths.len(),
            text@ == text_set(*probe),
            strs(kept@) == keep_text(strs(paths@).take(i as int), text@),
        decreases paths.len() - i,
    {
        proof {
            assert(strs(paths@).take(i + 1).drop_last() == strs(paths@).take(i as int));
            assert(strs(paths@).take(i + 1).last() == paths@[i as int]@);
        }
        if text.contains(paths[i].as_str()) {
            let p = paths[i].clone();
            proof {
                assert(strs(kept@.push(p)) == strs(kept@).push(p@));
            }
            kept.push(p);
        }
        i += 1;
    }
    assert(strs(paths@).take(paths.len() as int) == strs(paths@));
    Ok(kept)
}

} // verus!
