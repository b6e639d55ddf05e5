//! Assembly of the Rust module that holds the generated message types.

pub mod error;
pub mod genmsg;

use vstd::prelude::*;
use crate::text::{pieces, push_line, split, views};

verus! {

/// The folder `share` below `path`.
pub open spec fn share_folder(path: Seq<char>) -> Seq<char> {
    if path.len() == 0 {
        "share"@
    } else if path.last() == '/' {
        path + "share"@
    } else {
        path + "/share"@
    }
}

/// The folder `share` below `path`, where message definitions are installed.
pub fn append_share_folder(path: &str) -> (r: Option<String>)
    ensures
        r matches Some(s) && s@ == share_folder(path@),
{
    let n: usize = path.unicode_len();
    if n == 0 {
        Some(String::from_str("share"))
    } else if path.get_char(n - 1) == '/' {
        Some(String::from_str(path).concat("share"))
    } else {
        Some(String::from_str(path).concat("/share"))
    }
}

/// The share folder of each of the first `n` entries of a list.
pub open spec fn share_folders(prefixes: Seq<Seq<char>>, n: int) -> Seq<Seq<char>>
    decreases n,
{
    if n <= 0 {
        Seq::empty()
    } else {
        share_folders(prefixes, n - 1).push(share_folder(prefixes[n - 1]))
    }
}

/// The folders in which message definitions are looked for: the share
/// folder of every installation prefix, then every extra folder.
pub open spec fn search_folders(prefixes: Seq<char>, extra: Seq<char>) -> Seq<Seq<char>> {
    share_folders(pieces(prefixes, ':'), pieces(prefixes, ':').len() as int) + pieces(extra, ':')
}

/// The folders in which message definitions are looked for. `prefixes` lists
/// the installation prefixes and `extra` further folders, both with colons
/// between the entries.
pub fn search_paths(prefixes: &str, extra: &str) -> (r: Vec<String>)
    ensures
        views(r@) == search_folders(prefixes@, extra@),
{
    let roots = split(prefixes, ':');
    let more = split(extra, ':');
    let mut out: Vec<String> = Vec::new();
    let mut i: usize = 0;
    assert(views(out@) =~= share_folders(views(roots@), 0));
    while i < roots.len()
        invariant
            i <= roots.len(),
            views(out@) == share_folders(views(roots@), i as int),
        decreases roots.len() - i,
    {
        assert(views(roots@)[i as int] == roots[i as int]@);
        match append_share_folder(roots[i].as_str()) {
            Some(folder) => {
                push_line(&mut out, folder);
            },
            None => {},
        }
        i += 1;
    }
    let ghost shares = views(out@);
    let mut k: usize = 0;
    assert(views(more@).take(0) =~= Seq::empty());
    assert(shares + views(more@).take(0) =~= shares);
    while k < more.len()
        invariant
            k <= more.len(),
            views(out@) == shares + views(more@).take(k as int),
        decreases more.len() - k,
    {
        push_line(&mut out, more[k].clone());
        assert(views(out@) =~= shares + views(more@).take(k + 1));
        k += 1;
    }
    assert(views(more@).take(more@.len() as int) =~= views(more@));
    out
}

} // verus!
