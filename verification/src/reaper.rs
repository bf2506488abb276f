//! Finding the directories that a run has left empty.

use vstd::prelude::*;
use crate::record::path_views;

verus! {

/// The mathematical value of a [`TreeEntry`].
pub struct TreeEntryView {
    pub path: Seq<char>,
    pub is_dir: bool,
    pub entry_count: Option<usize>,
}

/// What a walk of a tree found at one path.
#[derive(Debug)]
pub struct TreeEntry {
    pub path: String,
    /// Whether the path is a directory.
    pub is_dir: bool,
    /// For a directory, the number of entries in it, or `None` where the
    /// directory could not be listed.
    pub entry_count: Option<usize>,
}

impl View for TreeEntry {
    type V = TreeEntryView;

    open spec fn view(&self) -> TreeEntryView {
        TreeEntryView { path: self.path@, is_dir: self.is_dir, entry_count: self.entry_count }
    }
}

/// The values of a sequence of entries, in the same order.
pub open spec fn entry_views(entries: Seq<TreeEntry>) -> Seq<TreeEntryView> {
    entries.map_values(|entry: TreeEntry| entry@)
}

/// Whether an entry is a directory with no entry in it. A directory that
/// could not be listed counts as having none.
pub open spec fn is_empty_dir_entry(entry: TreeEntryView) -> bool {
    entry.is_dir && match entry.entry_count {
        Some(count) => count == 0,
        None => true,
    }
}

/// The paths of the empty directories among `entries`, in the order of
/// `entries`.
pub open spec fn empty_dirs(entries: Seq<TreeEntryView>) -> Seq<Seq<char>> {
    entries.filter(|entry: TreeEntryView| is_empty_dir_entry(entry)).map_values(
        |entry: TreeEntryView| entry.path,
    )
}

/// Tells whether an entry is a directory with no entry in it.
pub fn is_empty_dir(entry: &TreeEntry) -> (empty: bool)
    ensures
        empty == is_empty_dir_entry(entry@),
{
    entry.is_dir && match entry.entry_count {
        Some(count) => count == 0,
        None => true,
    }
}

/// Picks the directories to remove: every entry that is a directory with no
/// entry in it, and no other. The walk is taken as it is: a directory that
/// will be empty only once another one is removed is not among them.
pub fn find_empty_dirs(entries: &[TreeEntry]) -> (empty: Vec<String>)
    ensures
        path_views(empty@) == empty_dirs(entry_views(entries@)),
{
    let ghost walk = entry_views(entries@);
    let ghost keep = |entry: TreeEntryView| is_empty_dir_entry(entry);
    let ghost path_of = |entry: TreeEntryView| entry.path;
    let mut empty: Vec<String> = Vec::new();
    let mut next: usize = 0;
    while next < entries.len()
        invariant
            next <= entries.len(),
            walk == entry_views(entries@),
            keep == |entry: TreeEntryView| is_empty_dir_entry(entry),
            path_of == |entry: TreeEntryView| entry.path,
            path_views(empty@) == walk.take(next as int).filter(keep).map_values(path_of),
        decreases entries.len() - next,
    {
        proof {
            let seen = walk.take(next as int);
            assert(walk.take(next + 1) == seen.push(entries[next as int]@));
            seen.lemma_filter_push(entries[next as int]@, keep);
            assert(seen.filter(keep).push(entries[next as int]@).map_values(path_of)
                == seen.filter(keep).map_values(path_of).push(entries[next as int].path@));
        }
        if is_empty_dir(&entries[next]) {
            let path = entries[next].path.clone();
            proof {
                assert(path_views(empty@.push(path)) == path_views(empty@).push(path@));
            }
            empty.push(path);
        }
        next = next + 1;
    }
    proof {
        assert(walk.take(next as int) == walk);
    }
    empty
}

/// Whether the walk found an empty directory at `path`.
pub open spec fn has_empty_dir_at(entries: Seq<TreeEntryView>, path: Seq<char>) -> bool {
    exists|i: int|
        0 <= i < entries.len() && is_empty_dir_entry(#[trigger] entries[i]) && entries[i].path
            == path
}

/// A path is picked for removal exactly when the walk found an empty
/// directory there: a directory with no entry goes, and one that still has an
/// entry stays.
pub proof fn lemma_exactly_the_empty_dirs_are_reaped(entries: Seq<TreeEntryView>, path: Seq<char>)
    ensures
        empty_dirs(entries).contains(path) <==> has_empty_dir_at(entries, path),
{
    let keep = |entry: TreeEntryView| is_empty_dir_entry(entry);
    let kept = entries.filter(keep);
    let picked = empty_dirs(entries);
    if has_empty_dir_at(entries, path) {
        let i = choose|i: int|
            0 <= i < entries.len() && is_empty_dir_entry(#[trigger] entries[i]) && entries[i].path
                == path;
        entries.lemma_filter_contains(keep, i);
        let k = choose|k: int| 0 <= k < kept.len() && kept[k] == entries[i];
        assert(picked[k] == path);
    }
    if picked.contains(path) {
        let k = choose|k: int| 0 <= k < picked.len() && picked[k] == path;
        entries.lemma_filter_pred(keep, k);
        assert(kept.contains(kept[k]));
        entries.lemma_filter_contains_rev(keep, kept[k]);
        let i = choose|i: int| 0 <= i < entries.len() && entries[i] == kept[k];
        assert(is_empty_dir_entry(entries[i]) && entries[i].path == path);
    }
}

} // verus!
