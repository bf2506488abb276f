//! Which copies of a duplicated file are deleted.
//!
//! Albums hold the copies that were filed by hand; date folders hold what an
//! import left behind. A copy in a date folder goes only when a copy in an
//! album is known to exist.

use vstd::multiset::Multiset;
use vstd::prelude::*;
use crate::grouping::{
    all_members, fingerprints_ascend, group_duplicates, group_views, is_grouping_of,
    lemma_all_members_contains, sorted_by_fingerprint, DuplicateGroupView,
};
use crate::path::{is_date_like, parent_dir_is_date};
use crate::record::{path_views, record_views, FileRecord, FileRecordView};
use crate::seq_facts::{
    lemma_filter_agrees, lemma_filter_none, lemma_filter_of_map, lemma_filter_to_multiset,
    lemma_same_multiset_same_elements,
};

verus! {

/// Whether at least one of `paths` lies in an album.
pub open spec fn has_album_copy(paths: Seq<Seq<char>>) -> bool {
    exists|i: int| 0 <= i < paths.len() && !is_date_like(#[trigger] paths[i])
}

/// The paths of a group that the policy deletes: every copy in a date
/// folder, provided that the group has more than one member and at least one
/// of them lies in an album. Otherwise nothing.
pub open spec fn doomed_paths(paths: Seq<Seq<char>>) -> Seq<Seq<char>> {
    if has_album_copy(paths) && paths.len() > 1 {
        paths.filter(|path: Seq<char>| is_date_like(path))
    } else {
        Seq::empty()
    }
}

/// Decides which files of one group of duplicates are to be deleted, and
/// returns their paths in the order of the group.
pub fn delete_duplicates(paths: &[String]) -> (doomed: Vec<String>)
    ensures
        path_views(doomed@) == doomed_paths(path_views(paths@)),
{
    let ghost group = path_views(paths@);
    let mut in_album = false;
    let mut checked: usize = 0;
    while checked < paths.len() && !in_album
        invariant
            checked <= paths.len(),
            group == path_views(paths@),
            in_album ==> has_album_copy(group),
            !in_album ==> forall|i: int| 0 <= i < checked ==> is_date_like(#[trigger] group[i]),
        decreases paths.len() - checked,
    {
        in_album = !parent_dir_is_date(paths[checked].as_str());
        proof {
            assert(group[checked as int] == paths[checked as int]@);
        }
        checked = checked + 1;
    }
    let mut doomed: Vec<String> = Vec::new();
    if in_album && paths.len() > 1 {
        let mut next: usize = 0;
        while next < paths.len()
            invariant
                next <= paths.len(),
                group == path_views(paths@),
                path_views(doomed@) == group.take(next as int).filter(
                    |path: Seq<char>| is_date_like(path),
                ),
            decreases paths.len() - next,
        {
            proof {
                let seen = group.take(next as int);
                assert(group.take(next + 1) == seen.push(paths[next as int]@));
                seen.lemma_filter_push(paths[next as int]@, |path: Seq<char>| is_date_like(path));
            }
            if parent_dir_is_date(paths[next].as_str()) {
                let path = paths[next].clone();
                proof {
                    assert(path_views(doomed@.push(path)) == path_views(doomed@).push(path@));
                }
                doomed.push(path);
            }
            next = next + 1;
        }
        proof {
            assert(group.take(next as int) == group);
        }
    }
    doomed
}

/// A group of exactly one file loses nothing, wherever the file lies.
pub proof fn lemma_singleton_is_kept(paths: Seq<Seq<char>>)
    requires
        paths.len() == 1,
    ensures
        doomed_paths(paths) == Seq::<Seq<char>>::empty(),
{
}

/// A group whose files all lie in date folders loses nothing.
pub proof fn lemma_all_date_group_is_kept(paths: Seq<Seq<char>>)
    requires
        forall|i: int| 0 <= i < paths.len() ==> is_date_like(#[trigger] paths[i]),
    ensures
        doomed_paths(paths) == Seq::<Seq<char>>::empty(),
{
}

/// A copy in an album is never deleted.
pub proof fn lemma_album_copy_is_kept(paths: Seq<Seq<char>>, path: Seq<char>)
    requires
        !is_date_like(path),
    ensures
        !doomed_paths(paths).contains(path),
{
    let date = |path: Seq<char>| is_date_like(path);
    if doomed_paths(paths).contains(path) {
        let k = choose|k: int| 0 <= k < paths.filter(date).len() && paths.filter(date)[k] == path;
        paths.lemma_filter_pred(date, k);
    }
}

/// In a group that holds a copy in an album, every copy in a date folder is
/// deleted.
pub proof fn lemma_date_copies_are_deleted(paths: Seq<Seq<char>>, i: int)
    requires
        has_album_copy(paths),
        0 <= i < paths.len(),
        is_date_like(paths[i]),
    ensures
        doomed_paths(paths).contains(paths[i]),
{
    let date = |path: Seq<char>| is_date_like(path);
    let k = choose|k: int| 0 <= k < paths.len() && !is_date_like(#[trigger] paths[k]);
    assert(k != i);
    paths.lemma_filter_contains(date, i);
}

/// Whether `files` holds a copy of the content `fingerprint` that lies in an
/// album.
pub open spec fn has_album_copy_of(files: Seq<FileRecordView>, fingerprint: u64) -> bool {
    exists|i: int|
        0 <= i < files.len() && (#[trigger] files[i]).fingerprint == fingerprint && !is_date_like(
            files[i].path,
        )
}

/// Whether the policy deletes `file`, given all the files of its tree: it
/// lies in a date folder, and the tree holds a copy of its content in an
/// album.
pub open spec fn is_doomed(files: Seq<FileRecordView>, file: FileRecordView) -> bool {
    is_date_like(file.path) && has_album_copy_of(files, file.fingerprint)
}

/// The files of a tree that the policy deletes, each as often as the tree
/// holds it.
pub open spec fn doomed_files(files: Seq<FileRecordView>) -> Multiset<FileRecordView> {
    files.to_multiset().filter(|file: FileRecordView| is_doomed(files, file))
}

impl DuplicateGroupView {
    /// The members of the group that the policy deletes.
    pub open spec fn doomed_members(self) -> Seq<FileRecordView> {
        DuplicateGroupView { fingerprint: self.fingerprint, paths: doomed_paths(self.paths) }.members()
    }
}

/// What the policy deletes from `groups`, group after group.
pub open spec fn all_doomed(groups: Seq<DuplicateGroupView>) -> Seq<FileRecordView>
    decreases groups.len(),
{
    if groups.len() == 0 {
        Seq::empty()
    } else {
        all_doomed(groups.drop_last()) + groups.last().doomed_members()
    }
}

/// Among groups of distinct fingerprints, a group holds an album copy exactly
/// when the groups together hold an album copy of its content.
proof fn lemma_album_copy_is_in_group(groups: Seq<DuplicateGroupView>, g: int)
    requires
        fingerprints_ascend(groups),
        0 <= g < groups.len(),
    ensures
        has_album_copy(groups[g].paths) <==> has_album_copy_of(
            all_members(groups),
            groups[g].fingerprint,
        ),
{
    let group = groups[g];
    let everyone = all_members(groups);
    if has_album_copy(group.paths) {
        let k = choose|k: int| 0 <= k < group.paths.len() && !is_date_like(#[trigger] group.paths[k]);
        let file = group.members()[k];
        assert(group.members().contains(file));
        lemma_all_members_contains(groups, file);
        let i = choose|i: int| 0 <= i < everyone.len() && everyone[i] == file;
        assert(everyone[i].fingerprint == group.fingerprint && !is_date_like(everyone[i].path));
    }
    if has_album_copy_of(everyone, group.fingerprint) {
        let i = choose|i: int|
            0 <= i < everyone.len() && (#[trigger] everyone[i]).fingerprint == group.fingerprint
                && !is_date_like(everyone[i].path);
        let file = everyone[i];
        assert(everyone.contains(file));
        lemma_all_members_contains(groups, file);
        let h = choose|h: int| 0 <= h < groups.len() && (#[trigger] groups[h]).members().contains(file);
        let k = choose|k: int| 0 <= k < groups[h].members().len() && groups[h].members()[k] == file;
        assert(groups[h].fingerprint == group.fingerprint);
        assert(h == g);
        assert(!is_date_like(group.paths[k]));
    }
}

/// Among groups of distinct fingerprints, what the policy deletes from one
/// group are the members that are doomed in the tree as a whole.
proof fn lemma_group_doomed(groups: Seq<DuplicateGroupView>, g: int)
    requires
        fingerprints_ascend(groups),
        0 <= g < groups.len(),
    ensures
        groups[g].doomed_members() == groups[g].members().filter(
            |file: FileRecordView| is_doomed(all_members(groups), file),
        ),
{
    let group = groups[g];
    let everyone = all_members(groups);
    let doomed = |file: FileRecordView| is_doomed(everyone, file);
    let member = |path: Seq<char>| FileRecordView { path, fingerprint: group.fingerprint };
    let date = |path: Seq<char>| is_date_like(path);
    lemma_album_copy_is_in_group(groups, g);
    lemma_filter_of_map(group.paths, member, doomed);
    if has_album_copy(group.paths) {
        lemma_filter_agrees(group.paths, |path: Seq<char>| doomed(member(path)), date);
        if group.paths.len() <= 1 {
            lemma_filter_none(group.paths, date);
            assert(doomed_paths(group.paths).map_values(member) == Seq::<FileRecordView>::empty());
            assert(group.paths.filter(date).map_values(member) == Seq::<FileRecordView>::empty());
        }
    } else {
        lemma_filter_none(group.paths, |path: Seq<char>| doomed(member(path)));
    }
}

/// What the policy deletes group by group are the files that are doomed in
/// the tree as a whole.
proof fn lemma_all_doomed(groups: Seq<DuplicateGroupView>, upto: int)
    requires
        fingerprints_ascend(groups),
        0 <= upto <= groups.len(),
    ensures
        all_doomed(groups.take(upto)) == all_members(groups.take(upto)).filter(
            |file: FileRecordView| is_doomed(all_members(groups), file),
        ),
    decreases upto,
{
    let doomed = |file: FileRecordView| is_doomed(all_members(groups), file);
    if upto == 0 {
        lemma_filter_none(all_members(groups.take(upto)), doomed);
    } else {
        lemma_all_doomed(groups, upto - 1);
        lemma_group_doomed(groups, upto - 1);
        assert(groups.take(upto).drop_last() == groups.take(upto - 1));
        Seq::filter_distributes_over_add(
            all_members(groups.take(upto - 1)),
            groups[upto - 1].members(),
            doomed,
        );
    }
}

/// The files that the policy deletes from a grouping of a tree are the doomed
/// files of the tree.
pub proof fn lemma_grouping_dooms(groups: Seq<DuplicateGroupView>, files: Seq<FileRecordView>)
    requires
        is_grouping_of(groups, files),
    ensures
        all_doomed(groups).to_multiset() == doomed_files(files),
{
    broadcast use vstd::multiset::group_multiset_axioms;

    let everyone = all_members(groups);
    let doomed_here = |file: FileRecordView| is_doomed(everyone, file);
    let doomed_there = |file: FileRecordView| is_doomed(files, file);
    lemma_all_doomed(groups, groups.len() as int);
    assert(groups.take(groups.len() as int) == groups);
    lemma_filter_to_multiset(everyone, doomed_here);
    assert forall|file: FileRecordView| #[trigger]
        is_doomed(everyone, file) == is_doomed(files, file) by {
        if has_album_copy_of(everyone, file.fingerprint) {
            let i = choose|i: int|
                0 <= i < everyone.len() && (#[trigger] everyone[i]).fingerprint
                    == file.fingerprint && !is_date_like(everyone[i].path);
            assert(everyone.contains(everyone[i]));
            lemma_same_multiset_same_elements(everyone, files, everyone[i]);
            let j = choose|j: int| 0 <= j < files.len() && files[j] == everyone[i];
            assert(files[j].fingerprint == file.fingerprint && !is_date_like(files[j].path));
        }
        if has_album_copy_of(files, file.fingerprint) {
            let i = choose|i: int|
                0 <= i < files.len() && (#[trigger] files[i]).fingerprint == file.fingerprint
                    && !is_date_like(files[i].path);
            assert(files.contains(files[i]));
            lemma_same_multiset_same_elements(everyone, files, files[i]);
            let j = choose|j: int| 0 <= j < everyone.len() && everyone[j] == files[i];
            assert(everyone[j].fingerprint == file.fingerprint && !is_date_like(
                everyone[j].path,
            ));
        }
    }
    assert(everyone.to_multiset().filter(doomed_here) =~= files.to_multiset().filter(
        doomed_there,
    ));
}

/// A file whose content no other file of the tree has is never deleted.
pub proof fn lemma_unique_content_is_kept(files: Seq<FileRecordView>, i: int)
    requires
        0 <= i < files.len(),
        forall|j: int|
            0 <= j < files.len() && j != i ==> (#[trigger] files[j]).fingerprint
                != files[i].fingerprint,
    ensures
        !is_doomed(files, files[i]),
{
}

/// Decides which files of a tree are to be deleted: every file in a date
/// folder whose content the tree also holds in an album. The files come out
/// group by group, in ascending order of fingerprint.
pub fn find_and_delete_duplicates(files: Vec<FileRecord>) -> (doomed: Vec<FileRecord>)
    ensures
        record_views(doomed@).to_multiset() == doomed_files(record_views(files@)),
        sorted_by_fingerprint(record_views(doomed@)),
{
    let ghost tree = record_views(files@);
    let groups = group_duplicates(files);
    let mut doomed: Vec<FileRecord> = Vec::new();
    let mut g: usize = 0;
    while g < groups.len()
        invariant
            g <= groups.len(),
            record_views(doomed@) == all_doomed(group_views(groups@).take(g as int)),
            fingerprints_ascend(group_views(groups@)),
            sorted_by_fingerprint(record_views(doomed@)),
            forall|k: int|
                0 <= k < doomed.len() && g < groups.len() ==> (#[trigger] record_views(
                    doomed@,
                )[k]).fingerprint < groups[g as int].fingerprint,
        decreases groups.len() - g,
    {
        let group = &groups[g];
        proof {
            assert(group_views(groups@)[g as int].fingerprint == group.fingerprint);
            if g + 1 < groups.len() {
                assert(group_views(groups@)[g + 1].fingerprint == groups[g + 1].fingerprint);
            }
        }
        let paths = delete_duplicates(group.paths.as_slice());
        let ghost before = record_views(doomed@);
        let ghost member = |path: Seq<char>| {
            FileRecordView { path, fingerprint: group.fingerprint }
        };
        let mut k: usize = 0;
        while k < paths.len()
            invariant
                k <= paths.len(),
                member == |path: Seq<char>| {
                    FileRecordView { path, fingerprint: group.fingerprint }
                },
                record_views(doomed@) == before + path_views(paths@).take(k as int).map_values(
                    member,
                ),
                sorted_by_fingerprint(record_views(doomed@)),
                forall|k: int|
                    0 <= k < doomed.len() ==> (#[trigger] record_views(doomed@)[k]).fingerprint
                        <= group.fingerprint,
            decreases paths.len() - k,
        {
            let file = FileRecord::new(paths[k].clone(), group.fingerprint);
            proof {
                assert(record_views(doomed@.push(file))[doomed.len() as int] == file@);
                assert(record_views(doomed@.push(file)) == record_views(doomed@).push(file@));
                assert(path_views(paths@).take(k + 1).map_values(member) == path_views(
                    paths@,
                ).take(k as int).map_values(member).push(file@));
            }
            doomed.push(file);
            k = k + 1;
        }
        proof {
            let done = group_views(groups@).take(g + 1);
            assert(done.drop_last() == group_views(groups@).take(g as int));
            assert(done.last() == group@);
            assert(path_views(paths@).take(k as int) == path_views(paths@));
        }
        g = g + 1;
    }
    proof {
        assert(group_views(groups@).take(g as int) == group_views(groups@));
        lemma_grouping_dooms(group_views(groups@), tree);
    }
    doomed
}

} // verus!
