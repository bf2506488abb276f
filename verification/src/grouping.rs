//! Partitioning the files of one tree into groups of equal content.

use vstd::prelude::*;
use crate::record::{path_views, record_views, FileRecord, FileRecordView};
use crate::seq_facts::lemma_same_multiset_same_elements;

verus! {

/// The mathematical value of a [`DuplicateGroup`].
pub struct DuplicateGroupView {
    pub fingerprint: u64,
    pub paths: Seq<Seq<char>>,
}

impl DuplicateGroupView {
    /// The files of the group, each path paired with the group's fingerprint.
    pub open spec fn members(self) -> Seq<FileRecordView> {
        self.paths.map_values(
            |path: Seq<char>| FileRecordView { path, fingerprint: self.fingerprint },
        )
    }
}

/// The files of a tree that share one fingerprint: a set of candidate
/// duplicates. A group made by [`group_duplicates`] is never empty.
#[derive(Debug)]
pub struct DuplicateGroup {
    pub fingerprint: u64,
    pub paths: Vec<String>,
}

impl View for DuplicateGroup {
    type V = DuplicateGroupView;

    open spec fn view(&self) -> DuplicateGroupView {
        DuplicateGroupView { fingerprint: self.fingerprint, paths: path_views(self.paths@) }
    }
}

/// The values of a sequence of groups, in the same order.
pub open spec fn group_views(groups: Seq<DuplicateGroup>) -> Seq<DuplicateGroupView> {
    groups.map_values(|group: DuplicateGroup| group@)
}

/// The files of all `groups`, group after group.
pub open spec fn all_members(groups: Seq<DuplicateGroupView>) -> Seq<FileRecordView>
    decreases groups.len(),
{
    if groups.len() == 0 {
        Seq::empty()
    } else {
        all_members(groups.drop_last()) + groups.last().members()
    }
}

/// Whether `files` is in ascending order of fingerprint.
pub open spec fn sorted_by_fingerprint(files: Seq<FileRecordView>) -> bool {
    forall|i: int, j: int|
        0 <= i <= j < files.len() ==> files[i].fingerprint <= files[j].fingerprint
}

/// Whether the fingerprints of `groups` strictly ascend, so that no two
/// groups share one.
pub open spec fn fingerprints_ascend(groups: Seq<DuplicateGroupView>) -> bool {
    forall|i: int, j: int|
        0 <= i < j < groups.len() ==> groups[i].fingerprint < groups[j].fingerprint
}

/// Whether `groups` partitions `files` by fingerprint: no group is empty, no
/// two groups share a fingerprint, and the groups together hold each file as
/// often as `files` does.
pub open spec fn is_grouping_of(
    groups: Seq<DuplicateGroupView>,
    files: Seq<FileRecordView>,
) -> bool {
    &&& forall|i: int| 0 <= i < groups.len() ==> (#[trigger] groups[i]).paths.len() > 0
    &&& fingerprints_ascend(groups)
    &&& all_members(groups).to_multiset() == files.to_multiset()
}

/// A file is among the files of all groups exactly when it is a member of
/// one of them.
pub proof fn lemma_all_members_contains(groups: Seq<DuplicateGroupView>, file: FileRecordView)
    ensures
        all_members(groups).contains(file) <==> exists|g: int|
            0 <= g < groups.len() && (#[trigger] groups[g]).members().contains(file),
    decreases groups.len(),
{
    if groups.len() > 0 {
        let front = groups.drop_last();
        let last = groups.last();
        lemma_all_members_contains(front, file);
        let joined = all_members(front) + last.members();
        if all_members(front).contains(file) {
            let i = choose|i: int| 0 <= i < all_members(front).len() && all_members(front)[i] == file;
            assert(joined[i] == file);
            let g = choose|g: int| 0 <= g < front.len() && (#[trigger] front[g]).members().contains(file);
            assert(groups[g].members().contains(file));
        }
        if last.members().contains(file) {
            let k = choose|k: int| 0 <= k < last.members().len() && last.members()[k] == file;
            assert(joined[all_members(front).len() + k] == file);
            assert(groups[groups.len() - 1].members().contains(file));
        }
        if joined.contains(file) {
            let i = choose|i: int| 0 <= i < joined.len() && joined[i] == file;
            if i < all_members(front).len() {
                assert(all_members(front)[i] == file);
            } else {
                assert(last.members()[i - all_members(front).len()] == file);
            }
        }
        if exists|g: int| 0 <= g < groups.len() && (#[trigger] groups[g]).members().contains(file) {
            let g = choose|g: int| 0 <= g < groups.len() && (#[trigger] groups[g]).members().contains(file);
            if g < front.len() {
                assert(front[g].members().contains(file));
            }
        }
    }
}

/// Sorts `files` by fingerprint with `sort_unstable_by_key` of the standard
/// library. Believed of it: afterwards the fingerprints ascend, and the
/// vector holds the same records as before, each as often as before. Which
/// of two records with one fingerprint comes first is left open.
#[verifier::external_body]
fn sort_by_fingerprint(files: &mut Vec<FileRecord>)
    ensures
        sorted_by_fingerprint(record_views(final(files)@)),
        record_views(final(files)@).to_multiset() == record_views(old(files)@).to_multiset(),
{
    files.sort_unstable_by_key(|file| file.fingerprint);
}

/// Partitions the files of a tree into groups of equal fingerprint, in
/// ascending order of fingerprint.
pub fn group_duplicates(files: Vec<FileRecord>) -> (groups: Vec<DuplicateGroup>)
    ensures
        is_grouping_of(group_views(groups@), record_views(files@)),
{
    let mut sorted = files;
    sort_by_fingerprint(&mut sorted);
    let mut groups: Vec<DuplicateGroup> = Vec::new();
    let mut next: usize = 0;
    while next < sorted.len()
        invariant
            next <= sorted.len(),
            sorted_by_fingerprint(record_views(sorted@)),
            all_members(group_views(groups@)) == record_views(sorted@).take(next as int),
            forall|i: int| 0 <= i < groups.len() ==> (#[trigger] groups[i]).paths.len() > 0,
            fingerprints_ascend(group_views(groups@)),
            groups.len() > 0 ==> next > 0 && groups[groups.len() - 1].fingerprint
                == sorted[next - 1].fingerprint,
            groups.len() > 0 && next < sorted.len() ==> sorted[next - 1].fingerprint
                != sorted[next as int].fingerprint,
        decreases sorted.len() - next,
    {
        let start = next;
        let fingerprint = sorted[start].fingerprint;
        let mut paths: Vec<String> = Vec::new();
        while next < sorted.len() && sorted[next].fingerprint == fingerprint
            invariant
                start <= next <= sorted.len(),
                start < sorted.len(),
                fingerprint == sorted[start as int].fingerprint,
                paths.len() == next - start,
                forall|k: int|
                    0 <= k < paths.len() ==> paths[k]@ == (#[trigger] sorted[start + k]).path@
                        && sorted[start + k].fingerprint == fingerprint,
            decreases sorted.len() - next,
        {
            paths.push(sorted[next].path.clone());
            next = next + 1;
        }
        let group = DuplicateGroup { fingerprint, paths };
        proof {
            let before = group_views(groups@);
            let after = group_views(groups@.push(group));
            assert(after == before.push(group@));
            assert(after.drop_last() == before);
            assert(next > start);
            let run = record_views(sorted@).subrange(start as int, next as int);
            assert(group@.members().len() == run.len());
            assert forall|k: int| 0 <= k < run.len() implies group@.members()[k] == run[k] by {
                assert(paths[k]@ == sorted[start + k].path@);
            }
            assert(group@.members() == run);
            assert(sorted[start + (next - 1 - start)].fingerprint == fingerprint);
            assert(record_views(sorted@).take(next as int) == record_views(sorted@).take(
                start as int,
            ) + record_views(sorted@).subrange(start as int, next as int));
            assert(record_views(sorted@)[start as int] == sorted[start as int]@);
            assert(record_views(sorted@)[next - 1] == sorted[next - 1]@);
            if next < sorted.len() {
                assert(record_views(sorted@)[next as int] == sorted[next as int]@);
            }
            if start > 0 {
                assert(record_views(sorted@)[start - 1] == sorted[start - 1]@);
            }
        }
        groups.push(group);
    }
    proof {
        assert(record_views(sorted@).take(next as int) == record_views(sorted@));
    }
    groups
}

/// A grouping is complete: every file of the tree is a member of exactly one
/// group, every member of a group is a file of the tree, and two files are
/// members of the same group exactly when their fingerprints are equal.
pub proof fn lemma_grouping_is_complete(
    groups: Seq<DuplicateGroupView>,
    files: Seq<FileRecordView>,
    first: FileRecordView,
    second: FileRecordView,
)
    requires
        is_grouping_of(groups, files),
        files.contains(first),
        files.contains(second),
    ensures
        exists|g: int| 0 <= g < groups.len() && (#[trigger] groups[g]).members().contains(first),
        forall|g: int, h: int|
            0 <= g < groups.len() && 0 <= h < groups.len() && (#[trigger] groups[g]).members().contains(
                first,
            ) && (#[trigger] groups[h]).members().contains(first) ==> g == h,
        forall|g: int, h: int|
            0 <= g < groups.len() && 0 <= h < groups.len() && (#[trigger] groups[g]).members().contains(
                first,
            ) && (#[trigger] groups[h]).members().contains(second) ==> (g == h
                <==> first.fingerprint == second.fingerprint),
        forall|g: int, file: FileRecordView|
            0 <= g < groups.len() && #[trigger] groups[g].members().contains(file)
                ==> files.contains(file),
{
    lemma_same_multiset_same_elements(all_members(groups), files, first);
    lemma_all_members_contains(groups, first);
    assert forall|g: int, file: FileRecordView|
        0 <= g < groups.len() && #[trigger] groups[g].members().contains(file) implies (
    file.fingerprint == groups[g].fingerprint && files.contains(file)) by {
        let k = choose|k: int| 0 <= k < groups[g].members().len() && groups[g].members()[k] == file;
        assert(groups[g].members()[k].fingerprint == groups[g].fingerprint);
        lemma_all_members_contains(groups, file);
        lemma_same_multiset_same_elements(all_members(groups), files, file);
    }
}

} // verus!
