//! Comparing two trees by the content they hold.

use vstd::prelude::*;
use crate::grouping::{
    all_members, group_duplicates, group_views, is_grouping_of, lemma_all_members_contains,
};
use crate::record::{record_views, FileRecord, FileRecordView};
use crate::seq_facts::{lemma_filter_none, lemma_same_multiset_same_elements};

verus! {

/// Whether one of `files` has the content `fingerprint`.
pub open spec fn has_fingerprint(files: Seq<FileRecordView>, fingerprint: u64) -> bool {
    exists|i: int| 0 <= i < files.len() && (#[trigger] files[i]).fingerprint == fingerprint
}

/// Whether the fingerprints of `files` strictly ascend, so that no content
/// occurs twice.
pub open spec fn strictly_ascending(files: Seq<FileRecordView>) -> bool {
    forall|i: int, j: int|
        0 <= i < j < files.len() ==> files[i].fingerprint < files[j].fingerprint
}

/// Whether `set` stands for the content of `files`: it holds one file of
/// `files` for each fingerprint found there, in ascending order of
/// fingerprint.
pub open spec fn is_fingerprint_set_of(
    set: Seq<FileRecordView>,
    files: Seq<FileRecordView>,
) -> bool {
    &&& strictly_ascending(set)
    &&& forall|i: int| 0 <= i < set.len() ==> files.contains(#[trigger] set[i])
    &&& forall|j: int|
        0 <= j < files.len() ==> has_fingerprint(set, (#[trigger] files[j]).fingerprint)
}

/// Whether `file` belongs to the symmetric difference of `left` and `right`:
/// it is a file of one side whose content the other side lacks.
pub open spec fn is_unmatched(
    left: Seq<FileRecordView>,
    right: Seq<FileRecordView>,
    file: FileRecordView,
) -> bool {
    ||| left.contains(file) && !has_fingerprint(right, file.fingerprint)
    ||| right.contains(file) && !has_fingerprint(left, file.fingerprint)
}

/// Whether `unmatched` is the symmetric difference of two fingerprint sets:
/// the files of either that the other has no match for, in ascending order of
/// fingerprint.
pub open spec fn is_symmetric_difference(
    unmatched: Seq<FileRecordView>,
    left: Seq<FileRecordView>,
    right: Seq<FileRecordView>,
) -> bool {
    &&& strictly_ascending(unmatched)
    &&& forall|file: FileRecordView|
        #![trigger unmatched.contains(file)]
        #![trigger is_unmatched(left, right, file)]
        unmatched.contains(file) <==> is_unmatched(left, right, file)
}

/// The content of one tree: one file for each fingerprint, in ascending order
/// of fingerprint.
pub struct FingerprintSet {
    records: Vec<FileRecord>,
}

impl View for FingerprintSet {
    type V = Seq<FileRecordView>;

    closed spec fn view(&self) -> Seq<FileRecordView> {
        record_views(self.records@)
    }
}

impl FingerprintSet {
    #[verifier::type_invariant]
    spec fn well_formed(self) -> bool {
        strictly_ascending(record_views(self.records@))
    }

    /// Builds the set of a tree from its files. Of several files with one
    /// fingerprint the set keeps one.
    pub fn from_records(files: Vec<FileRecord>) -> (set: FingerprintSet)
        ensures
            is_fingerprint_set_of(set@, record_views(files@)),
    {
        let ghost tree = record_views(files@);
        let groups = group_duplicates(files);
        let mut records: Vec<FileRecord> = Vec::new();
        let mut g: usize = 0;
        while g < groups.len()
            invariant
                g <= groups.len(),
                records.len() == g,
                is_grouping_of(group_views(groups@), tree),
                forall|i: int|
                    0 <= i < g ==> (#[trigger] records[i])@ == group_views(groups@)[i].members()[0],
            decreases groups.len() - g,
        {
            let group = &groups[g];
            proof {
                assert(group_views(groups@)[g as int].paths.len() == group.paths.len());
            }
            records.push(FileRecord::new(group.paths[0].clone(), group.fingerprint));
            g = g + 1;
        }
        proof {
            let set = record_views(records@);
            let parts = group_views(groups@);
            assert forall|i: int, j: int| 0 <= i < j < set.len() implies set[i].fingerprint
                < set[j].fingerprint by {
                assert(records[i]@ == parts[i].members()[0]);
                assert(records[j]@ == parts[j].members()[0]);
            }
            assert forall|i: int| 0 <= i < set.len() implies tree.contains(#[trigger] set[i]) by {
                assert(records[i]@ == parts[i].members()[0]);
                assert(parts[i].members().contains(set[i]));
                lemma_all_members_contains(parts, set[i]);
                lemma_same_multiset_same_elements(all_members(parts), tree, set[i]);
            }
            assert forall|j: int| 0 <= j < tree.len() implies has_fingerprint(
                set,
                (#[trigger] tree[j]).fingerprint,
            ) by {
                assert(tree.contains(tree[j]));
                lemma_same_multiset_same_elements(all_members(parts), tree, tree[j]);
                lemma_all_members_contains(parts, tree[j]);
                let h = choose|h: int|
                    0 <= h < parts.len() && (#[trigger] parts[h]).members().contains(tree[j]);
                assert(records[h]@ == parts[h].members()[0]);
                assert(set[h].fingerprint == tree[j].fingerprint);
            }
        }
        FingerprintSet { records }
    }

    /// The number of distinct contents in the set.
    pub fn len(&self) -> (count: usize)
        ensures
            count == self@.len(),
    {
        self.records.len()
    }

    /// The files of the set, in ascending order of fingerprint.
    pub fn records(&self) -> (records: &[FileRecord])
        ensures
            record_views(records@) == self@,
            strictly_ascending(self@),
    {
        proof {
            use_type_invariant(self);
        }
        self.records.as_slice()
    }

    /// The files of either set whose content the other lacks, in ascending
    /// order of fingerprint. Neither set is changed.
    pub fn symmetric_difference(&self, other: &FingerprintSet) -> (unmatched: Vec<FileRecord>)
        ensures
            is_symmetric_difference(record_views(unmatched@), self@, other@),
    {
        proof {
            use_type_invariant(self);
            use_type_invariant(other);
        }
        let ghost left = record_views(self.records@);
        let ghost right = record_views(other.records@);
        let mut unmatched: Vec<FileRecord> = Vec::new();
        let mut i: usize = 0;
        let mut j: usize = 0;
        while i < self.records.len() || j < other.records.len()
            invariant
                i <= self.records.len(),
                j <= other.records.len(),
                left == record_views(self.records@),
                right == record_views(other.records@),
                strictly_ascending(left),
                strictly_ascending(right),
                strictly_ascending(record_views(unmatched@)),
                i > 0 && j < right.len() ==> left[i - 1].fingerprint < right[j as int].fingerprint,
                j > 0 && i < left.len() ==> right[j - 1].fingerprint < left[i as int].fingerprint,
                forall|k: int|
                    0 <= k < unmatched.len() ==> is_unmatched(
                        left,
                        right,
                        #[trigger] record_views(unmatched@)[k],
                    ),
                forall|k: int|
                    0 <= k < unmatched.len() && i < left.len() ==> (#[trigger] record_views(
                        unmatched@,
                    )[k]).fingerprint < left[i as int].fingerprint,
                forall|k: int|
                    0 <= k < unmatched.len() && j < right.len() ==> (#[trigger] record_views(
                        unmatched@,
                    )[k]).fingerprint < right[j as int].fingerprint,
                forall|k: int|
                    0 <= k < i && !has_fingerprint(right, (#[trigger] left[k]).fingerprint)
                        ==> record_views(unmatched@).contains(left[k]),
                forall|k: int|
                    0 <= k < j && !has_fingerprint(left, (#[trigger] right[k]).fingerprint)
                        ==> record_views(unmatched@).contains(right[k]),
            decreases self.records.len() - i + other.records.len() - j,
        {
            let ghost before = record_views(unmatched@);
            let take_left = i < self.records.len() && (j >= other.records.len()
                || self.records[i].fingerprint < other.records[j].fingerprint);
            let take_right = j < other.records.len() && (i >= self.records.len()
                || other.records[j].fingerprint < self.records[i].fingerprint);
            proof {
                if i < left.len() {
                    assert(left[i as int] == self.records[i as int]@);
                }
                if j < right.len() {
                    assert(right[j as int] == other.records[j as int]@);
                }
            }
            if take_left {
                let file = self.records[i].clone();
                proof {
                    assert(record_views(unmatched@.push(file)) == before.push(file@));
                    assert(left.contains(file@));
                    assert forall|k: int| 0 <= k < right.len() implies (#[trigger] right[k]).fingerprint
                        != file.fingerprint by {
                        if k < j {
                            if k < j - 1 {
                                assert(right[k].fingerprint < right[j - 1].fingerprint);
                            }
                        } else if k > j {
                            assert(right[j as int].fingerprint < right[k].fingerprint);
                        }
                    }
                    lemma_push_keeps(before, file@);
                    if i + 1 < left.len() {
                        assert(left[i as int].fingerprint < left[i + 1].fingerprint);
                    }
                }
                unmatched.push(file);
                i = i + 1;
            } else if take_right {
                let file = other.records[j].clone();
                proof {
                    assert(record_views(unmatched@.push(file)) == before.push(file@));
                    assert(right.contains(file@));
                    assert forall|k: int| 0 <= k < left.len() implies (#[trigger] left[k]).fingerprint
                        != file.fingerprint by {
                        if k < i {
                            if k < i - 1 {
                                assert(left[k].fingerprint < left[i - 1].fingerprint);
                            }
                        } else if k > i {
                            assert(left[i as int].fingerprint < left[k].fingerprint);
                        }
                    }
                    lemma_push_keeps(before, file@);
                    if j + 1 < right.len() {
                        assert(right[j as int].fingerprint < right[j + 1].fingerprint);
                    }
                }
                unmatched.push(file);
                j = j + 1;
            } else {
                proof {
                    assert(left[i as int].fingerprint == right[j as int].fingerprint);
                    if i + 1 < left.len() {
                        assert(left[i as int].fingerprint < left[i + 1].fingerprint);
                    }
                    if j + 1 < right.len() {
                        assert(right[j as int].fingerprint < right[j + 1].fingerprint);
                    }
                }
                i = i + 1;
                j = j + 1;
            }
        }
        proof {
            let found = record_views(unmatched@);
            assert forall|file: FileRecordView| found.contains(file) <==> is_unmatched(
                left,
                right,
                file,
            ) by {
                if found.contains(file) {
                    let k = choose|k: int| 0 <= k < found.len() && found[k] == file;
                    assert(is_unmatched(left, right, found[k]));
                }
                if left.contains(file) && !has_fingerprint(right, file.fingerprint) {
                    let k = choose|k: int| 0 <= k < left.len() && left[k] == file;
                    assert(found.contains(left[k]));
                }
                if right.contains(file) && !has_fingerprint(left, file.fingerprint) {
                    let k = choose|k: int| 0 <= k < right.len() && right[k] == file;
                    assert(found.contains(right[k]));
                }
            }
        }
        unmatched
    }
}

/// A file added at the end of a sequence leaves every earlier file in it.
proof fn lemma_push_keeps(before: Seq<FileRecordView>, file: FileRecordView)
    ensures
        before.push(file).contains(file),
        forall|other: FileRecordView|
            before.contains(other) ==> #[trigger] before.push(file).contains(other),
{
    assert(before.push(file)[before.len() as int] == file);
    assert forall|other: FileRecordView| before.contains(other) implies #[trigger] before.push(
        file,
    ).contains(other) by {
        let k = choose|k: int| 0 <= k < before.len() && before[k] == other;
        assert(before.push(file)[k] == other);
    }
}

/// Whether `unmatched` reports how two trees differ in content: it holds one
/// file for each fingerprint that exactly one of the trees has, taken from
/// that tree, in ascending order of fingerprint.
pub open spec fn is_diff_of(
    unmatched: Seq<FileRecordView>,
    tree1: Seq<FileRecordView>,
    tree2: Seq<FileRecordView>,
) -> bool {
    &&& strictly_ascending(unmatched)
    &&& forall|k: int|
        0 <= k < unmatched.len() ==> tree1.contains(#[trigger] unmatched[k]) || tree2.contains(
            unmatched[k],
        )
    &&& forall|fingerprint: u64| #[trigger]
        has_fingerprint(unmatched, fingerprint) <==> (has_fingerprint(tree1, fingerprint)
            != has_fingerprint(tree2, fingerprint))
}

/// How often the content `fingerprint` occurs among `files`.
pub open spec fn occurrences(files: Seq<FileRecordView>, fingerprint: u64) -> nat {
    files.filter(|file: FileRecordView| file.fingerprint == fingerprint).len()
}

/// A fingerprint set stands for exactly the fingerprints of its tree.
proof fn lemma_set_has_fingerprints_of_tree(
    set: Seq<FileRecordView>,
    tree: Seq<FileRecordView>,
    fingerprint: u64,
)
    requires
        is_fingerprint_set_of(set, tree),
    ensures
        has_fingerprint(set, fingerprint) <==> has_fingerprint(tree, fingerprint),
{
    if has_fingerprint(set, fingerprint) {
        let i = choose|i: int| 0 <= i < set.len() && (#[trigger] set[i]).fingerprint == fingerprint;
        assert(tree.contains(set[i]));
        let j = choose|j: int| 0 <= j < tree.len() && tree[j] == set[i];
        assert(tree[j].fingerprint == fingerprint);
    }
    if has_fingerprint(tree, fingerprint) {
        let j = choose|j: int|
            0 <= j < tree.len() && (#[trigger] tree[j]).fingerprint == fingerprint;
        assert(has_fingerprint(set, tree[j].fingerprint));
    }
}

/// Reports how two trees differ in content: one file for each fingerprint
/// that exactly one of them has. A content that both hold is matched and left
/// out, whatever the paths are.
pub fn diff_directories(dir1_files: Vec<FileRecord>, dir2_files: Vec<FileRecord>) -> (unmatched:
    Vec<FileRecord>)
    ensures
        is_diff_of(record_views(unmatched@), record_views(dir1_files@), record_views(dir2_files@)),
{
    let ghost tree1 = record_views(dir1_files@);
    let ghost tree2 = record_views(dir2_files@);
    let set1 = FingerprintSet::from_records(dir1_files);
    let set2 = FingerprintSet::from_records(dir2_files);
    let unmatched = set1.symmetric_difference(&set2);
    proof {
        let found = record_views(unmatched@);
        assert forall|k: int| 0 <= k < found.len() implies tree1.contains(#[trigger] found[k])
            || tree2.contains(found[k]) by {
            assert(found.contains(found[k]));
            assert(is_unmatched(set1@, set2@, found[k]));
            if set1@.contains(found[k]) {
                let i = choose|i: int| 0 <= i < set1@.len() && set1@[i] == found[k];
                assert(tree1.contains(set1@[i]));
            } else {
                let i = choose|i: int| 0 <= i < set2@.len() && set2@[i] == found[k];
                assert(tree2.contains(set2@[i]));
            }
        }
        assert forall|fingerprint: u64| #[trigger]
            has_fingerprint(found, fingerprint) <==> (has_fingerprint(tree1, fingerprint)
                != has_fingerprint(tree2, fingerprint)) by {
            lemma_set_has_fingerprints_of_tree(set1@, tree1, fingerprint);
            lemma_set_has_fingerprints_of_tree(set2@, tree2, fingerprint);
            if has_fingerprint(found, fingerprint) {
                let k = choose|k: int|
                    0 <= k < found.len() && (#[trigger] found[k]).fingerprint == fingerprint;
                assert(found.contains(found[k]));
                assert(is_unmatched(set1@, set2@, found[k]));
                if set1@.contains(found[k]) {
                    let i = choose|i: int| 0 <= i < set1@.len() && set1@[i] == found[k];
                    assert(set1@[i].fingerprint == fingerprint);
                } else {
                    let i = choose|i: int| 0 <= i < set2@.len() && set2@[i] == found[k];
                    assert(set2@[i].fingerprint == fingerprint);
                }
            }
            if has_fingerprint(set1@, fingerprint) && !has_fingerprint(set2@, fingerprint) {
                let i = choose|i: int|
                    0 <= i < set1@.len() && (#[trigger] set1@[i]).fingerprint == fingerprint;
                assert(set1@.contains(set1@[i]));
                assert(is_unmatched(set1@, set2@, set1@[i]));
                let k = choose|k: int| 0 <= k < found.len() && found[k] == set1@[i];
                assert(found[k].fingerprint == fingerprint);
            }
            if has_fingerprint(set2@, fingerprint) && !has_fingerprint(set1@, fingerprint) {
                let i = choose|i: int|
                    0 <= i < set2@.len() && (#[trigger] set2@[i]).fingerprint == fingerprint;
                assert(set2@.contains(set2@[i]));
                assert(is_unmatched(set1@, set2@, set2@[i]));
                let k = choose|k: int| 0 <= k < found.len() && found[k] == set2@[i];
                assert(found[k].fingerprint == fingerprint);
            }
        }
    }
    unmatched
}

/// Among files whose fingerprints strictly ascend, a content occurs once or
/// not at all.
pub proof fn lemma_ascending_occurs_once(files: Seq<FileRecordView>, fingerprint: u64)
    requires
        strictly_ascending(files),
    ensures
        occurrences(files, fingerprint) == if has_fingerprint(files, fingerprint) {
            1nat
        } else {
            0nat
        },
    decreases files.len(),
{
    let same = |file: FileRecordView| file.fingerprint == fingerprint;
    if files.len() == 0 {
        lemma_filter_none(files, same);
    } else {
        let front = files.drop_last();
        let last = files.last();
        assert(files == front.push(last));
        front.lemma_filter_push(last, same);
        assert forall|i: int, j: int| 0 <= i < j < front.len() implies front[i].fingerprint
            < front[j].fingerprint by {
            assert(front[i] == files[i] && front[j] == files[j]);
        }
        lemma_ascending_occurs_once(front, fingerprint);
        if last.fingerprint == fingerprint {
            assert forall|i: int| 0 <= i < front.len() implies !same(#[trigger] front[i]) by {
                assert(front[i] == files[i]);
                assert(files[i].fingerprint < files[files.len() - 1].fingerprint);
            }
            lemma_filter_none(front, same);
            assert(files[files.len() - 1].fingerprint == fingerprint);
        } else {
            if has_fingerprint(front, fingerprint) {
                let i = choose|i: int|
                    0 <= i < front.len() && (#[trigger] front[i]).fingerprint == fingerprint;
                assert(files[i].fingerprint == fingerprint);
            }
            if has_fingerprint(files, fingerprint) {
                let i = choose|i: int|
                    0 <= i < files.len() && (#[trigger] files[i]).fingerprint == fingerprint;
                assert(front[i].fingerprint == fingerprint);
            }
        }
    }
}

/// A content that both trees hold, or neither, is not reported; a content
/// that only one tree holds is reported exactly once, with a file of that
/// tree.
pub proof fn lemma_diff_reports_each_difference_once(
    unmatched: Seq<FileRecordView>,
    tree1: Seq<FileRecordView>,
    tree2: Seq<FileRecordView>,
    fingerprint: u64,
)
    requires
        is_diff_of(unmatched, tree1, tree2),
    ensures
        has_fingerprint(tree1, fingerprint) == has_fingerprint(tree2, fingerprint) ==> occurrences(
            unmatched,
            fingerprint,
        ) == 0,
        has_fingerprint(tree1, fingerprint) != has_fingerprint(tree2, fingerprint) ==> occurrences(
            unmatched,
            fingerprint,
        ) == 1,
        forall|k: int|
            0 <= k < unmatched.len() && (#[trigger] unmatched[k]).fingerprint == fingerprint
                && has_fingerprint(tree1, fingerprint) ==> tree1.contains(unmatched[k]),
        forall|k: int|
            0 <= k < unmatched.len() && (#[trigger] unmatched[k]).fingerprint == fingerprint
                && has_fingerprint(tree2, fingerprint) ==> tree2.contains(unmatched[k]),
{
    lemma_ascending_occurs_once(unmatched, fingerprint);
    assert(has_fingerprint(unmatched, fingerprint) <==> (has_fingerprint(tree1, fingerprint)
        != has_fingerprint(tree2, fingerprint)));
    assert forall|k: int|
        0 <= k < unmatched.len() && (#[trigger] unmatched[k]).fingerprint == fingerprint
            && has_fingerprint(tree1, fingerprint) implies tree1.contains(unmatched[k]) by {
        if tree2.contains(unmatched[k]) {
            let j = choose|j: int| 0 <= j < tree2.len() && tree2[j] == unmatched[k];
            assert(tree2[j].fingerprint == fingerprint);
        }
    }
    assert forall|k: int|
        0 <= k < unmatched.len() && (#[trigger] unmatched[k]).fingerprint == fingerprint
            && has_fingerprint(tree2, fingerprint) implies tree2.contains(unmatched[k]) by {
        if tree1.contains(unmatched[k]) {
            let j = choose|j: int| 0 <= j < tree1.len() && tree1[j] == unmatched[k];
            assert(tree1[j].fingerprint == fingerprint);
        }
    }
}


} // verus!
