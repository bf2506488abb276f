use dir_diff::{diff_directories, FileRecord, FingerprintSet};

fn record(path: &str, fingerprint: u64) -> FileRecord {
    FileRecord::new(path.to_string(), fingerprint)
}

fn pairs(files: &[FileRecord]) -> Vec<(u64, String)> {
    files.iter().map(|file| (file.fingerprint, file.path.clone())).collect()
}

#[test]
fn content_in_both_trees_is_not_reported() {
    let tree1 = vec![record("/one/a", 1), record("/one/b", 2)];
    let tree2 = vec![record("/two/elsewhere/b", 2), record("/two/a", 1)];
    assert!(diff_directories(tree1, tree2).is_empty());
}

#[test]
fn content_in_one_tree_is_reported_once() {
    let tree1 = vec![record("/one/a", 1), record("/one/b", 2), record("/one/c", 3)];
    let tree2 = vec![record("/two/b", 2), record("/two/d", 4)];
    let unmatched = diff_directories(tree1, tree2);
    assert_eq!(
        pairs(&unmatched),
        vec![(1, "/one/a".to_string()), (3, "/one/c".to_string()), (4, "/two/d".to_string())]
    );
}

#[test]
fn copies_within_one_tree_are_reported_as_one() {
    let tree1 = vec![record("/one/x", 9), record("/one/y", 9), record("/one/z", 9)];
    let unmatched = diff_directories(tree1, Vec::new());
    assert_eq!(unmatched.len(), 1);
    assert_eq!(unmatched[0].fingerprint, 9);
    assert!(["/one/x", "/one/y", "/one/z"].contains(&unmatched[0].path.as_str()));
}

#[test]
fn same_path_with_other_content_is_reported_for_both_trees() {
    let unmatched = diff_directories(vec![record("same", 1)], vec![record("same", 2)]);
    assert_eq!(pairs(&unmatched), vec![(1, "same".to_string()), (2, "same".to_string())]);
}

#[test]
fn empty_trees_do_not_differ() {
    assert!(diff_directories(Vec::new(), Vec::new()).is_empty());
}

#[test]
fn diff_is_symmetric_in_what_it_reports() {
    let tree1 = || vec![record("/one/a", 5), record("/one/b", 6)];
    let tree2 = || vec![record("/two/b", 6), record("/two/c", 7)];
    assert_eq!(
        pairs(&diff_directories(tree1(), tree2())),
        pairs(&diff_directories(tree2(), tree1()))
    );
}

#[test]
fn set_difference_leaves_the_sets_as_they_were() {
    let set1 = FingerprintSet::from_records(vec![record("a", 3), record("b", 1), record("c", 3)]);
    let set2 = FingerprintSet::from_records(vec![record("d", 2), record("e", 1)]);
    let first = set1.symmetric_difference(&set2);
    let again = set1.symmetric_difference(&set2);
    assert_eq!(pairs(&first), pairs(&again));
    let fingerprints: Vec<u64> = first.iter().map(|file| file.fingerprint).collect();
    assert_eq!(fingerprints, vec![2, 3]);
    assert!(set1.symmetric_difference(&set1).is_empty());
}
