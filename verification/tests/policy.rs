use dir_diff::{delete_duplicates, find_and_delete_duplicates, FileRecord};

fn paths(list: &[&str]) -> Vec<String> {
    list.iter().map(|path| path.to_string()).collect()
}

fn record(path: &str, fingerprint: u64) -> FileRecord {
    FileRecord::new(path.to_string(), fingerprint)
}

fn sorted_paths(files: &[FileRecord]) -> Vec<String> {
    let mut list: Vec<String> = files.iter().map(|file| file.path.clone()).collect();
    list.sort();
    list
}

#[test]
fn album_copy_dooms_the_date_copies() {
    let group = paths(&[
        "/p/vacation/albumFile",
        "/p/2023-01-01/dateFile1",
        "/p/2023-01-01/dateFile2",
    ]);
    assert_eq!(
        delete_duplicates(&group),
        paths(&["/p/2023-01-01/dateFile1", "/p/2023-01-01/dateFile2"])
    );
}

#[test]
fn album_copy_may_stand_anywhere_in_the_group() {
    let group = paths(&["/p/2023-01-01/a", "/p/2023-01-02/b", "/p/vacation/c"]);
    assert_eq!(delete_duplicates(&group), paths(&["/p/2023-01-01/a", "/p/2023-01-02/b"]));
    let group = paths(&["/p/2023-01-01/a", "/p/vacation/c", "/p/2023-01-02/b"]);
    assert_eq!(delete_duplicates(&group), paths(&["/p/2023-01-01/a", "/p/2023-01-02/b"]));
}

#[test]
fn all_date_group_is_left_alone() {
    let group = paths(&["/p/2023-01-01/dateFile1", "/p/2023-01-01/dateFile2"]);
    assert_eq!(delete_duplicates(&group), Vec::<String>::new());
    let group = paths(&["/p/2023-01-01/a", "/p/2024-06-30/b", "/q/2000/c"]);
    assert_eq!(delete_duplicates(&group), Vec::<String>::new());
}

#[test]
fn all_album_group_is_left_alone() {
    let group = paths(&["/p/vacation/a", "/p/wedding/a"]);
    assert_eq!(delete_duplicates(&group), Vec::<String>::new());
}

#[test]
fn singleton_is_never_deleted() {
    assert_eq!(delete_duplicates(&paths(&["/p/2023-01-01/only"])), Vec::<String>::new());
    assert_eq!(delete_duplicates(&paths(&["/p/vacation/only"])), Vec::<String>::new());
    assert_eq!(delete_duplicates(&paths(&["only"])), Vec::<String>::new());
}

#[test]
fn empty_group_gives_nothing() {
    assert_eq!(delete_duplicates(&[]), Vec::<String>::new());
}

#[test]
fn tree_with_one_duplicated_content() {
    let files = vec![record("/a/2022-05-01/x.jpg", 77), record("/a/vacation/x.jpg", 77)];
    let doomed = find_and_delete_duplicates(files);
    assert_eq!(doomed.len(), 1);
    assert_eq!(doomed[0].path, "/a/2022-05-01/x.jpg");
    assert_eq!(doomed[0].fingerprint, 77);
}

#[test]
fn tree_with_several_contents() {
    let files = vec![
        record("/t/2021-01-01/c", 30),
        record("/t/2022-05-01/a", 10),
        record("/t/album/b", 20),
        record("/t/2022-05-02/c", 30),
        record("/t/album/a", 10),
        record("/t/2020-12-24/a", 10),
        record("/t/2022-05-01/b", 20),
        record("/t/2019/unique", 40),
        record("/t/other/unique", 50),
    ];
    let doomed = find_and_delete_duplicates(files);
    assert_eq!(
        sorted_paths(&doomed),
        paths(&["/t/2020-12-24/a", "/t/2022-05-01/a", "/t/2022-05-01/b"])
    );
    let fingerprints: Vec<u64> = doomed.iter().map(|file| file.fingerprint).collect();
    assert_eq!(fingerprints, vec![10, 10, 20]);
}

#[test]
fn last_group_of_the_tree_is_decided_too() {
    let files = vec![
        record("/t/album/low", 1),
        record("/t/2022-01-01/high", u64::MAX),
        record("/t/album/high", u64::MAX),
    ];
    let doomed = find_and_delete_duplicates(files);
    assert_eq!(sorted_paths(&doomed), paths(&["/t/2022-01-01/high"]));
}

#[test]
fn tree_without_duplicates_loses_nothing() {
    let files = vec![
        record("/t/2022-01-01/a", 1),
        record("/t/2022-01-01/b", 2),
        record("/t/album/c", 3),
    ];
    assert!(find_and_delete_duplicates(files).is_empty());
    assert!(find_and_delete_duplicates(Vec::new()).is_empty());
}

#[test]
fn same_name_with_other_content_is_no_duplicate() {
    let files = vec![record("/t/2022-01-01/x.jpg", 1), record("/t/album/x.jpg", 2)];
    assert!(find_and_delete_duplicates(files).is_empty());
}

#[test]
fn unreadable_files_count_as_copies_of_one_another() {
    let files = vec![record("/t/2022-01-01/locked", 0), record("/t/album/broken", 0)];
    let doomed = find_and_delete_duplicates(files);
    assert_eq!(sorted_paths(&doomed), paths(&["/t/2022-01-01/locked"]));
}
