use dir_diff::{
    find_and_delete_duplicates, find_empty_dirs, fingerprint, hash_file, ContentHasher,
    FileRecord, TreeEntry,
};

#[test]
fn date_copy_goes_and_its_folder_after_it() {
    let bytes = b"\xff\xd8\xff\xe0 the same picture";
    let mut first = ContentHasher::new();
    assert!(first.update(&bytes[..5]));
    assert!(first.update(&bytes[5..]));
    let mut second = ContentHasher::new();
    assert!(second.update(bytes));
    let files = vec![
        FileRecord::new("/a/2022-05-01/x.jpg".to_string(), hash_file(Some(first))),
        FileRecord::new("/a/vacation/x.jpg".to_string(), hash_file(Some(second))),
    ];
    assert_eq!(files[0].fingerprint, files[1].fingerprint);
    assert_eq!(files[0].fingerprint, fingerprint(bytes));

    let doomed = find_and_delete_duplicates(files);
    let paths: Vec<&str> = doomed.iter().map(|file| file.path.as_str()).collect();
    assert_eq!(paths, vec!["/a/2022-05-01/x.jpg"]);

    let walk_after = vec![
        TreeEntry { path: "/a".to_string(), is_dir: true, entry_count: Some(2) },
        TreeEntry { path: "/a/2022-05-01".to_string(), is_dir: true, entry_count: Some(0) },
        TreeEntry { path: "/a/vacation".to_string(), is_dir: true, entry_count: Some(1) },
        TreeEntry { path: "/a/vacation/x.jpg".to_string(), is_dir: false, entry_count: None },
    ];
    assert_eq!(find_empty_dirs(&walk_after), vec!["/a/2022-05-01"]);
}

#[test]
fn date_folder_with_another_file_stays() {
    let files = vec![
        FileRecord::new("/a/2022-05-01/x.jpg".to_string(), fingerprint(b"picture")),
        FileRecord::new("/a/2022-05-01/y.jpg".to_string(), fingerprint(b"another picture")),
        FileRecord::new("/a/vacation/x.jpg".to_string(), fingerprint(b"picture")),
    ];
    let doomed = find_and_delete_duplicates(files);
    let paths: Vec<&str> = doomed.iter().map(|file| file.path.as_str()).collect();
    assert_eq!(paths, vec!["/a/2022-05-01/x.jpg"]);

    let walk_after = vec![
        TreeEntry { path: "/a".to_string(), is_dir: true, entry_count: Some(2) },
        TreeEntry { path: "/a/2022-05-01".to_string(), is_dir: true, entry_count: Some(1) },
        TreeEntry { path: "/a/2022-05-01/y.jpg".to_string(), is_dir: false, entry_count: None },
        TreeEntry { path: "/a/vacation".to_string(), is_dir: true, entry_count: Some(1) },
        TreeEntry { path: "/a/vacation/x.jpg".to_string(), is_dir: false, entry_count: None },
    ];
    assert_eq!(find_empty_dirs(&walk_after), Vec::<String>::new());
}
