use dir_diff::parent_dir_is_date;

#[test]
fn parent_named_for_a_date_is_date_like() {
    assert!(parent_dir_is_date("/a/2022-05-01/x.jpg"));
    assert!(parent_dir_is_date("/photos/2023-01-01/dateFile1"));
    assert!(parent_dir_is_date("2024-03-01/img.png"));
    assert!(parent_dir_is_date("archive/20/img.png"));
    assert!(parent_dir_is_date("archive/2000s/img.png"));
    assert!(parent_dir_is_date("archive/20x/img.png"));
}

#[test]
fn parent_with_another_name_is_album_like() {
    assert!(!parent_dir_is_date("/a/vacation/x.jpg"));
    assert!(!parent_dir_is_date("/a/1999-12-31/x.jpg"));
    assert!(!parent_dir_is_date("/a/2/x.jpg"));
    assert!(!parent_dir_is_date("/a/21/x.jpg"));
    assert!(!parent_dir_is_date("/a/02/x.jpg"));
    assert!(!parent_dir_is_date("/a/x20/x.jpg"));
    assert!(!parent_dir_is_date("/a/ 20/x.jpg"));
}

#[test]
fn only_the_immediate_parent_counts() {
    assert!(!parent_dir_is_date("/2022-05-01/vacation/x.jpg"));
    assert!(parent_dir_is_date("/vacation/2022-05-01/x.jpg"));
    assert!(!parent_dir_is_date("/a/b/2022-05-01.jpg"));
    assert!(!parent_dir_is_date("2022/05/01/x.jpg"));
    assert!(parent_dir_is_date("2022/05/2001/x.jpg"));
}

#[test]
fn path_without_a_parent_name_is_album_like() {
    assert!(!parent_dir_is_date(""));
    assert!(!parent_dir_is_date("/"));
    assert!(!parent_dir_is_date("x.jpg"));
    assert!(!parent_dir_is_date("2022-05-01"));
    assert!(!parent_dir_is_date("/2022-05-01"));
    assert!(!parent_dir_is_date("./2022-05-01"));
    assert!(!parent_dir_is_date("./x.jpg"));
    assert!(!parent_dir_is_date("../x.jpg"));
    assert!(!parent_dir_is_date("2022/../x.jpg"));
}

#[test]
fn repeated_separators_and_dots_are_skipped() {
    assert!(parent_dir_is_date("/a//2022-05-01//x.jpg"));
    assert!(parent_dir_is_date("/a/2022-05-01/./x.jpg"));
    assert!(parent_dir_is_date("/a/2022-05-01/x.jpg/"));
    assert!(parent_dir_is_date("/a/2022-05-01/x.jpg/."));
    assert!(parent_dir_is_date("./2022-05-01/x.jpg"));
    assert!(parent_dir_is_date("2022-05-01/.."));
    assert!(!parent_dir_is_date("/2022-05-01/a/./x.jpg"));
    assert!(!parent_dir_is_date("/2022-05-01/.a/x.jpg"));
    assert!(parent_dir_is_date("/a/20./x.jpg"));
    assert!(!parent_dir_is_date("/a/.20/x.jpg"));
}

#[test]
fn names_beyond_ascii_are_read_as_text() {
    assert!(parent_dir_is_date("/été/2022-août/x.jpg"));
    assert!(!parent_dir_is_date("/2022/été/x.jpg"));
    assert!(!parent_dir_is_date("/a/２０22/x.jpg"));
}

#[test]
fn classification_agrees_with_the_standard_path_type() {
    let paths = [
        "/a/2022-05-01/x.jpg",
        "/a/vacation/x.jpg",
        "a//2022/./x",
        "2022/x/",
        "2022/x/.",
        "./2022/x",
        "/a/b/20/c",
        "20/..",
        "../20/x",
        "/a/2/x",
    ];
    for path in paths {
        let std_path = std::path::Path::new(path);
        let expected = std_path
            .parent()
            .and_then(|parent| parent.file_name())
            .map(|name| name.to_string_lossy().starts_with("20"))
            .unwrap_or(false);
        assert_eq!(parent_dir_is_date(path), expected, "{}", path);
    }
}
