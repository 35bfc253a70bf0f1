use minimacs::path::{
    complete_path_from_listing, completion_dir_and_prefix, normalize_path_string, DirEntryInfo,
};

#[test]
fn normalize_removes_dot_component() {
    assert_eq!(normalize_path_string("/home/user/./foo", None), "/home/user/foo");
}

#[test]
fn normalize_resolves_dotdot_component() {
    assert_eq!(normalize_path_string("/home/user/../other", None), "/home/other");
}

#[test]
fn normalize_preserves_trailing_slash() {
    assert_eq!(normalize_path_string("/home/user/./", None), "/home/user/");
    assert_eq!(normalize_path_string("/home/user/../", None), "/home/");
}

#[test]
fn normalize_no_change_for_clean_path() {
    assert_eq!(normalize_path_string("/home/user/foo", None), "/home/user/foo");
}

#[test]
fn normalize_dotdot_at_root() {
    assert_eq!(normalize_path_string("/../foo", None), "/foo");
}

#[test]
fn normalize_preserves_leading_dotdot_on_relative_path() {
    assert_eq!(normalize_path_string("../foo", None), "../foo");
    assert_eq!(normalize_path_string("../../a/b", None), "../../a/b");
}

#[test]
fn normalize_dotdot_escaping_relative_path_stays() {
    assert_eq!(normalize_path_string("a/../../b", None), "../b");
}

#[test]
fn normalize_preserves_trailing_slash_on_leading_dotdot() {
    assert_eq!(normalize_path_string("../", None), "../");
}

#[test]
fn normalize_multiple_dots() {
    assert_eq!(normalize_path_string("/a/b/./c/../d", None), "/a/b/d");
}

#[test]
fn normalize_preserves_trailing_slash_after_dotdot() {
    assert_eq!(normalize_path_string("/a/b/../", None), "/a/");
}

// Further cases.

#[test]
fn normalize_expands_tilde_then_resolves() {
    assert_eq!(normalize_path_string("~/a/../b", Some("/home/u/")), "/home/u/b");
    assert_eq!(normalize_path_string("~/a/../b", None), "~/b");
}

#[test]
fn normalize_empty_and_dot() {
    assert_eq!(normalize_path_string("", None), "");
    assert_eq!(normalize_path_string(".", None), "");
    assert_eq!(normalize_path_string("a/..", None), "");
    assert_eq!(normalize_path_string("/", None), "/");
    assert_eq!(normalize_path_string("//a//b", None), "/a/b");
}

#[test]
fn completion_splits_dir_and_prefix() {
    assert_eq!(completion_dir_and_prefix("/tmp/fo", false), ("/tmp".to_string(), "fo".to_string()));
    assert_eq!(completion_dir_and_prefix("/tmp/sub", true), ("/tmp/sub".to_string(), "".to_string()));
    assert_eq!(completion_dir_and_prefix("fo", false), ("".to_string(), "fo".to_string()));
}

fn entry(name: &str, is_dir: bool) -> DirEntryInfo {
    DirEntryInfo { name: name.to_string(), is_dir }
}

#[test]
fn completion_from_listing_unique_multiple_none() {
    let listing = vec![entry("alpha.txt", false), entry("beta.txt", false)];
    let (completed, candidates) =
        complete_path_from_listing("/d/a", "/d", "a", Some(listing));
    assert_eq!(completed, "/d/alpha.txt");
    assert!(candidates.is_empty());

    let listing = vec![entry("foobaz.txt", false), entry("foobar.txt", false)];
    let (completed, candidates) =
        complete_path_from_listing("/d/foo", "/d", "foo", Some(listing));
    assert_eq!(completed, "/d/fooba");
    assert_eq!(candidates, vec!["foobar.txt", "foobaz.txt"]);

    let listing = vec![entry("subdir", true), entry("subfile.txt", false)];
    let (_, candidates) = complete_path_from_listing("/d/sub", "/d", "sub", Some(listing));
    assert_eq!(candidates, vec!["subdir/", "subfile.txt"]);

    let listing = vec![entry("alpha.txt", false)];
    let (completed, candidates) =
        complete_path_from_listing("/d/zzz", "/d", "zzz", Some(listing));
    assert_eq!(completed, "/d/zzz");
    assert!(candidates.is_empty());

    let (completed, candidates) = complete_path_from_listing("/nowhere/x", "/nowhere", "x", None);
    assert_eq!(completed, "/nowhere/x");
    assert!(candidates.is_empty());
}

#[test]
fn completion_of_a_unique_directory_ends_in_slash() {
    let listing = vec![entry("subdir", true)];
    let (completed, candidates) = complete_path_from_listing("/d/sub", "/d", "sub", Some(listing));
    assert_eq!(completed, "/d/subdir/");
    assert!(candidates.is_empty());
}

#[test]
fn normalizing_twice_changes_nothing_more() {
    for input in ["a/./b/../c/", "/x/../../y", "../../a/b/..", "~/p/../q", "", "/", "./"] {
        let once = normalize_path_string(input, Some("/home/u"));
        let twice = normalize_path_string(&once, Some("/home/u"));
        assert_eq!(once, twice, "input {input:?}");
    }
}
