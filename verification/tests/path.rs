use fav::error::FavError;
use fav::path::{is_canonical_path, normalize_path};

fn norm(path: &str) -> String {
    normalize_path(path).unwrap()
}

#[test]
fn canonical_path_is_unchanged() {
    assert_eq!(norm("/home/u/docs"), "/home/u/docs");
    assert_eq!(norm("a/b"), "a/b");
    assert_eq!(norm("a"), "a");
}

#[test]
fn spellings_of_one_path_agree() {
    assert_eq!(norm("./a/../a/b"), "a/b");
    assert_eq!(norm("./a/../a/b"), norm("a/b"));
    assert_eq!(norm("/x/./y/../y/z"), norm("/x/y/z"));
}

#[test]
fn redundant_separators_are_dropped() {
    assert_eq!(norm("a//b"), "a/b");
    assert_eq!(norm("a/b/"), "a/b");
    assert_eq!(norm("//a///b//"), "/a/b");
}

#[test]
fn dot_segments_are_dropped() {
    assert_eq!(norm("./a"), "a");
    assert_eq!(norm("a/./b/."), "a/b");
    assert_eq!(norm("/./a"), "/a");
}

#[test]
fn dot_dot_cancels_the_segment_before() {
    assert_eq!(norm("a/b/../c"), "a/c");
    assert_eq!(norm("/a/b/../../c"), "/c");
    assert_eq!(norm("a/b/c/../.."), "a");
}

#[test]
fn dot_dot_at_the_front_of_a_relative_path_stays() {
    assert_eq!(norm(".."), "..");
    assert_eq!(norm("../a"), "../a");
    assert_eq!(norm("a/../../b"), "../b");
    assert_eq!(norm("../../a/.."), "../..");
}

#[test]
fn dot_dot_above_the_root_is_dropped() {
    assert_eq!(norm("/.."), "/");
    assert_eq!(norm("/../a"), "/a");
    assert_eq!(norm("/a/../../b"), "/b");
}

#[test]
fn root_and_current_directory() {
    assert_eq!(norm("/"), "/");
    assert_eq!(norm("///"), "/");
    assert_eq!(norm("."), ".");
    assert_eq!(norm("./"), ".");
    assert_eq!(norm("a/.."), ".");
}

#[test]
fn names_with_dots_are_ordinary_segments() {
    assert_eq!(norm("..."), "...");
    assert_eq!(norm(".a/..b/c."), ".a/..b/c.");
    assert_eq!(norm("a/.../b"), "a/.../b");
}

#[test]
fn characters_beyond_ascii_are_kept() {
    assert_eq!(norm("/héllo/./wörld/../日本"), "/héllo/日本");
}

#[test]
fn empty_string_is_no_path() {
    assert_eq!(normalize_path(""), Err(FavError::InvalidPath));
}

#[test]
fn nul_character_is_refused() {
    assert_eq!(normalize_path("a\0b"), Err(FavError::InvalidPath));
    assert_eq!(normalize_path("\0"), Err(FavError::InvalidPath));
    assert_eq!(normalize_path("/a/b\0"), Err(FavError::InvalidPath));
}

#[test]
fn normalizing_twice_changes_nothing() {
    let samples = [
        "/home/u/docs",
        "./a/../a/b",
        "a//b/",
        "/",
        ".",
        "..",
        "../../x/./y/..",
        "/../..",
        "a/../..",
        "//a/./b/../c/",
        "日本/../語",
    ];
    for sample in samples {
        let once = norm(sample);
        assert_eq!(norm(&once), once);
    }
}

#[test]
fn canonical_forms_are_told_apart() {
    assert!(is_canonical_path("/home/u/docs"));
    assert!(is_canonical_path("/"));
    assert!(is_canonical_path("."));
    assert!(is_canonical_path("../a"));
    assert!(!is_canonical_path("/home/u/docs/"));
    assert!(!is_canonical_path("./a"));
    assert!(!is_canonical_path("a/../b"));
    assert!(!is_canonical_path("a//b"));
    assert!(!is_canonical_path(""));
    assert!(!is_canonical_path("a\0"));
}
