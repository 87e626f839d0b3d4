use feaders::paths::{anchor, canonicalize, AbsolutePath};

fn text(chars: Vec<char>) -> String {
    chars.into_iter().collect()
}

#[test]
fn relative_path_is_anchored_to_base() {
    assert_eq!(canonicalize("a/b.h", "/home/user"), "/home/user/a/b.h");
}

#[test]
fn rooted_path_ignores_base() {
    assert_eq!(canonicalize("/usr/include/zlib.h", "/home/user"), "/usr/include/zlib.h");
}

#[test]
fn dot_segments_are_dropped() {
    assert_eq!(canonicalize("./a/./b", "/w"), "/w/a/b");
}

#[test]
fn dotdot_pops_previous_segment() {
    assert_eq!(canonicalize("../x/y", "/home/user"), "/home/x/y");
    assert_eq!(canonicalize("/a/./b/../c", "/x"), "/a/c");
}

#[test]
fn dotdot_at_root_is_a_no_op() {
    assert_eq!(canonicalize("..", "/"), "/");
    assert_eq!(canonicalize("/../../a", "/w"), "/a");
}

#[test]
fn repeated_and_trailing_slashes_are_dropped() {
    assert_eq!(canonicalize("a//b/", "/w/"), "/w/a/b");
}

#[test]
fn empty_path_is_the_base() {
    assert_eq!(canonicalize("", "/a/b"), "/a/b");
}

#[test]
fn everything_popped_gives_root() {
    assert_eq!(canonicalize("a/..", "/"), "/");
}

#[test]
fn three_dots_is_an_ordinary_segment() {
    assert_eq!(canonicalize(".../x", "/w"), "/w/.../x");
}

#[test]
fn non_ascii_segments_are_kept() {
    assert_eq!(canonicalize("h\u{e9}/\u{4e2d}.h", "/w"), "/w/h\u{e9}/\u{4e2d}.h");
}

#[test]
fn canonicalize_is_idempotent_on_examples() {
    let cases = vec![
        ("a/b", "/home"),
        ("../..//x/./y/", "/home/user"),
        ("", "/"),
        ("/a/../..", "/q"),
        ("x", "relative/base"),
    ];
    for (path, base) in cases {
        let once = canonicalize(path, base);
        assert_eq!(canonicalize(&once, base), once);
        assert_eq!(canonicalize(&once, "/elsewhere"), once);
        assert!(once.starts_with('/'));
    }
}

#[test]
fn anchor_joins_with_one_separator() {
    assert_eq!(text(anchor("a/../b", "/w")), "/w/a/../b");
    assert_eq!(text(anchor("a", "/w/")), "/w/a");
    assert_eq!(text(anchor("/a", "/w")), "/a");
    assert_eq!(text(anchor("a", "")), "a");
    assert_eq!(text(anchor("", "/w")), "/w/");
}

#[test]
fn absolute_path_without_canonicalisation_only_anchors() {
    assert_eq!("a/../b".absolute_path("/w", false), "/w/a/../b");
    assert_eq!("a/../b".absolute_path("/w", true), "/w/b");
}

#[test]
fn canonical_path_is_absolute_path_with_canonicalisation() {
    assert_eq!("x/./y".canonical_path("/w"), "/w/x/y");
    assert_eq!("x/./y".canonical_path("/w"), "x/./y".absolute_path("/w", true));
}
