use feaders::discovery::{is_source_file, matches_pattern, FileSearcher};
use feaders::matcher::ScanError;

#[test]
fn the_five_suffixes_are_source_names() {
    assert_eq!(is_source_file("a.h"), Ok(true));
    assert_eq!(is_source_file("src/main.c"), Ok(true));
    assert_eq!(is_source_file("/x/y.hpp"), Ok(true));
    assert_eq!(is_source_file("y.cc"), Ok(true));
    assert_eq!(is_source_file("y.cpp"), Ok(true));
}

#[test]
fn other_names_are_not_source_names() {
    assert_eq!(is_source_file("a.txt"), Ok(false));
    assert_eq!(is_source_file("a.hh"), Ok(false));
    assert_eq!(is_source_file("ah"), Ok(false));
    assert_eq!(is_source_file("a.h.orig"), Ok(false));
    assert_eq!(is_source_file(""), Ok(false));
    assert_eq!(is_source_file("src"), Ok(false));
}

#[test]
fn a_pattern_is_matched_not_compared() {
    assert_eq!(matches_pattern("^.*\\.h$", "^.*\\.h$"), Ok(false));
    assert_eq!(matches_pattern("^.*\\.h$", "dir/a.h"), Ok(true));
    assert_eq!(matches_pattern("b+", "aabba"), Ok(true));
}

#[test]
fn a_refused_pattern_is_an_error() {
    assert_eq!(matches_pattern("(", "x"), Err(ScanError::Pattern));
}

#[test]
fn search_keeps_source_entries_in_walk_order() {
    let entries = vec![
        "/proj".to_string(),
        "/proj/src/../a.h".to_string(),
        "/proj/README".to_string(),
        "lib/b.cpp".to_string(),
        "/proj/c.o".to_string(),
    ];
    let files = FileSearcher::search(&entries, "/proj").unwrap();
    let paths: Vec<&str> = files.iter().map(|f| f.path.as_str()).collect();
    assert_eq!(paths, vec!["/proj/a.h", "/proj/lib/b.cpp"]);
    assert!(files.iter().all(|f| f.headers.is_empty()));
}

#[test]
fn search_of_nothing_finds_nothing() {
    let files = FileSearcher::search(&Vec::new(), "/proj").unwrap();
    assert!(files.is_empty());
}
