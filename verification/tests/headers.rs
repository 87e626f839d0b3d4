use feaders::discovery::FileSearcher;
use feaders::headers::{
    capture_targets, directive, keep_targets, name_of_groups, names_of_captures, scan_file,
    FeadersFile, ImportPathFilters, Verdict,
};
use feaders::matcher::ScanError;

fn strings(items: &[&str]) -> Vec<String> {
    items.iter().map(|s| s.to_string()).collect()
}

fn tree(paths: &[&str], ignored: &[&str]) -> ImportPathFilters {
    let files = FileSearcher::search(&strings(paths), "/proj").unwrap();
    ImportPathFilters::new(&files, &strings(ignored))
}

const SAMPLE: &str = "#include <stdio.h>\n  #  include \"util/my.h\"\nint x;\n// #include <no.h>\n#include <zlib.h>\n#include <stdio.h>\n";

#[test]
fn new_file_has_no_headers() {
    let f = FeadersFile::new("/proj/a.c");
    assert_eq!(f.path, "/proj/a.c");
    assert!(f.headers.is_empty());
}

#[test]
fn directives_are_captured_in_file_order_with_duplicates() {
    let targets = capture_targets(directive(), SAMPLE).unwrap();
    assert_eq!(targets, strings(&["stdio.h", "util/my.h", "zlib.h", "stdio.h"]));
}

#[test]
fn text_without_directives_has_no_targets() {
    assert_eq!(capture_targets(directive(), "int main() { return 0; }\n"), Ok(Vec::new()));
    assert_eq!(capture_targets(directive(), ""), Ok(Vec::new()));
}

#[test]
fn directive_matching_is_case_sensitive() {
    assert_eq!(capture_targets(directive(), "#INCLUDE <a.h>\n"), Ok(Vec::new()));
}

#[test]
fn directive_must_start_its_line() {
    assert_eq!(capture_targets(directive(), "int x; #include <a.h>\n"), Ok(Vec::new()));
}

#[test]
fn empty_directive_body_is_an_empty_name() {
    assert_eq!(capture_targets(directive(), "#include <>\n"), Ok(strings(&[""])));
}

#[test]
fn a_refused_pattern_gives_the_pattern_error() {
    assert_eq!(capture_targets("(", "#include <a.h>\n"), Err(ScanError::Pattern));
}

#[test]
fn a_group_that_took_no_part_is_the_empty_name() {
    assert_eq!(capture_targets("a|(b)", "ab"), Ok(strings(&["", "b"])));
    assert_eq!(capture_targets("ab", "abab"), Ok(strings(&["", ""])));
}

#[test]
fn the_second_group_names_where_the_first_took_no_part() {
    assert_eq!(capture_targets("(a)|(b)", "ba"), Ok(strings(&["b", "a"])));
    assert_eq!(capture_targets("(a)(b)", "ab"), Ok(strings(&["a"])));
}

#[test]
fn names_come_from_the_groups_of_each_match() {
    let some = |s: &str| Some(s.to_string());
    assert_eq!(name_of_groups(&vec![some("<x>"), some("x"), None]), "x");
    assert_eq!(name_of_groups(&vec![some("\"y\""), None, some("y")]), "y");
    assert_eq!(name_of_groups(&vec![some("z"), None, None]), "");
    assert_eq!(name_of_groups(&vec![some("z")]), "");
    assert_eq!(name_of_groups(&Vec::new()), "");
    let captures = vec![vec![some("<x>"), some("x"), None], vec![some("w")], vec![some("\"\""), None, some("")]];
    assert_eq!(names_of_captures(&captures), strings(&["x", "", ""]));
}

#[test]
fn whitespace_must_follow_the_word() {
    assert_eq!(capture_targets(directive(), "#include<a.h>\n#include\"b.h\"\n"), Ok(Vec::new()));
    assert_eq!(capture_targets(directive(), "#include\t<a.h>\n"), Ok(strings(&["a.h"])));
}

#[test]
fn delimiters_must_pair() {
    assert_eq!(capture_targets(directive(), "#include <a.h\"\n"), Ok(Vec::new()));
    assert_eq!(capture_targets(directive(), "#include \"a.h>\n"), Ok(Vec::new()));
    assert_eq!(capture_targets(directive(), "#include \"<a.h>\n"), Ok(Vec::new()));
}

#[test]
fn the_name_ends_at_the_first_closing_delimiter() {
    assert_eq!(capture_targets(directive(), "#include <a.h> // <b.h>\n"), Ok(strings(&["a.h"])));
    assert_eq!(capture_targets(directive(), "#include \"a<b>.h\" \"c.h\"\n"), Ok(strings(&["a<b>.h"])));
}

#[test]
fn verdicts_look_for_a_local_file_first() {
    let filters = tree(&["/proj/b.h", "/proj/c.h"], &["c.h", "d.h"]);
    assert_eq!(filters.classify("a.h", "/proj"), Verdict::Kept);
    assert_eq!(filters.classify("b.h", "/proj"), Verdict::Local);
    assert_eq!(filters.classify("c.h", "/proj"), Verdict::Local);
    assert_eq!(filters.classify("d.h", "/proj"), Verdict::Ignored);
    assert_eq!(filters.classify("c.h", "/elsewhere"), Verdict::Ignored);
}

#[test]
fn without_deduplication_every_directive_is_kept() {
    let filters = tree(&["/proj/util/my.h"], &["stdio.h"]);
    let mut f = FeadersFile::new("/proj/a.c");
    let n = f.process(SAMPLE, false, "/proj", "/", &filters);
    assert_eq!(n, Ok(4));
    assert_eq!(f.headers, strings(&["stdio.h", "util/my.h", "zlib.h", "stdio.h"]));
    assert_eq!(f.path, "/proj/a.c");
}

#[test]
fn deduplication_drops_local_and_ignored_names() {
    let filters = tree(&["/proj/util/my.h"], &["stdio.h"]);
    let mut f = FeadersFile::new("/proj/a.c");
    let n = f.process(SAMPLE, true, "/proj", "/", &filters);
    assert_eq!(n, Ok(1));
    assert_eq!(f.headers, strings(&["zlib.h"]));
}

#[test]
fn deduplication_never_adds_headers() {
    let filters = tree(&["/proj/util/my.h", "/proj/zlib.h"], &["no.h"]);
    let mut with = FeadersFile::new("/proj/a.c");
    let mut without = FeadersFile::new("/proj/a.c");
    with.process(SAMPLE, true, "/proj", "/", &filters).unwrap();
    without.process(SAMPLE, false, "/proj", "/", &filters).unwrap();
    assert!(with.headers.len() <= without.headers.len());
    assert!(with.headers.iter().all(|h| without.headers.contains(h)));
    assert_eq!(with.headers, strings(&["stdio.h", "stdio.h"]));
}

#[test]
fn process_appends_to_headers_already_there() {
    let filters = tree(&[], &[]);
    let mut f = FeadersFile::new("/proj/a.c");
    assert_eq!(f.process("#include <a.h>\n", true, "/proj", "/", &filters), Ok(1));
    assert_eq!(f.process("#include <b.h>\n", true, "/proj", "/", &filters), Ok(2));
    assert_eq!(f.headers, strings(&["a.h", "b.h"]));
}

#[test]
fn anchor_is_made_canonical_under_the_working_directory() {
    let filters = tree(&["/proj/inc/b.h"], &[]);
    let mut f = FeadersFile::new("/proj/a.c");
    let n = f.process("#include \"b.h\"\n#include \"../inc/b.h\"\n", true, "sub/../inc", "/proj", &filters);
    assert_eq!(n, Ok(0));
    let mut g = FeadersFile::new("/proj/a.c");
    assert_eq!(g.process("#include \"b.h\"\n", true, "other", "/proj", &filters), Ok(1));
}

#[test]
fn local_match_counts_wherever_the_file_lies() {
    let filters = tree(&["/proj/deep/down/here/x.h"], &[]);
    assert!(filters.satisfies("deep/down/here/x.h", "/proj"));
    assert!(filters.satisfies("../proj/deep/./down/here/x.h", "/proj"));
    assert!(filters.satisfies("/proj/deep/down/here/x.h", "/anywhere"));
    assert!(!filters.satisfies("x.h", "/proj"));
}

#[test]
fn keep_targets_filters_in_order() {
    let filters = tree(&["/proj/b.h"], &["c.h"]);
    let targets = strings(&["a.h", "b.h", "c.h", "d.h", "a.h"]);
    assert_eq!(keep_targets(&targets, true, "/proj", &filters), strings(&["a.h", "d.h", "a.h"]));
    assert_eq!(keep_targets(&targets, false, "/proj", &filters), targets);
}

#[test]
fn local_header_yields_nothing_to_query() {
    let filters = tree(&["/proj/a.h", "/proj/b.h"], &[]);
    let record = scan_file("/proj/a.h", "#include \"b.h\"\n", true, "/proj", "/", &filters);
    assert!(matches!(record, Ok(None)));
}

#[test]
fn ignored_header_yields_nothing_to_query() {
    let filters = tree(&["/proj/x.c"], &["stdio.h"]);
    let record = scan_file("/proj/x.c", "#include <stdio.h>\n", true, "/proj", "/", &filters);
    assert!(matches!(record, Ok(None)));
}

#[test]
fn scanned_file_with_headers_is_a_record() {
    let filters = tree(&["/proj/x.c"], &["stdio.h"]);
    let record = scan_file("/proj/x.c", "#include <stdio.h>\n#include <zlib.h>\n", true, "/proj", "/", &filters)
        .unwrap()
        .unwrap();
    assert_eq!(record.path, "/proj/x.c");
    assert_eq!(record.headers, strings(&["zlib.h"]));
}

#[test]
fn without_deduplication_local_header_is_a_record() {
    let filters = tree(&["/proj/a.h", "/proj/b.h"], &[]);
    let record = scan_file("/proj/a.h", "#include \"b.h\"\n", false, "/proj", "/", &filters).unwrap().unwrap();
    assert_eq!(record.headers, strings(&["b.h"]));
}
