use feaders::cli::{decide, exit_status, program_name, release, usage, version, Command};
use feaders::settings::{
    check_loadable, field_of, list_of, load_settings, unwrap_string, unwrap_strings, ConfigError,
    LINE_LIMIT,
};

fn some(s: &str) -> Option<String> {
    Some(s.to_string())
}

const CONFIG: &str = "glibc:\n  - stdio.h\n  - stdlib.h\n  - 42\nrepository:\n  title: fedora\n  version: 23\n  arch: x86_64\npaths:\n  - /usr/include/\n  - /usr/local/include/\n";

#[test]
fn absent_setting_is_the_empty_text() {
    assert_eq!(unwrap_string(&None), "");
    assert_eq!(unwrap_string(&some("fedora")), "fedora");
    assert_eq!(unwrap_strings(&vec![some("a"), None, some("")]), vec!["a", "", ""]);
}

#[test]
fn settings_are_read_from_yaml() {
    let s = load_settings(CONFIG).unwrap();
    assert_eq!(s.ignored, vec!["stdio.h", "stdlib.h", ""]);
    assert_eq!(s.paths, vec!["/usr/include/", "/usr/local/include/"]);
    assert_eq!(s.repository.name, "fedora");
    assert_eq!(s.repository.version, "");
    assert_eq!(s.repository.arch, "x86_64");
}

#[test]
fn missing_repository_fields_are_empty() {
    let s = load_settings("glibc: []\npaths: [/p/]\n").unwrap();
    assert!(s.ignored.is_empty());
    assert_eq!(s.paths, vec!["/p/"]);
    assert_eq!(s.repository.name, "");
    assert_eq!(s.repository.version, "");
    assert_eq!(s.repository.arch, "");
}

#[test]
fn text_that_is_no_yaml_is_unreadable() {
    assert_eq!(load_settings("glibc: [a, b").unwrap_err(), ConfigError::Unreadable);
}

#[test]
fn text_without_a_document_is_unreadable() {
    assert_eq!(load_settings("").unwrap_err(), ConfigError::Unreadable);
}

#[test]
fn an_entry_that_is_no_list_is_refused() {
    assert_eq!(load_settings("glibc: 3\npaths: []\n").unwrap_err(), ConfigError::NotAList);
    assert_eq!(load_settings("glibc: []\n").unwrap_err(), ConfigError::NotAList);
    assert_eq!(load_settings("paths: []\n").unwrap_err(), ConfigError::NotAList);
}

#[test]
fn a_line_over_the_limit_is_not_loadable() {
    let at_limit = format!("glibc: []\npaths: [\"{}\"]\n", "p".repeat(LINE_LIMIT - 11));
    assert!(at_limit.lines().any(|l| l.chars().count() == LINE_LIMIT));
    assert!(check_loadable(&at_limit));
    assert_eq!(load_settings(&at_limit).unwrap().paths, vec!["p".repeat(LINE_LIMIT - 11)]);
    let over = format!("glibc: []\npaths: [\"{}\"]\n", "p".repeat(LINE_LIMIT - 10));
    assert!(!check_loadable(&over));
    assert_eq!(load_settings(&over).unwrap_err(), ConfigError::Unreadable);
}

#[test]
fn the_limit_counts_characters_between_line_feeds() {
    assert!(check_loadable(""));
    assert!(check_loadable(&"\n".repeat(1000)));
    assert!(check_loadable(&format!("{}\n{}", "\u{e9}".repeat(LINE_LIMIT), "x".repeat(LINE_LIMIT))));
    assert!(!check_loadable(&format!("{}\r{}", "x".repeat(LINE_LIMIT), "y")));
    assert!(!check_loadable(&"x".repeat(LINE_LIMIT + 1)));
}

#[test]
fn a_text_with_an_anchor_is_not_loadable() {
    let text = "glibc: &names [stdio.h]\npaths: *names\n";
    assert!(!check_loadable(text));
    assert_eq!(load_settings(text).unwrap_err(), ConfigError::Unreadable);
}

#[test]
fn the_deepest_loadable_nestings_are_parsed() {
    let entries = "- ".repeat(LINE_LIMIT / 2);
    assert!(check_loadable(&entries));
    assert_eq!(load_settings(&entries).unwrap_err(), ConfigError::NotAList);

    let mut stairs = String::new();
    for column in 0..LINE_LIMIT - 2 {
        stairs.push_str(&" ".repeat(column));
        stairs.push_str("a:\n");
        stairs.push_str(&" ".repeat(column));
        stairs.push_str("-\n");
    }
    assert!(check_loadable(&stairs));
    assert_eq!(load_settings(&stairs).unwrap_err(), ConfigError::NotAList);
    for _ in 0..250 {
        stairs.push_str(&" ".repeat(LINE_LIMIT - 2));
        stairs.push_str("[\n");
    }
    for _ in 0..250 {
        stairs.push_str(&" ".repeat(LINE_LIMIT - 2));
        stairs.push_str("]\n");
    }
    assert!(check_loadable(&stairs));
    assert_eq!(load_settings(&stairs).unwrap_err(), ConfigError::NotAList);

    let brackets = format!("glibc: {}{}\npaths: []\n", "[".repeat(120), "]".repeat(120));
    assert!(check_loadable(&brackets));
    assert_eq!(load_settings(&brackets).unwrap().ignored, vec![""]);
}

#[test]
fn entries_come_from_what_was_read() {
    assert_eq!(list_of(&Some(Some(vec![some("a"), None]))), Ok(vec!["a".to_string(), String::new()]));
    assert_eq!(list_of(&Some(None)), Err(ConfigError::NotAList));
    assert_eq!(list_of(&None), Err(ConfigError::Unreadable));
    assert_eq!(field_of(&Some(some("x"))), Ok("x".to_string()));
    assert_eq!(field_of(&Some(None)), Ok(String::new()));
    assert_eq!(field_of(&None), Err(ConfigError::Unreadable));
}

#[test]
fn help_comes_before_everything() {
    assert!(matches!(decide(true, true, true, true, &vec!["p".to_string()]), Command::Help));
    assert!(matches!(decide(true, false, false, false, &Vec::new()), Command::Help));
}

#[test]
fn version_comes_before_the_path() {
    assert!(matches!(decide(false, true, false, false, &Vec::new()), Command::Version));
}

#[test]
fn missing_path_is_refused() {
    let c = decide(false, false, true, true, &Vec::new());
    assert!(matches!(c, Command::Usage));
    assert_eq!(exit_status(&c), Some(-1));
}

#[test]
fn first_free_argument_is_the_root() {
    let c = decide(false, false, true, false, &vec!["src".to_string(), "more".to_string()]);
    match &c {
        Command::Run { root, dedup, verbose } => {
            assert_eq!(root, "src");
            assert!(*dedup);
            assert!(!*verbose);
        }
        _ => panic!("expected a run"),
    }
    assert_eq!(exit_status(&c), None);
}

#[test]
fn help_and_version_end_well() {
    assert_eq!(exit_status(&Command::Help), Some(0));
    assert_eq!(exit_status(&Command::Version), Some(0));
}

#[test]
fn program_name_is_the_last_segment() {
    assert_eq!(program_name("/usr/bin/feaders"), "feaders");
    assert_eq!(program_name("feaders"), "feaders");
    assert_eq!(program_name("./target/debug/feaders"), "feaders");
    assert_eq!(program_name("dir/"), "");
}

#[test]
fn usage_and_version_lines() {
    assert_eq!(usage("feaders"), "Usage: feaders [options] PATH");
    assert_eq!(release(), "0.2.0");
    assert_eq!(version("feaders"), "feaders - 0.2.0");
}
