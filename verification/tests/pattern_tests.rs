use dirsync::pattern::{
    find_match, is_match, is_portable, is_valid_pattern, matches_any, settled_without_glob,
};

fn strings(items: &[&str]) -> Vec<String> {
    items.iter().map(|s| s.to_string()).collect()
}

#[test]
fn glob_star_matches_extension() {
    assert!(is_match("*.txt", "a.txt"));
    assert!(!is_match("*.txt", "a.rs"));
}

#[test]
fn glob_star_crosses_separators() {
    assert!(is_match("*", "logs/1.log"));
    assert!(is_match("logs/*", "logs/deep/1.log"));
    assert!(!is_match("logs/*", "logs"));
}

#[test]
fn glob_is_case_sensitive() {
    assert!(is_match("README", "README"));
    assert!(!is_match("README", "readme"));
}

#[test]
fn root_pattern_matches_only_the_empty_path() {
    assert!(is_match(".", ""));
    assert!(!is_match(".", "a"));
    assert!(!is_match(".", "."));
}

#[test]
fn literal_pattern_needs_the_whole_path() {
    assert!(is_match("src/lib.rs", "src/lib.rs"));
    assert!(!is_match("src/lib.rs", "src/lib.rs.bak"));
    assert!(!is_match("lib.rs", "src/lib.rs"));
}

#[test]
fn malformed_glob_matches_nothing() {
    assert!(!is_match("[", "["));
    assert!(!is_match("{a,b", "a"));
}

#[test]
fn backslash_never_matches() {
    assert!(!is_match("a\\*", "a*"));
    assert!(!is_match("*", "a\\b"));
    assert!(is_match("*", "a/b"));
}

#[test]
fn portable_means_no_backslash() {
    assert!(is_portable(""));
    assert!(is_portable("logs/*.log"));
    assert!(!is_portable("logs\\*.log"));
    assert!(!is_portable("\\"));
}

#[test]
fn find_match_returns_the_first_index() {
    let patterns = strings(&["*.rs", "src/*", "*"]);
    assert_eq!(find_match("src/lib.rs", &patterns), Some(0));
    assert_eq!(find_match("src/notes.md", &patterns), Some(1));
    assert_eq!(find_match("Cargo.toml", &patterns), Some(2));
}

#[test]
fn find_match_is_none_without_a_match() {
    let patterns = strings(&["*.rs", "src/*"]);
    assert_eq!(find_match("docs/a.md", &patterns), None);
    assert_eq!(find_match("a", &Vec::new()), None);
}

#[test]
fn find_match_depends_on_list_order() {
    assert_eq!(find_match("a.txt", &strings(&["a.*", "*.txt"])), Some(0));
    assert_eq!(find_match("a.txt", &strings(&["*.md", "*.txt", "a.*"])), Some(1));
}

#[test]
fn matches_any_follows_find_match() {
    let patterns = strings(&[".", "*.log"]);
    assert!(matches_any("", &patterns));
    assert!(matches_any("x.log", &patterns));
    assert!(!matches_any("x.txt", &patterns));
}

#[test]
fn settled_without_glob_leaves_portable_globs_open() {
    assert_eq!(settled_without_glob(".", ""), Some(true));
    assert_eq!(settled_without_glob(".", "a"), Some(false));
    assert_eq!(settled_without_glob("a\\b", "a"), Some(false));
    assert_eq!(settled_without_glob("*", "a\\b"), Some(false));
    assert_eq!(settled_without_glob("*", "a"), None);
    assert_eq!(settled_without_glob("..", ""), None);
}

#[test]
fn valid_patterns_are_portable_well_formed_globs() {
    assert!(is_valid_pattern("."));
    assert!(is_valid_pattern("*"));
    assert!(is_valid_pattern("logs/**/*.log"));
    assert!(is_valid_pattern(""));
    assert!(!is_valid_pattern("["));
    assert!(!is_valid_pattern("a{b"));
    assert!(!is_valid_pattern("a\\*"));
}
