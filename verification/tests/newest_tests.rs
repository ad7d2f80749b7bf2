use dirsync::collect::Entry;
use dirsync::newest::{keep_newest_of_groups, keep_only_newest};

fn strings(items: &[&str]) -> Vec<String> {
    items.iter().map(|s| s.to_string()).collect()
}

fn files(items: &[&str]) -> Vec<Entry> {
    items.iter().map(|s| Entry { path: s.to_string(), is_dir: false }).collect()
}

fn paths(entries: &[Entry]) -> Vec<String> {
    entries.iter().map(|e| e.path.clone()).collect()
}

#[test]
fn newer_of_two_survives() {
    let mut entries = files(&["logs/1.log", "logs/2.log"]);
    keep_only_newest(&mut entries, &vec![Some(100), Some(200)], &strings(&["logs/*"]));
    assert_eq!(paths(&entries), strings(&["logs/2.log"]));
}

#[test]
fn newer_first_survives_too() {
    let mut entries = files(&["logs/1.log", "logs/2.log"]);
    keep_only_newest(&mut entries, &vec![Some(200), Some(100)], &strings(&["logs/*"]));
    assert_eq!(paths(&entries), strings(&["logs/1.log"]));
}

#[test]
fn equal_times_keep_the_first_encountered() {
    let mut entries = files(&["logs/1.log", "logs/2.log", "logs/3.log"]);
    keep_only_newest(&mut entries, &vec![Some(7), Some(7), Some(7)], &strings(&["logs/*"]));
    assert_eq!(paths(&entries), strings(&["logs/1.log"]));
}

#[test]
fn unmatched_entries_are_untouched() {
    let mut entries = files(&["a.txt", "logs/1.log", "b.txt", "logs/2.log", "c.txt"]);
    keep_only_newest(
        &mut entries,
        &vec![Some(1), Some(5), Some(2), Some(4), Some(3)],
        &strings(&["logs/*"]),
    );
    assert_eq!(paths(&entries), strings(&["a.txt", "logs/1.log", "b.txt", "c.txt"]));
}

#[test]
fn directories_sharing_a_pattern_compete() {
    let mut entries = files(&["a/dump.bin", "b/dump.bin", "c/dump.bin"]);
    keep_only_newest(&mut entries, &vec![Some(3), Some(9), Some(5)], &strings(&["*/dump.bin"]));
    assert_eq!(paths(&entries), strings(&["b/dump.bin"]));
}

#[test]
fn groups_go_by_the_first_matching_pattern() {
    let mut entries = files(&["logs/a.log", "logs/b.txt", "logs/c.log", "logs/d.txt"]);
    keep_only_newest(
        &mut entries,
        &vec![Some(1), Some(2), Some(3), Some(4)],
        &strings(&["*.log", "logs/*"]),
    );
    assert_eq!(paths(&entries), strings(&["logs/c.log", "logs/d.txt"]));
}

#[test]
fn entries_without_a_time_are_left_alone() {
    let mut entries = files(&["logs/1.log", "logs/2.log", "logs/3.log"]);
    keep_only_newest(&mut entries, &vec![Some(5), None], &strings(&["logs/*"]));
    assert_eq!(paths(&entries), strings(&["logs/1.log", "logs/2.log", "logs/3.log"]));
    let mut entries = files(&["logs/1.log", "logs/2.log", "logs/3.log"]);
    keep_only_newest(&mut entries, &vec![Some(5), None, Some(6)], &strings(&["logs/*"]));
    assert_eq!(paths(&entries), strings(&["logs/2.log", "logs/3.log"]));
}

#[test]
fn no_patterns_change_nothing() {
    let mut entries = files(&["a", "b"]);
    keep_only_newest(&mut entries, &vec![Some(1), Some(2)], &Vec::new());
    assert_eq!(paths(&entries), strings(&["a", "b"]));
}

#[test]
fn a_winner_that_is_beaten_later_is_removed() {
    let mut entries = files(&["l/1", "l/2", "l/3", "l/4"]);
    keep_only_newest(&mut entries, &vec![Some(1), Some(3), Some(2), Some(4)], &strings(&["l/*"]));
    assert_eq!(paths(&entries), strings(&["l/4"]));
}

#[test]
fn directory_flags_are_kept() {
    let mut entries = vec![
        Entry { path: "d".to_string(), is_dir: true },
        Entry { path: "d/x".to_string(), is_dir: false },
    ];
    keep_only_newest(&mut entries, &vec![Some(1), Some(1)], &strings(&["d/*"]));
    assert_eq!(entries.len(), 2);
    assert!(entries[0].is_dir);
    assert!(!entries[1].is_dir);
}

#[test]
fn groups_given_by_number_compete_separately() {
    let mut entries = files(&["a", "b", "c", "d", "e"]);
    keep_newest_of_groups(
        &mut entries,
        &vec![Some(5), Some(9), Some(7), Some(7), Some(1)],
        &vec![Some(3), Some(usize::MAX), Some(3), Some(usize::MAX), None],
    );
    assert_eq!(paths(&entries), strings(&["b", "c", "e"]));
}

#[test]
fn groups_shorter_than_the_entries_leave_the_rest_alone() {
    let mut entries = files(&["a", "b", "c"]);
    keep_newest_of_groups(&mut entries, &vec![Some(1), Some(2), Some(3)], &vec![Some(0), Some(0)]);
    assert_eq!(paths(&entries), strings(&["b", "c"]));
}
