use dirsync::collect::Filter;
use dirsync::equality::OverwriteMode;
use dirsync::execute::{Executor, FsStep, JobKind};
use dirsync::task::{only_newest_patterns, FileRecord, Task, TaskError};
use std::collections::BTreeMap;

fn strings(items: &[&str]) -> Vec<String> {
    items.iter().map(|s| s.to_string()).collect()
}

fn task(includes: &[&str], only_newest: &[&str], mode: OverwriteMode) -> Task {
    Task {
        src: "/src".to_string(),
        dest: "/dst".to_string(),
        filter: Filter { includes: strings(includes), excludes: Vec::new(), required: Vec::new() },
        only_newest: strings(only_newest),
        overwrite_mode: mode,
        dry_run: false,
    }
}

fn root() -> FileRecord {
    FileRecord { path: String::new(), is_dir: true, parent: 0, created: 0, content: Vec::new() }
}

fn dir(path: &str, parent: usize) -> FileRecord {
    FileRecord { path: path.to_string(), is_dir: true, parent, created: 0, content: Vec::new() }
}

fn file(path: &str, parent: usize, created: u128, content: &str) -> FileRecord {
    FileRecord {
        path: path.to_string(),
        is_dir: false,
        parent,
        created,
        content: content.as_bytes().to_vec(),
    }
}

#[test]
fn scenario_all_files_added_to_empty_destination() {
    let source = vec![root(), file("a.txt", 0, 1, "X"), file("b.txt", 0, 2, "Y")];
    let dest = vec![root()];
    let done = task(&["*"], &[], OverwriteMode::FastComp).process(&source, &dest).unwrap();
    assert_eq!(done.plan.add, strings(&["a.txt", "b.txt"]));
    assert!(done.plan.overwrite.is_empty());
    assert!(done.plan.remove.is_empty());
    let jobs: Vec<(JobKind, String)> = done.jobs.iter().map(|j| (j.kind, j.path.clone())).collect();
    assert_eq!(
        jobs,
        vec![(JobKind::Add, "a.txt".to_string()), (JobKind::Add, "b.txt".to_string())]
    );
}

#[test]
fn scenario_always_different_overwrites_and_removes() {
    let source = vec![root(), file("a.txt", 0, 1, "X")];
    let dest = vec![root(), file("a.txt", 0, 1, "old"), file("b.txt", 0, 1, "stale")];
    let done = task(&["*"], &[], OverwriteMode::Always).process(&source, &dest).unwrap();
    assert!(done.plan.add.is_empty());
    assert_eq!(done.plan.overwrite, strings(&["a.txt"]));
    assert_eq!(done.plan.remove, strings(&["b.txt"]));
}

#[test]
fn scenario_only_newest_keeps_the_newer_log() {
    let source = vec![
        root(),
        dir("logs", 0),
        file("logs/1.log", 1, 100, "older"),
        file("logs/2.log", 1, 200, "newer"),
    ];
    let dest = vec![root()];
    let done = task(&["*"], &["logs/*"], OverwriteMode::FastComp).process(&source, &dest).unwrap();
    assert_eq!(done.plan.add, strings(&["logs/2.log"]));
}

#[test]
fn only_newest_glob_covers_what_lies_in_a_directory() {
    let source = vec![
        root(),
        dir("logs", 0),
        file("logs/1.log", 1, 300, "a"),
        file("logs/2.log", 1, 200, "b"),
        file("keep.txt", 0, 1, "c"),
    ];
    let dest = vec![root()];
    let done = task(&["*"], &["logs"], OverwriteMode::FastComp).process(&source, &dest).unwrap();
    assert_eq!(done.plan.add, strings(&["logs/1.log", "keep.txt"]));
}

#[test]
fn policies_decide_the_overwrite_list() {
    let source = vec![root(), file("same", 0, 1, "abc"), file("swap", 0, 1, "abc"), file("grow", 0, 1, "abcd")];
    let dest = vec![root(), file("same", 0, 1, "abc"), file("swap", 0, 1, "abd"), file("grow", 0, 1, "abc")];
    let plan = |mode| task(&["*"], &[], mode).process(&source, &dest).unwrap().plan;
    assert_eq!(plan(OverwriteMode::Always).overwrite, strings(&["same", "swap", "grow"]));
    assert!(plan(OverwriteMode::Never).overwrite.is_empty());
    assert_eq!(plan(OverwriteMode::FastComp).overwrite, strings(&["grow"]));
    assert_eq!(plan(OverwriteMode::DeepComp).overwrite, strings(&["swap", "grow"]));
}

#[test]
fn destination_directories_outside_the_view_are_removed() {
    let source = vec![root(), dir("docs", 0), file("docs/a.md", 1, 1, "a")];
    let dest = vec![
        root(),
        dir("docs", 0),
        file("docs/a.md", 1, 1, "a"),
        dir("old", 0),
        file("old/x", 3, 1, "x"),
    ];
    let done = task(&["."], &[], OverwriteMode::FastComp).process(&source, &dest).unwrap();
    assert!(done.plan.add.is_empty());
    assert!(done.plan.overwrite.is_empty());
    assert_eq!(done.plan.remove, strings(&["old", "old/x"]));
}

#[test]
fn dry_run_shows_the_plan_without_jobs() {
    let source = vec![root(), file("a.txt", 0, 1, "X")];
    let dest = vec![root()];
    let mut t = task(&["*"], &[], OverwriteMode::FastComp);
    t.dry_run = true;
    let done = t.process(&source, &dest).unwrap();
    assert_eq!(done.plan.add, strings(&["a.txt"]));
    assert!(done.jobs.is_empty());
}

#[test]
fn source_that_is_no_directory_is_refused() {
    let t = task(&["*"], &[], OverwriteMode::FastComp);
    assert_eq!(t.validate(false), Err(TaskError::SourceNotDirectory));
    assert!(matches!(t.process(&Vec::new(), &Vec::new()), Err(TaskError::SourceNotDirectory)));
    let not_a_dir = vec![file("", 0, 1, "x")];
    assert!(matches!(t.process(&not_a_dir, &Vec::new()), Err(TaskError::SourceNotDirectory)));
}

#[test]
fn pattern_with_a_backslash_is_refused() {
    let t = task(&["a\\b"], &[], OverwriteMode::FastComp);
    assert_eq!(t.validate(true), Err(TaskError::InvalidPattern));
    assert_eq!(t.validate(false), Err(TaskError::SourceNotDirectory));
    let t = task(&["*"], &["logs\\*"], OverwriteMode::FastComp);
    assert_eq!(t.validate(true), Err(TaskError::InvalidPattern));
    assert!(matches!(t.process(&vec![root()], &vec![root()]), Err(TaskError::InvalidPattern)));
    let mut t = task(&["*"], &[], OverwriteMode::FastComp);
    t.filter.excludes = strings(&["x", "\\"]);
    assert_eq!(t.validate(true), Err(TaskError::InvalidPattern));
    t.filter.excludes = Vec::new();
    t.filter.required = strings(&["\\"]);
    assert_eq!(t.validate(true), Err(TaskError::InvalidPattern));
}

#[test]
fn malformed_glob_is_refused() {
    assert_eq!(task(&["["], &[], OverwriteMode::FastComp).validate(true), Err(TaskError::InvalidPattern));
    assert_eq!(
        task(&["*"], &["{a,b"], OverwriteMode::FastComp).validate(true),
        Err(TaskError::InvalidPattern)
    );
    assert_eq!(task(&[".", "*.rs", "a/**/b", "[ab]", "{a,b}"], &[], OverwriteMode::FastComp).validate(true), Ok(()));
}

#[test]
fn valid_task_passes() {
    assert_eq!(task(&["*"], &["logs"], OverwriteMode::DeepComp).validate(true), Ok(()));
}

#[test]
fn only_newest_patterns_add_the_children_glob() {
    assert_eq!(
        only_newest_patterns(&strings(&["logs", "tmp/*.bak"])),
        strings(&["logs", "logs/*", "tmp/*.bak", "tmp/*.bak/*"])
    );
    assert!(only_newest_patterns(&Vec::new()).is_empty());
}

/// The files of a tree under `root`, as a map from full path to content.
fn files_under(root: &str, records: &[FileRecord], into: &mut BTreeMap<String, Vec<u8>>) {
    for record in records {
        if !record.is_dir {
            into.insert(format!("{root}/{}", record.path), record.content.clone());
        }
    }
}

fn apply(files: &mut BTreeMap<String, Vec<u8>>, step: &FsStep) -> bool {
    match step {
        FsStep::CreateParents { .. } => true,
        FsStep::CopyFile { from, to } => match files.get(from).cloned() {
            Some(content) if from != to => {
                files.insert(to.clone(), content);
                true
            },
            _ => false,
        },
        FsStep::Rename { from, to } => match files.remove(from) {
            Some(content) => {
                files.insert(to.clone(), content);
                true
            },
            None => false,
        },
        FsStep::Remove { path } => files.remove(path).is_some(),
    }
}

fn mirrored(source: &[FileRecord], dest: &[FileRecord], mode: OverwriteMode) -> BTreeMap<String, Vec<u8>> {
    let done = task(&["*"], &[], mode).process(&source.to_vec(), &dest.to_vec()).unwrap();
    let mut files = BTreeMap::new();
    files_under("/src", source, &mut files);
    files_under("/dst", dest, &mut files);
    let mut executor = Executor::new(done.jobs);
    while let Some(step) = executor.current("/src", "/dst") {
        let ok = apply(&mut files, &step);
        executor.record(ok);
    }
    assert_eq!(executor.failures(), 0);
    files.into_iter().filter(|(path, _)| path.starts_with("/dst/")).collect()
}

#[test]
fn after_execution_the_destination_equals_the_source() {
    let source = vec![root(), file("a.txt", 0, 1, "X"), file("b.txt", 0, 2, "Y")];
    let got = mirrored(&source, &[root()], OverwriteMode::FastComp);
    let mut expected = BTreeMap::new();
    expected.insert("/dst/a.txt".to_string(), b"X".to_vec());
    expected.insert("/dst/b.txt".to_string(), b"Y".to_vec());
    assert_eq!(got, expected);
}

#[test]
fn after_execution_changed_and_stale_files_are_settled() {
    let source = vec![root(), file("a.txt", 0, 1, "X"), file("c.txt", 0, 1, "same")];
    let dest = vec![
        root(),
        file("a.txt", 0, 1, "old"),
        file("b.txt", 0, 1, "stale"),
        file("c.txt", 0, 1, "same"),
    ];
    let got = mirrored(&source, &dest, OverwriteMode::DeepComp);
    let mut expected = BTreeMap::new();
    expected.insert("/dst/a.txt".to_string(), b"X".to_vec());
    expected.insert("/dst/c.txt".to_string(), b"same".to_vec());
    assert_eq!(got, expected);
}
