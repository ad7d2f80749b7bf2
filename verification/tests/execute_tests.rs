use dirsync::execute::{
    add_steps, jobs_of, overwrite_steps, remove_steps, steps_for, Executor, FsStep, Job, JobKind,
};
use dirsync::plan::SyncPlan;
use std::collections::HashMap;

fn strings(items: &[&str]) -> Vec<String> {
    items.iter().map(|s| s.to_string()).collect()
}

fn shown(step: &FsStep) -> String {
    match step {
        FsStep::CreateParents { of } => format!("parents {of}"),
        FsStep::CopyFile { from, to } => format!("copy {from} -> {to}"),
        FsStep::Rename { from, to } => format!("rename {from} -> {to}"),
        FsStep::Remove { path } => format!("remove {path}"),
    }
}

fn shown_all(steps: &[FsStep]) -> Vec<String> {
    steps.iter().map(shown).collect()
}

fn sample_plan() -> SyncPlan {
    SyncPlan {
        add: strings(&["new.txt"]),
        overwrite: strings(&["changed.txt"]),
        remove: strings(&["stale.txt", "old"]),
    }
}

#[test]
fn remove_is_one_step_on_the_destination() {
    assert_eq!(shown_all(&remove_steps("/dst", "stale.txt")), strings(&["remove /dst/stale.txt"]));
}

#[test]
fn add_creates_parents_then_copies() {
    assert_eq!(
        shown_all(&add_steps("/src", "/dst", "a/b.txt")),
        strings(&["parents /dst/a/b.txt", "copy /src/a/b.txt -> /dst/a/b.txt"])
    );
}

#[test]
fn overwrite_follows_the_replace_protocol() {
    assert_eq!(
        shown_all(&overwrite_steps("/src", "/dst", "a.txt")),
        strings(&[
            "copy /src/a.txt -> /dst/a.txt.tmp_new",
            "rename /dst/a.txt -> /dst/a.txt.tmp_old",
            "rename /dst/a.txt.tmp_new -> /dst/a.txt",
            "remove /dst/a.txt.tmp_old",
        ])
    );
}

#[test]
fn jobs_run_removals_then_overwrites_then_additions() {
    let jobs = jobs_of(&sample_plan(), false);
    let got: Vec<(JobKind, String)> = jobs.iter().map(|j| (j.kind, j.path.clone())).collect();
    assert_eq!(
        got,
        vec![
            (JobKind::Remove, "stale.txt".to_string()),
            (JobKind::Remove, "old".to_string()),
            (JobKind::Overwrite, "changed.txt".to_string()),
            (JobKind::Add, "new.txt".to_string()),
        ]
    );
}

#[test]
fn dry_run_has_no_jobs() {
    assert!(jobs_of(&sample_plan(), true).is_empty());
}

#[test]
fn steps_for_goes_by_kind() {
    let job = Job { kind: JobKind::Add, path: "x".to_string() };
    assert_eq!(steps_for(&job, "s", "d").len(), 2);
    let job = Job { kind: JobKind::Overwrite, path: "x".to_string() };
    assert_eq!(steps_for(&job, "s", "d").len(), 4);
    let job = Job { kind: JobKind::Remove, path: "x".to_string() };
    assert_eq!(shown_all(&steps_for(&job, "s", "d")), strings(&["remove d/x"]));
}

#[test]
fn executor_walks_every_step_when_all_succeed() {
    let mut executor = Executor::new(jobs_of(&sample_plan(), false));
    let mut seen = Vec::new();
    while let Some(step) = executor.current("/src", "/dst") {
        seen.push(shown(&step));
        executor.record(true);
    }
    assert_eq!(
        seen,
        strings(&[
            "remove /dst/stale.txt",
            "remove /dst/old",
            "copy /src/changed.txt -> /dst/changed.txt.tmp_new",
            "rename /dst/changed.txt -> /dst/changed.txt.tmp_old",
            "rename /dst/changed.txt.tmp_new -> /dst/changed.txt",
            "remove /dst/changed.txt.tmp_old",
            "parents /dst/new.txt",
            "copy /src/new.txt -> /dst/new.txt",
        ])
    );
    assert!(executor.is_finished());
    assert_eq!(executor.position(), 4);
    assert_eq!(executor.failures(), 0);
}

#[test]
fn a_failed_step_ends_its_job_and_the_list_goes_on() {
    let mut executor = Executor::new(jobs_of(&sample_plan(), false));
    let mut seen = Vec::new();
    let mut count = 0;
    while let Some(step) = executor.current("/src", "/dst") {
        seen.push(shown(&step));
        count += 1;
        // the first removal and the second step of the overwrite fail
        executor.record(count != 1 && count != 4);
    }
    assert_eq!(
        seen,
        strings(&[
            "remove /dst/stale.txt",
            "remove /dst/old",
            "copy /src/changed.txt -> /dst/changed.txt.tmp_new",
            "rename /dst/changed.txt -> /dst/changed.txt.tmp_old",
            "parents /dst/new.txt",
            "copy /src/new.txt -> /dst/new.txt",
        ])
    );
    assert_eq!(executor.position(), 4);
    assert_eq!(executor.failures(), 2);
}

#[test]
fn finished_executor_stays_finished() {
    let mut executor = Executor::new(Vec::new());
    assert!(executor.is_finished());
    assert!(executor.current("s", "d").is_none());
    executor.record(false);
    assert!(executor.is_finished());
    assert_eq!(executor.failures(), 0);
    assert_eq!(executor.position(), 0);
}

/// Carries out one step on a map from path to content, as a file system
/// would on regular files; `false` when the step cannot succeed.
fn apply(files: &mut HashMap<String, Vec<u8>>, step: &FsStep) -> bool {
    match step {
        FsStep::CreateParents { .. } => true,
        FsStep::CopyFile { from, to } => match files.get(from).cloned() {
            Some(content) if from != to => {
                files.insert(to.clone(), content);
                true
            },
            _ => false,
        },
        FsStep::Rename { from, to } => match files.remove(from) {
            Some(content) => {
                files.insert(to.clone(), content);
                true
            },
            None => false,
        },
        FsStep::Remove { path } => files.remove(path).is_some(),
    }
}

#[test]
fn overwrite_leaves_the_new_content_and_no_temporary_file() {
    let mut files: HashMap<String, Vec<u8>> = HashMap::new();
    files.insert("/src/a.txt".to_string(), b"new".to_vec());
    files.insert("/dst/a.txt".to_string(), b"old".to_vec());
    files.insert("/dst/a.txt.tmp_old".to_string(), b"debris".to_vec());
    files.insert("/dst/b.txt".to_string(), b"other".to_vec());
    let steps = overwrite_steps("/src", "/dst", "a.txt");
    for (done, step) in steps.iter().enumerate() {
        assert!(apply(&mut files, step));
        if done < 1 {
            assert_eq!(files["/dst/a.txt"], b"old".to_vec());
        }
    }
    assert_eq!(files["/dst/a.txt"], b"new".to_vec());
    assert_eq!(files["/src/a.txt"], b"new".to_vec());
    assert_eq!(files["/dst/b.txt"], b"other".to_vec());
    assert!(!files.contains_key("/dst/a.txt.tmp_new"));
    assert!(!files.contains_key("/dst/a.txt.tmp_old"));
    assert_eq!(files.len(), 3);
}

#[test]
fn overwrite_within_one_root_keeps_the_content() {
    let mut files: HashMap<String, Vec<u8>> = HashMap::new();
    files.insert("/d/a".to_string(), b"same".to_vec());
    for step in overwrite_steps("/d", "/d", "a").iter() {
        assert!(apply(&mut files, step));
    }
    assert_eq!(files["/d/a"], b"same".to_vec());
    assert_eq!(files.len(), 1);
}

#[test]
fn add_copies_the_source_content() {
    let mut files: HashMap<String, Vec<u8>> = HashMap::new();
    files.insert("/src/n/a".to_string(), b"X".to_vec());
    for step in add_steps("/src", "/dst", "n/a").iter() {
        assert!(apply(&mut files, step));
    }
    assert_eq!(files["/dst/n/a"], b"X".to_vec());
    assert_eq!(files.len(), 2);
}
