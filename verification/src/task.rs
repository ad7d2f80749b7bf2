//! A task: one source tree, one destination tree, and the rules by which
//! the second is made to mirror the first.

use crate::collect::{
    collect, collected, entry_views, list_paths, listed, marks_for, tree_views, Entry,
    EntryView, Filter, FilterView, TreeEntry, TreeEntryView,
};
use crate::equality::{files_equal, judged_equal, OverwriteMode};
use crate::execute::{job_list, job_views, jobs_of, Job};
use crate::newest::{groups_for, keep_only_newest, reduced};
use crate::pattern::{is_valid_pattern, texts, valid_pattern};
use crate::plan::{
    entry_paths, equal_at, generate_to_do_list, lemma_shared_file_follows_verdict,
    needs_comparison, planned, SyncPlan, SyncPlanView,
};
use vstd::prelude::*;

verus! {

/// The configuration of one run.
#[derive(Clone, Debug, PartialEq, Eq)]
pub struct Task {
    /// The root of the source tree.
    pub src: String,
    /// The root of the destination tree.
    pub dest: String,
    /// Which source entries are mirrored.
    pub filter: Filter,
    /// Globs of which only the newest match is mirrored. Each stands for
    /// itself and for what lies directly below it.
    pub only_newest: Vec<String>,
    /// How an existing destination file is compared with its source.
    pub overwrite_mode: OverwriteMode,
    /// Whether the plan is only shown, not carried out.
    pub dry_run: bool,
}

/// What the contracts read of a `Task`.
pub struct TaskView {
    pub src: Seq<char>,
    pub dest: Seq<char>,
    pub filter: FilterView,
    pub only_newest: Seq<Seq<char>>,
    pub overwrite_mode: OverwriteMode,
    pub dry_run: bool,
}

impl View for Task {
    type V = TaskView;

    open spec fn view(&self) -> TaskView {
        TaskView {
            src: self.src@,
            dest: self.dest@,
            filter: self.filter@,
            only_newest: texts(self.only_newest@),
            overwrite_mode: self.overwrite_mode,
            dry_run: self.dry_run,
        }
    }
}

/// Why a task is refused before anything is read or changed.
#[derive(Clone, Copy, Debug, PartialEq, Eq, Structural)]
pub enum TaskError {
    /// The source path is not a directory.
    SourceNotDirectory,
    /// A pattern could never match: it is no well-formed glob, or it holds
    /// a backslash, which means different things on different platforms.
    InvalidPattern,
}

/// One entry of a tree held in memory: its place in the listing, its
/// creation time and, for a file, its content.
#[derive(Clone, Debug, PartialEq, Eq)]
pub struct FileRecord {
    /// The path relative to the root of the tree; empty for the root.
    pub path: String,
    pub is_dir: bool,
    /// The index of the directory that holds this entry.
    pub parent: usize,
    /// The creation time, in any unit that grows with time.
    pub created: u128,
    /// The bytes of a file; empty for a directory.
    pub content: Vec<u8>,
}

/// What the contracts read of a `FileRecord`.
pub struct FileRecordView {
    pub path: Seq<char>,
    pub is_dir: bool,
    pub parent: int,
    pub created: u128,
    pub content: Seq<u8>,
}

impl View for FileRecord {
    type V = FileRecordView;

    open spec fn view(&self) -> FileRecordView {
        FileRecordView {
            path: self.path@,
            is_dir: self.is_dir,
            parent: self.parent as int,
            created: self.created,
            content: self.content@,
        }
    }
}

/// The plan of a task together with the jobs that carry it out.
#[derive(Clone, Debug, PartialEq, Eq)]
pub struct Processed {
    /// The three lists, as they are shown for a dry run.
    pub plan: SyncPlan,
    /// The jobs in running order; none for a dry run.
    pub jobs: Vec<Job>,
}

/// The views of a list of records.
pub open spec fn record_views(records: Seq<FileRecord>) -> Seq<FileRecordView> {
    Seq::new(records.len(), |i: int| records[i]@)
}

/// The tree listing that a list of records stands for.
pub open spec fn listing_of(records: Seq<FileRecordView>) -> Seq<TreeEntryView> {
    Seq::new(
        records.len(),
        |i: int|
            TreeEntryView {
                path: records[i].path,
                is_dir: records[i].is_dir,
                parent: records[i].parent,
            },
    )
}

/// The index of the first record at or after `from` whose path is `path`.
pub open spec fn position_from(records: Seq<FileRecordView>, path: Seq<char>, from: int) -> Option<
    int,
>
    decreases records.len() - from,
{
    if from < 0 || from >= records.len() {
        None
    } else if records[from].path == path {
        Some(from)
    } else {
        position_from(records, path, from + 1)
    }
}

/// The creation time recorded for `path`, if the tree holds it.
pub open spec fn created_for(records: Seq<FileRecordView>, path: Seq<char>) -> Option<u128> {
    match position_from(records, path, 0) {
        Some(k) => Some(records[k].created),
        None => None,
    }
}

/// The content recorded for `path`; empty if the tree does not hold it.
pub open spec fn content_for(records: Seq<FileRecordView>, path: Seq<char>) -> Seq<u8> {
    match position_from(records, path, 0) {
        Some(k) => records[k].content,
        None => Seq::empty(),
    }
}

/// Pattern `i` of the expanded only-newest list: glob `i / 2` itself at an
/// even place, and that glob followed by `/*` at the odd place after it.
pub open spec fn expanded_item(globs: Seq<Seq<char>>, i: int) -> Seq<char> {
    if i % 2 == 0 {
        globs[i / 2]
    } else {
        globs[i / 2] + "/*"@
    }
}

/// The only-newest patterns that a list of globs stands for.
pub open spec fn expanded(globs: Seq<Seq<char>>) -> Seq<Seq<char>> {
    Seq::new(2 * globs.len(), |i: int| expanded_item(globs, i))
}

/// The paths found in a destination tree.
pub open spec fn dest_paths(dest: Seq<FileRecordView>) -> Seq<Seq<char>> {
    listed(listing_of(dest))
}

/// The source entries that a task mirrors: those that pass its filter,
/// reduced to the newest of each only-newest group if it names any.
pub open spec fn task_included(task: TaskView, source: Seq<FileRecordView>) -> Seq<EntryView> {
    let passed = collected(listing_of(source), marks_for(listing_of(source), task.filter));
    if task.only_newest.len() > 0 {
        reduced(
            passed,
            Seq::new(passed.len(), |i: int| created_for(source, passed[i].path)),
            groups_for(entry_paths(passed), expanded(task.only_newest)),
        )
    } else {
        passed
    }
}

/// The verdicts of the task's equality policy on its included entries:
/// `true` for a file that the destination holds and that is judged equal to
/// it.
pub open spec fn task_verdicts(
    task: TaskView,
    source: Seq<FileRecordView>,
    dest: Seq<FileRecordView>,
) -> Seq<bool> {
    let included = task_included(task, source);
    Seq::new(
        included.len(),
        |i: int|
            !included[i].is_dir && dest_paths(dest).contains(included[i].path) && judged_equal(
                task.overwrite_mode,
                content_for(source, included[i].path),
                content_for(dest, included[i].path),
            ),
    )
}

/// The plan of a task for a source and a destination tree.
pub open spec fn task_plan(
    task: TaskView,
    source: Seq<FileRecordView>,
    dest: Seq<FileRecordView>,
) -> SyncPlanView {
    planned(task_included(task, source), dest_paths(dest), task_verdicts(task, source, dest))
}

/// A file that a task mirrors and that the destination holds is overwritten
/// exactly when the task's equality policy judges the two contents
/// different; it is never added or removed.
pub proof fn lemma_shared_file_overwritten_by_policy(
    task: TaskView,
    source: Seq<FileRecordView>,
    dest: Seq<FileRecordView>,
    i: int,
)
    requires
        0 <= i < task_included(task, source).len(),
        !task_included(task, source)[i].is_dir,
        dest_paths(dest).contains(task_included(task, source)[i].path),
    ensures
        task_plan(task, source, dest).overwrite.contains(task_included(task, source)[i].path)
            <==> !judged_equal(
            task.overwrite_mode,
            content_for(source, task_included(task, source)[i].path),
            content_for(dest, task_included(task, source)[i].path),
        ),
        !task_plan(task, source, dest).add.contains(task_included(task, source)[i].path),
        !task_plan(task, source, dest).remove.contains(task_included(task, source)[i].path),
{
    let included = task_included(task, source);
    let verdicts = task_verdicts(task, source, dest);
    let path = included[i].path;
    lemma_shared_file_follows_verdict(included, dest_paths(dest), verdicts, i);
    let different = !judged_equal(
        task.overwrite_mode,
        content_for(source, path),
        content_for(dest, path),
    );
    if different {
        assert(!equal_at(verdicts, i));
    } else {
        assert forall|j: int|
            0 <= j < included.len() && !included[j].is_dir && #[trigger] included[j].path
                == path implies equal_at(verdicts, j) by {}
    }
}

/// Whether every pattern of the list is valid.
pub open spec fn all_valid(patterns: Seq<Seq<char>>) -> bool {
    forall|i: int| 0 <= i < patterns.len() ==> valid_pattern(#[trigger] patterns[i])
}

/// Whether every pattern of the task is valid, the only-newest globs in
/// their expanded form.
pub open spec fn patterns_valid(task: TaskView) -> bool {
    &&& all_valid(task.filter.includes)
    &&& all_valid(task.filter.excludes)
    &&& all_valid(task.filter.required)
    &&& all_valid(expanded(task.only_newest))
}

/// The error, if any, that stops a task before it starts.
pub open spec fn task_error(task: TaskView, src_is_dir: bool) -> Option<TaskError> {
    if !src_is_dir {
        Some(TaskError::SourceNotDirectory)
    } else if !patterns_valid(task) {
        Some(TaskError::InvalidPattern)
    } else {
        None
    }
}

fn list_is_valid(patterns: &Vec<String>) -> (ok: bool)
    ensures
        ok == all_valid(texts(patterns@)),
{
    let mut i: usize = 0;
    while i < patterns.len()
        invariant
            i <= patterns.len(),
            forall|j: int| 0 <= j < i ==> valid_pattern(#[trigger] texts(patterns@)[j]),
        decreases patterns.len() - i,
    {
        if !is_valid_pattern(patterns[i].as_str()) {
            assert(!valid_pattern(texts(patterns@)[i as int]));
            return false;
        }
        i += 1;
    }
    true
}

/// The only-newest patterns that a list of globs stands for: each glob,
/// followed by the same glob with `/*` appended, so that a glob which names
/// a directory also covers what lies directly in it.
pub fn only_newest_patterns(globs: &Vec<String>) -> (patterns: Vec<String>)
    ensures
        texts(patterns@) == expanded(texts(globs@)),
{
    let mut patterns: Vec<String> = Vec::new();
    let mut i: usize = 0;
    while i < globs.len()
        invariant
            i <= globs.len(),
            patterns.len() == 2 * i,
            forall|j: int|
                0 <= j < 2 * i ==> (#[trigger] patterns[j])@ == expanded_item(texts(globs@), j),
        decreases globs.len() - i,
    {
        let glob = &globs[i];
        let mut below = glob.clone();
        below.append("/*");
        patterns.push(glob.clone());
        patterns.push(below);
        i += 1;
    }
    assert(texts(patterns@) =~= expanded(texts(globs@)));
    patterns
}

fn find_record(records: &Vec<FileRecord>, path: &String) -> (found: Option<usize>)
    ensures
        found matches Some(k) ==> k < records.len() && position_from(
            record_views(records@),
            path@,
            0,
        ) == Some(k as int),
        found is None ==> position_from(record_views(records@), path@, 0) is None,
{
    let mut i: usize = 0;
    while i < records.len()
        invariant
            i <= records.len(),
            position_from(record_views(records@), path@, 0) == position_from(
                record_views(records@),
                path@,
                i as int,
            ),
        decreases records.len() - i,
    {
        assert(record_views(records@)[i as int] == records[i as int]@);
        if records[i].path == *path {
            return Some(i);
        }
        i += 1;
    }
    None
}

fn listing_from(records: &Vec<FileRecord>) -> (listing: Vec<TreeEntry>)
    ensures
        tree_views(listing@) == listing_of(record_views(records@)),
{
    let mut listing: Vec<TreeEntry> = Vec::new();
    let mut i: usize = 0;
    while i < records.len()
        invariant
            i <= records.len(),
            listing.len() == i,
            forall|j: int|
                0 <= j < i ==> (#[trigger] listing[j])@ == listing_of(record_views(records@))[j],
        decreases records.len() - i,
    {
        let record = &records[i];
        listing.push(
            TreeEntry { path: record.path.clone(), is_dir: record.is_dir, parent: record.parent },
        );
        i += 1;
    }
    assert(tree_views(listing@) =~= listing_of(record_views(records@)));
    listing
}

impl Task {
    /// Checks a task before it starts. `src_is_dir` says whether the source
    /// path is an existing directory.
    pub fn validate(&self, src_is_dir: bool) -> (result: Result<(), TaskError>)
        ensures
            result == match task_error(self@, src_is_dir) {
                Some(error) => Err::<(), TaskError>(error),
                None => Ok(()),
            },
    {
        if !src_is_dir {
            return Err(TaskError::SourceNotDirectory);
        }
        if !(list_is_valid(&self.filter.includes) && list_is_valid(&self.filter.excludes)
            && list_is_valid(&self.filter.required) && list_is_valid(
            &only_newest_patterns(&self.only_newest),
        )) {
            return Err(TaskError::InvalidPattern);
        }
        Ok(())
    }

    /// Carries a task through on two trees held in memory: collects the
    /// source entries that pass the filter, keeps the newest of each
    /// only-newest group, lists the destination, compares the files that
    /// both hold and builds the plan with its jobs. The first record of
    /// `source` is the source root; a tree whose root is missing or is no
    /// directory is refused.
    pub fn process(&self, source: &Vec<FileRecord>, dest: &Vec<FileRecord>) -> (result: Result<
        Processed,
        TaskError,
    >)
        ensures
            match task_error(self@, source.len() > 0 && source[0].is_dir) {
                Some(error) => result == Err::<Processed, TaskError>(error),
                None => result matches Ok(done) && done.plan@ == task_plan(
                    self@,
                    record_views(source@),
                    record_views(dest@),
                ) && job_views(done.jobs@) == job_list(done.plan@, self.dry_run),
            },
    {
        let src_is_dir = source.len() > 0 && source[0].is_dir;
        match self.validate(src_is_dir) {
            Err(error) => {
                return Err(error);
            },
            Ok(_) => {},
        }
        let ghost src_view = record_views(source@);
        let ghost dest_view = record_views(dest@);

        let listing = listing_from(source);
        let mut included = collect(&listing, &self.filter);
        if self.only_newest.len() > 0 {
            let ghost passed = entry_views(included@);
            let patterns = only_newest_patterns(&self.only_newest);
            let mut created: Vec<Option<u128>> = Vec::new();
            let mut i: usize = 0;
            while i < included.len()
                invariant
                    i <= included.len(),
                    passed == entry_views(included@),
                    src_view == record_views(source@),
                    created.len() == i,
                    forall|j: int|
                        0 <= j < i ==> #[trigger] created[j] == created_for(
                            src_view,
                            passed[j].path,
                        ),
                decreases included.len() - i,
            {
                assert(passed[i as int] == included[i as int]@);
                let stamp = match find_record(source, &included[i].path) {
                    Some(k) => {
                        assert(src_view[k as int] == source[k as int]@);
                        Some(source[k].created)
                    },
                    None => None,
                };
                created.push(stamp);
                i += 1;
            }
            assert(created@ =~= Seq::new(
                passed.len(),
                |i: int| created_for(src_view, passed[i].path),
            ));
            keep_only_newest(&mut included, &created, &patterns);
        }
        assert(entry_views(included@) == task_included(self@, src_view));

        let dest_listing = listing_from(dest);
        let dest_existing = list_paths(&dest_listing);
        assert(texts(dest_existing@) == dest_paths(dest_view));

        let ghost inc = entry_views(included@);
        let mut equal: Vec<bool> = Vec::new();
        let mut i: usize = 0;
        while i < included.len()
            invariant
                i <= included.len(),
                inc == entry_views(included@),
                inc == task_included(self@, src_view),
                src_view == record_views(source@),
                dest_view == record_views(dest@),
                texts(dest_existing@) == dest_paths(dest_view),
                equal.len() == i,
                forall|j: int|
                    0 <= j < i ==> #[trigger] equal[j] == task_verdicts(
                        self@,
                        src_view,
                        dest_view,
                    )[j],
            decreases included.len() - i,
        {
            let entry = &included[i];
            assert(inc[i as int] == entry@);
            let verdict = if needs_comparison(entry, &dest_existing) {
                match (find_record(source, &entry.path), find_record(dest, &entry.path)) {
                    (Some(s), Some(d)) => {
                        assert(src_view[s as int] == source[s as int]@);
                        assert(dest_view[d as int] == dest[d as int]@);
                        files_equal(
                            self.overwrite_mode,
                            source[s].content.as_slice(),
                            dest[d].content.as_slice(),
                        )
                    },
                    (Some(s), None) => {
                        assert(src_view[s as int] == source[s as int]@);
                        let nothing: Vec<u8> = Vec::new();
                        files_equal(
                            self.overwrite_mode,
                            source[s].content.as_slice(),
                            nothing.as_slice(),
                        )
                    },
                    (None, Some(d)) => {
                        assert(dest_view[d as int] == dest[d as int]@);
                        let nothing: Vec<u8> = Vec::new();
                        files_equal(
                            self.overwrite_mode,
                            nothing.as_slice(),
                            dest[d].content.as_slice(),
                        )
                    },
                    (None, None) => {
                        let nothing: Vec<u8> = Vec::new();
                        files_equal(self.overwrite_mode, nothing.as_slice(), nothing.as_slice())
                    },
                }
            } else {
                false
            };
            equal.push(verdict);
            i += 1;
        }
        assert(equal@ =~= task_verdicts(self@, src_view, dest_view));

        let plan = generate_to_do_list(&included, &dest_existing, &equal);
        let jobs = jobs_of(&plan, self.dry_run);
        Ok(Processed { plan, jobs })
    }
}

} // verus!
