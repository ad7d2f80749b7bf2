//! The change executor: the file-system steps that carry out a plan, and
//! the order in which they are taken.
//!
//! The library performs no step itself. It names each step, and a caller
//! performs it and reports whether it succeeded. A step that fails ends its
//! own job only; the jobs after it are still run.

use crate::paths::{join_path, joined};
use crate::pattern::texts;
use crate::plan::{SyncPlan, SyncPlanView};
use vstd::prelude::*;

verus! {

/// One operation on the file system.
#[derive(Clone, Debug, PartialEq, Eq)]
pub enum FsStep {
    /// Create every missing directory above `of`.
    CreateParents { of: String },
    /// Copy the whole content of the file `from` to `to`, replacing `to`.
    CopyFile { from: String, to: String },
    /// Rename `from` to `to`, replacing `to`.
    Rename { from: String, to: String },
    /// Delete the entry at `path`: a file, or a directory if it is empty.
    Remove { path: String },
}

/// What the contracts read of an `FsStep`.
pub enum FsStepView {
    CreateParents { of: Seq<char> },
    CopyFile { from: Seq<char>, to: Seq<char> },
    Rename { from: Seq<char>, to: Seq<char> },
    Remove { path: Seq<char> },
}

impl View for FsStep {
    type V = FsStepView;

    open spec fn view(&self) -> FsStepView {
        match *self {
            FsStep::CreateParents { of } => FsStepView::CreateParents { of: of@ },
            FsStep::CopyFile { from, to } => FsStepView::CopyFile { from: from@, to: to@ },
            FsStep::Rename { from, to } => FsStepView::Rename { from: from@, to: to@ },
            FsStep::Remove { path } => FsStepView::Remove { path: path@ },
        }
    }
}

/// The views of a list of steps.
pub open spec fn step_views(steps: Seq<FsStep>) -> Seq<FsStepView> {
    Seq::new(steps.len(), |i: int| steps[i]@)
}

/// The sibling path that receives the new content during an overwrite.
pub open spec fn tmp_new_of(dest: Seq<char>) -> Seq<char> {
    dest + ".tmp_new"@
}

/// The sibling path that holds the old content during an overwrite.
pub open spec fn tmp_old_of(dest: Seq<char>) -> Seq<char> {
    dest + ".tmp_old"@
}

/// The steps that delete the destination entry at `dest`.
pub open spec fn remove_protocol(dest: Seq<char>) -> Seq<FsStepView> {
    seq![FsStepView::Remove { path: dest }]
}

/// The steps that create the destination file `dest` from the source file
/// `src`.
pub open spec fn add_protocol(src: Seq<char>, dest: Seq<char>) -> Seq<FsStepView> {
    seq![FsStepView::CreateParents { of: dest }, FsStepView::CopyFile { from: src, to: dest }]
}

/// The steps that replace the destination file `dest` by the source file
/// `src`. Only the third step changes what stands at `dest`.
pub open spec fn overwrite_protocol(src: Seq<char>, dest: Seq<char>) -> Seq<FsStepView> {
    seq![
        FsStepView::CopyFile { from: src, to: tmp_new_of(dest) },
        FsStepView::Rename { from: dest, to: tmp_old_of(dest) },
        FsStepView::Rename { from: tmp_new_of(dest), to: dest },
        FsStepView::Remove { path: tmp_old_of(dest) },
    ]
}

/// The regular files of a tree after `step` succeeded on `files`, a map
/// from path to content; `None` where the step cannot succeed because the
/// file it reads is missing, or because it would copy a file onto itself.
/// The model holds no directories: creating them changes nothing in it, and
/// removing a path that holds no file is left out of it.
pub open spec fn after_step(files: Map<Seq<char>, Seq<u8>>, step: FsStepView) -> Option<
    Map<Seq<char>, Seq<u8>>,
> {
    match step {
        FsStepView::CreateParents { of } => Some(files),
        FsStepView::CopyFile { from, to } => if files.dom().contains(from) && from != to {
            Some(files.insert(to, files[from]))
        } else {
            None
        },
        FsStepView::Rename { from, to } => if !files.dom().contains(from) {
            None
        } else if from == to {
            Some(files)
        } else {
            Some(files.remove(from).insert(to, files[from]))
        },
        FsStepView::Remove { path } => if files.dom().contains(path) {
            Some(files.remove(path))
        } else {
            None
        },
    }
}

/// The files after the steps from index `from` on all succeeded, one after
/// the other; `None` where one of them cannot.
pub open spec fn after_steps_from(
    files: Map<Seq<char>, Seq<u8>>,
    steps: Seq<FsStepView>,
    from: int,
) -> Option<Map<Seq<char>, Seq<u8>>>
    decreases steps.len() - from,
{
    if from < 0 || from >= steps.len() {
        Some(files)
    } else {
        match after_step(files, steps[from]) {
            None => None,
            Some(next) => after_steps_from(next, steps, from + 1),
        }
    }
}

/// The files after all of `steps` succeeded.
pub open spec fn after_steps(files: Map<Seq<char>, Seq<u8>>, steps: Seq<FsStepView>) -> Option<
    Map<Seq<char>, Seq<u8>>,
> {
    after_steps_from(files, steps, 0)
}

/// An overwrite whose four steps succeed leaves the source's content at the
/// destination path and neither temporary sibling behind, and touches no
/// other file. The first two steps leave the destination path as it was.
/// The source must not be the sibling that receives the new content.
pub proof fn lemma_overwrite_replaces_content(
    files: Map<Seq<char>, Seq<u8>>,
    src: Seq<char>,
    dest: Seq<char>,
)
    requires
        files.dom().contains(src),
        files.dom().contains(dest),
        src != tmp_new_of(dest),
    ensures
        after_steps(files, overwrite_protocol(src, dest)) matches Some(end) && {
            &&& end.dom().contains(dest)
            &&& end[dest] == files[src]
            &&& !end.dom().contains(tmp_new_of(dest))
            &&& !end.dom().contains(tmp_old_of(dest))
            &&& forall|other: Seq<char>|
                other != dest && other != tmp_new_of(dest) && other != tmp_old_of(dest) ==> (
                end.dom().contains(other) <==> files.dom().contains(other)) && (files.dom().contains(
                    other,
                ) ==> end[other] == files[other])
        },
        after_step(files, overwrite_protocol(src, dest)[0]) matches Some(copied) && copied.dom().contains(
            dest,
        ) && copied[dest] == files[dest],
{
    reveal_strlit(".tmp_new");
    reveal_strlit(".tmp_old");
    let new_path = tmp_new_of(dest);
    let old_path = tmp_old_of(dest);
    assert(new_path.len() == dest.len() + 8);
    assert(old_path.len() == dest.len() + 8);
    assert(new_path[dest.len() as int + 5] == 'n');
    assert(old_path[dest.len() as int + 5] == 'o');
    assert(new_path != old_path);
    let steps = overwrite_protocol(src, dest);
    let copied = files.insert(new_path, files[src]);
    let moved = copied.remove(dest).insert(old_path, copied[dest]);
    let swapped = moved.remove(new_path).insert(dest, moved[new_path]);
    let cleaned = swapped.remove(old_path);
    assert(after_step(files, steps[0]) == Some(copied));
    assert(after_step(copied, steps[1]) == Some(moved));
    assert(after_step(moved, steps[2]) == Some(swapped));
    assert(after_step(swapped, steps[3]) == Some(cleaned));
    reveal_with_fuel(after_steps_from, 5);
    assert(after_steps(files, steps) == Some(cleaned));
}

/// An addition whose steps succeed leaves the source's content at the
/// destination path and touches no other file.
pub proof fn lemma_add_copies_content(
    files: Map<Seq<char>, Seq<u8>>,
    src: Seq<char>,
    dest: Seq<char>,
)
    requires
        files.dom().contains(src),
        src != dest,
    ensures
        after_steps(files, add_protocol(src, dest)) == Some(files.insert(dest, files[src])),
{
    reveal_with_fuel(after_steps_from, 3);
}

/// A removal that succeeds takes the file at the destination path away and
/// touches no other file.
pub proof fn lemma_remove_deletes_file(files: Map<Seq<char>, Seq<u8>>, dest: Seq<char>)
    requires
        files.dom().contains(dest),
    ensures
        after_steps(files, remove_protocol(dest)) == Some(files.remove(dest)),
{
    reveal_with_fuel(after_steps_from, 2);
}

/// What a job does to its path.
#[derive(Clone, Copy, Debug, PartialEq, Eq, Structural)]
pub enum JobKind {
    Remove,
    Overwrite,
    Add,
}

/// One entry of a plan, ready to be carried out.
#[derive(Clone, Debug, PartialEq, Eq)]
pub struct Job {
    pub kind: JobKind,
    /// The path relative to both roots.
    pub path: String,
}

/// What the contracts read of a `Job`.
pub struct JobView {
    pub kind: JobKind,
    pub path: Seq<char>,
}

impl View for Job {
    type V = JobView;

    open spec fn view(&self) -> JobView {
        JobView { kind: self.kind, path: self.path@ }
    }
}

/// The views of a list of jobs.
pub open spec fn job_views(jobs: Seq<Job>) -> Seq<JobView> {
    Seq::new(jobs.len(), |i: int| jobs[i]@)
}

/// One job of the given kind for each path, in order.
pub open spec fn jobs_for(kind: JobKind, paths: Seq<Seq<char>>) -> Seq<JobView> {
    Seq::new(paths.len(), |i: int| JobView { kind, path: paths[i] })
}

/// The jobs of a plan in the order in which they run: all removals, then
/// all overwrites, then all additions. A dry run has no jobs.
pub open spec fn job_list(plan: SyncPlanView, dry_run: bool) -> Seq<JobView> {
    if dry_run {
        Seq::empty()
    } else {
        jobs_for(JobKind::Remove, plan.remove) + jobs_for(JobKind::Overwrite, plan.overwrite)
            + jobs_for(JobKind::Add, plan.add)
    }
}

/// The steps of one job under the two roots.
pub open spec fn job_steps(job: JobView, src_root: Seq<char>, dest_root: Seq<char>) -> Seq<
    FsStepView,
> {
    match job.kind {
        JobKind::Remove => remove_protocol(joined(dest_root, job.path)),
        JobKind::Overwrite => overwrite_protocol(
            joined(src_root, job.path),
            joined(dest_root, job.path),
        ),
        JobKind::Add => add_protocol(joined(src_root, job.path), joined(dest_root, job.path)),
    }
}

/// The number of steps that a job of the given kind has.
pub open spec fn step_count(kind: JobKind) -> int {
    match kind {
        JobKind::Remove => 1,
        JobKind::Overwrite => 4,
        JobKind::Add => 2,
    }
}

fn push_jobs(jobs: &mut Vec<Job>, kind: JobKind, paths: &Vec<String>)
    ensures
        job_views(final(jobs)@) == job_views(old(jobs)@) + jobs_for(kind, texts(paths@)),
{
    let ghost start = job_views(jobs@);
    let mut i: usize = 0;
    while i < paths.len()
        invariant
            i <= paths.len(),
            job_views(jobs@).len() == start.len() + i,
            forall|j: int| 0 <= j < start.len() ==> job_views(jobs@)[j] == start[j],
            forall|j: int|
                0 <= j < i ==> job_views(jobs@)[start.len() + j] == (JobView {
                    kind,
                    path: paths[j]@,
                }),
        decreases paths.len() - i,
    {
        jobs.push(Job { kind, path: paths[i].clone() });
        i += 1;
    }
    assert(job_views(jobs@) =~= start + jobs_for(kind, texts(paths@)));
}

/// Lists the jobs of a plan in running order. With `dry_run` set nothing is
/// to be done.
pub fn jobs_of(plan: &SyncPlan, dry_run: bool) -> (jobs: Vec<Job>)
    ensures
        job_views(jobs@) == job_list(plan@, dry_run),
{
    let mut jobs: Vec<Job> = Vec::new();
    if !dry_run {
        assert(job_views(jobs@) =~= Seq::empty());
        push_jobs(&mut jobs, JobKind::Remove, &plan.remove);
        push_jobs(&mut jobs, JobKind::Overwrite, &plan.overwrite);
        push_jobs(&mut jobs, JobKind::Add, &plan.add);
        assert(job_views(jobs@) =~= job_list(plan@, dry_run));
    } else {
        assert(job_views(jobs@) =~= Seq::empty());
    }
    jobs
}

/// The steps that delete the destination entry of `relative`.
pub fn remove_steps(dest_root: &str, relative: &str) -> (steps: Vec<FsStep>)
    ensures
        step_views(steps@) == remove_protocol(joined(dest_root@, relative@)),
{
    let mut steps: Vec<FsStep> = Vec::new();
    steps.push(FsStep::Remove { path: join_path(dest_root, relative) });
    assert(step_views(steps@) =~= remove_protocol(joined(dest_root@, relative@)));
    steps
}

/// The steps that create the destination file of `relative`: the missing
/// directories above it first, then a copy of the whole source file.
pub fn add_steps(src_root: &str, dest_root: &str, relative: &str) -> (steps: Vec<FsStep>)
    ensures
        step_views(steps@) == add_protocol(
            joined(src_root@, relative@),
            joined(dest_root@, relative@),
        ),
{
    let mut steps: Vec<FsStep> = Vec::new();
    steps.push(FsStep::CreateParents { of: join_path(dest_root, relative) });
    steps.push(
        FsStep::CopyFile {
            from: join_path(src_root, relative),
            to: join_path(dest_root, relative),
        },
    );
    assert(step_views(steps@) =~= add_protocol(
        joined(src_root@, relative@),
        joined(dest_root@, relative@),
    ));
    steps
}

/// The steps that replace the destination file of `relative` without ever
/// showing a half-written file at its path: copy the source to the sibling
/// `.tmp_new`, rename the destination to the sibling `.tmp_old`, rename
/// `.tmp_new` to the destination, delete `.tmp_old`.
pub fn overwrite_steps(src_root: &str, dest_root: &str, relative: &str) -> (steps: Vec<FsStep>)
    ensures
        step_views(steps@) == overwrite_protocol(
            joined(src_root@, relative@),
            joined(dest_root@, relative@),
        ),
{
    let mut tmp_new = join_path(dest_root, relative);
    tmp_new.append(".tmp_new");
    let mut tmp_old = join_path(dest_root, relative);
    tmp_old.append(".tmp_old");
    let mut steps: Vec<FsStep> = Vec::new();
    steps.push(FsStep::CopyFile { from: join_path(src_root, relative), to: tmp_new.clone() });
    steps.push(FsStep::Rename { from: join_path(dest_root, relative), to: tmp_old.clone() });
    steps.push(FsStep::Rename { from: tmp_new, to: join_path(dest_root, relative) });
    steps.push(FsStep::Remove { path: tmp_old });
    assert(step_views(steps@) =~= overwrite_protocol(
        joined(src_root@, relative@),
        joined(dest_root@, relative@),
    ));
    steps
}

/// The steps of one job under the two roots.
pub fn steps_for(job: &Job, src_root: &str, dest_root: &str) -> (steps: Vec<FsStep>)
    ensures
        step_views(steps@) == job_steps(job@, src_root@, dest_root@),
        steps.len() == step_count(job.kind),
{
    let steps = match job.kind {
        JobKind::Remove => remove_steps(dest_root, job.path.as_str()),
        JobKind::Overwrite => overwrite_steps(src_root, dest_root, job.path.as_str()),
        JobKind::Add => add_steps(src_root, dest_root, job.path.as_str()),
    };
    assert(step_views(steps@).len() == steps.len());
    steps
}

/// The executor's place in a list of jobs: which step of which job is due,
/// and how many jobs have failed so far.
pub struct Executor {
    jobs: Vec<Job>,
    job: usize,
    step: usize,
    failed: usize,
}

impl Executor {
    #[verifier::type_invariant]
    spec fn well_formed(self) -> bool {
        &&& self.job <= self.jobs.len()
        &&& self.failed <= self.job
        &&& self.job < self.jobs.len() ==> self.step < step_count(self.jobs[self.job as int].kind)
        &&& self.job == self.jobs.len() ==> self.step == 0
    }

    /// The jobs, in running order.
    pub closed spec fn jobs(self) -> Seq<JobView> {
        job_views(self.jobs@)
    }

    /// The index of the job that is due; the number of jobs once all are
    /// through.
    pub closed spec fn job(self) -> int {
        self.job as int
    }

    /// The index, within the job that is due, of the step that is due.
    pub closed spec fn step(self) -> int {
        self.step as int
    }

    /// The number of jobs that ended in a failed step.
    pub closed spec fn failed(self) -> int {
        self.failed as int
    }

    /// Whether every job is through.
    pub open spec fn finished(self) -> bool {
        self.job() >= self.jobs().len()
    }

    /// The state after the step that is due has been reported. A step that
    /// succeeded is followed by the next step of its job, or by the next
    /// job after the last step. A step that failed ends its job, which
    /// counts as failed; the next job is due. Nothing is due once all jobs
    /// are through.
    pub open spec fn reported(self, next: Executor, ok: bool) -> bool {
        &&& next.jobs() == self.jobs()
        &&& if self.finished() {
            next.job() == self.job() && next.step() == self.step() && next.failed()
                == self.failed()
        } else if ok && self.step() + 1 < step_count(self.jobs()[self.job()].kind) {
            next.job() == self.job() && next.step() == self.step() + 1 && next.failed()
                == self.failed()
        } else {
            next.job() == self.job() + 1 && next.step() == 0 && next.failed() == self.failed() + (
            if ok {
                0int
            } else {
                1int
            })
        }
    }

    /// An executor at the first step of the first job.
    pub fn new(jobs: Vec<Job>) -> (executor: Executor)
        ensures
            executor.jobs() == job_views(jobs@),
            executor.job() == 0,
            executor.step() == 0,
            executor.failed() == 0,
    {
        Executor { jobs, job: 0, step: 0, failed: 0 }
    }

    /// Whether every job is through.
    pub fn is_finished(&self) -> (done: bool)
        ensures
            done == self.finished(),
    {
        proof {
            use_type_invariant(self);
        }
        self.job >= self.jobs.len()
    }

    /// The number of jobs that are through.
    pub fn position(&self) -> (position: usize)
        ensures
            position == self.job(),
            position <= self.jobs().len(),
    {
        proof {
            use_type_invariant(self);
        }
        self.job
    }

    /// The number of jobs that ended in a failed step.
    pub fn failures(&self) -> (failures: usize)
        ensures
            failures == self.failed(),
            failures <= self.job(),
    {
        proof {
            use_type_invariant(self);
        }
        self.failed
    }

    /// The step that is due under the two roots, or `None` once every job
    /// is through.
    pub fn current(&self, src_root: &str, dest_root: &str) -> (due: Option<FsStep>)
        ensures
            due is None <==> self.finished(),
            due matches Some(step) ==> 0 <= self.job() < self.jobs().len() && 0 <= self.step()
                < step_count(self.jobs()[self.job()].kind) && step@ == job_steps(
                self.jobs()[self.job()],
                src_root@,
                dest_root@,
            )[self.step()],
    {
        proof {
            use_type_invariant(self);
        }
        if self.job >= self.jobs.len() {
            return None;
        }
        let mut steps = steps_for(&self.jobs[self.job], src_root, dest_root);
        assert(step_views(steps@)[self.step as int] == steps[self.step as int]@);
        Some(steps.swap_remove(self.step))
    }

    /// Takes the outcome of the step that is due and moves on.
    pub fn record(&mut self, ok: bool)
        ensures
            old(self).reported(*final(self), ok),
    {
        proof {
            use_type_invariant(&*self);
        }
        if self.job >= self.jobs.len() {
            return ;
        }
        let steps: usize = match self.jobs[self.job].kind {
            JobKind::Remove => 1,
            JobKind::Overwrite => 4,
            JobKind::Add => 2,
        };
        if ok && self.step + 1 < steps {
            self.step = self.step + 1;
        } else {
            self.step = 0;
            self.job = self.job + 1;
            if !ok {
                self.failed = self.failed + 1;
            }
        }
    }
}

} // verus!
