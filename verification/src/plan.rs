//! The synchronization planner: which destination paths are added, replaced
//! and deleted.

use crate::collect::{entry_views, Entry, EntryView};
use crate::pattern::texts;
use crate::pick::{lemma_picked_contains, picked};
use vstd::prelude::*;

verus! {

/// The changes that bring a destination in line with the included source
/// entries. No path stands in more than one list.
#[derive(Clone, Debug, PartialEq, Eq)]
pub struct SyncPlan {
    /// Source files that the destination lacks, in source order.
    pub add: Vec<String>,
    /// Files on both sides that were judged different, in source order.
    pub overwrite: Vec<String>,
    /// Destination paths that are no included source entry, in destination
    /// order.
    pub remove: Vec<String>,
}

/// What the contracts read of a `SyncPlan`.
pub struct SyncPlanView {
    pub add: Seq<Seq<char>>,
    pub overwrite: Seq<Seq<char>>,
    pub remove: Seq<Seq<char>>,
}

impl View for SyncPlan {
    type V = SyncPlanView;

    open spec fn view(&self) -> SyncPlanView {
        SyncPlanView {
            add: texts(self.add@),
            overwrite: texts(self.overwrite@),
            remove: texts(self.remove@),
        }
    }
}

/// The paths of a list of entries.
pub open spec fn entry_paths(entries: Seq<EntryView>) -> Seq<Seq<char>> {
    Seq::new(entries.len(), |i: int| entries[i].path)
}

/// The verdict on the included entry `i`: `true` when its pair was judged
/// equal. An entry without a verdict counts as different.
pub open spec fn equal_at(equal: Seq<bool>, i: int) -> bool {
    0 <= i < equal.len() && equal[i]
}

/// Whether included entry `i` is a file that the destination lacks.
pub open spec fn is_added(included: Seq<EntryView>, dest: Seq<Seq<char>>, i: int) -> bool {
    0 <= i < included.len() && !included[i].is_dir && !dest.contains(included[i].path)
}

/// Whether included entry `i` is a file that the destination has and that
/// was judged different from it.
pub open spec fn is_overwritten(
    included: Seq<EntryView>,
    dest: Seq<Seq<char>>,
    equal: Seq<bool>,
    i: int,
) -> bool {
    0 <= i < included.len() && !included[i].is_dir && dest.contains(included[i].path) && !equal_at(
        equal,
        i,
    )
}

/// Whether destination path `i` is the path of no included entry, file or
/// directory.
pub open spec fn is_removed(included: Seq<EntryView>, dest: Seq<Seq<char>>, i: int) -> bool {
    0 <= i < dest.len() && !entry_paths(included).contains(dest[i])
}

/// The plan for a list of included source entries, the paths that exist in
/// the destination, and one verdict for each included entry.
pub open spec fn planned(included: Seq<EntryView>, dest: Seq<Seq<char>>, equal: Seq<bool>) -> SyncPlanView {
    SyncPlanView {
        add: picked(
            entry_paths(included),
            |i: int| is_added(included, dest, i),
            included.len() as int,
        ),
        overwrite: picked(
            entry_paths(included),
            |i: int| is_overwritten(included, dest, equal, i),
            included.len() as int,
        ),
        remove: picked(dest, |i: int| is_removed(included, dest, i), dest.len() as int),
    }
}

/// Which paths each list of a plan holds: a path is added, overwritten or
/// removed exactly when some index with that path meets the list's rule.
pub proof fn lemma_plan_members(
    included: Seq<EntryView>,
    dest: Seq<Seq<char>>,
    equal: Seq<bool>,
    path: Seq<char>,
)
    ensures
        planned(included, dest, equal).add.contains(path) <==> exists|i: int|
            #[trigger] is_added(included, dest, i) && included[i].path == path,
        planned(included, dest, equal).overwrite.contains(path) <==> exists|i: int|
            #[trigger] is_overwritten(included, dest, equal, i) && included[i].path == path,
        planned(included, dest, equal).remove.contains(path) <==> exists|i: int|
            #[trigger] is_removed(included, dest, i) && dest[i] == path,
{
    let paths = entry_paths(included);
    let n = included.len() as int;
    let add_rule = |i: int| is_added(included, dest, i);
    let overwrite_rule = |i: int| is_overwritten(included, dest, equal, i);
    let remove_rule = |i: int| is_removed(included, dest, i);
    lemma_picked_contains(paths, add_rule, n, path);
    lemma_picked_contains(paths, overwrite_rule, n, path);
    lemma_picked_contains(dest, remove_rule, dest.len() as int, path);
    if planned(included, dest, equal).add.contains(path) {
        let i = choose|i: int| 0 <= i < n && add_rule(i) && #[trigger] paths[i] == path;
        assert(is_added(included, dest, i) && included[i].path == path);
    }
    if exists|i: int| #[trigger] is_added(included, dest, i) && included[i].path == path {
        let i = choose|i: int| #[trigger] is_added(included, dest, i) && included[i].path == path;
        assert(0 <= i < n && add_rule(i) && paths[i] == path);
    }
    if planned(included, dest, equal).overwrite.contains(path) {
        let i = choose|i: int| 0 <= i < n && overwrite_rule(i) && #[trigger] paths[i] == path;
        assert(is_overwritten(included, dest, equal, i) && included[i].path == path);
    }
    if exists|i: int|
        #[trigger] is_overwritten(included, dest, equal, i) && included[i].path == path {
        let i = choose|i: int|
            #[trigger] is_overwritten(included, dest, equal, i) && included[i].path == path;
        assert(0 <= i < n && overwrite_rule(i) && paths[i] == path);
    }
    if planned(included, dest, equal).remove.contains(path) {
        let i = choose|i: int| 0 <= i < dest.len() && remove_rule(i) && #[trigger] dest[i] == path;
        assert(is_removed(included, dest, i) && dest[i] == path);
    }
    if exists|i: int| #[trigger] is_removed(included, dest, i) && dest[i] == path {
        let i = choose|i: int| #[trigger] is_removed(included, dest, i) && dest[i] == path;
        assert(0 <= i < dest.len() && remove_rule(i) && dest[i] == path);
    }
}

/// An included file that the destination lacks is added, and is neither
/// overwritten nor removed.
pub proof fn lemma_missing_file_is_added(
    included: Seq<EntryView>,
    dest: Seq<Seq<char>>,
    equal: Seq<bool>,
    i: int,
)
    requires
        0 <= i < included.len(),
        !included[i].is_dir,
        !dest.contains(included[i].path),
    ensures
        planned(included, dest, equal).add.contains(included[i].path),
        !planned(included, dest, equal).overwrite.contains(included[i].path),
        !planned(included, dest, equal).remove.contains(included[i].path),
{
    lemma_plan_members(included, dest, equal, included[i].path);
    assert(is_added(included, dest, i));
}

/// A destination path that is no included source entry is removed, and is
/// neither added nor overwritten.
pub proof fn lemma_stale_path_is_removed(
    included: Seq<EntryView>,
    dest: Seq<Seq<char>>,
    equal: Seq<bool>,
    k: int,
)
    requires
        0 <= k < dest.len(),
        !entry_paths(included).contains(dest[k]),
    ensures
        planned(included, dest, equal).remove.contains(dest[k]),
        !planned(included, dest, equal).add.contains(dest[k]),
        !planned(included, dest, equal).overwrite.contains(dest[k]),
{
    lemma_plan_members(included, dest, equal, dest[k]);
    assert(is_removed(included, dest, k));
    assert forall|i: int| 0 <= i < included.len() implies included[i].path != dest[k] by {
        assert(entry_paths(included)[i] == included[i].path);
    }
}

/// A file that is included and exists in the destination is never added or
/// removed, and it is overwritten exactly when a verdict on it says
/// "different". Where no other included entry has its path, that is the
/// verdict on this entry alone.
pub proof fn lemma_shared_file_follows_verdict(
    included: Seq<EntryView>,
    dest: Seq<Seq<char>>,
    equal: Seq<bool>,
    i: int,
)
    requires
        0 <= i < included.len(),
        !included[i].is_dir,
        dest.contains(included[i].path),
    ensures
        !planned(included, dest, equal).add.contains(included[i].path),
        !planned(included, dest, equal).remove.contains(included[i].path),
        planned(included, dest, equal).overwrite.contains(included[i].path) <==> exists|j: int|
            0 <= j < included.len() && !included[j].is_dir && #[trigger] included[j].path
                == included[i].path && !equal_at(equal, j),
        (forall|j: int|
            0 <= j < included.len() && #[trigger] included[j].path == included[i].path ==> j == i)
            ==> (planned(included, dest, equal).overwrite.contains(included[i].path) <==> !equal_at(
            equal,
            i,
        )),
{
    let path = included[i].path;
    lemma_plan_members(included, dest, equal, path);
    assert(entry_paths(included)[i] == path);
    if planned(included, dest, equal).overwrite.contains(path) {
        let j = choose|j: int|
            #[trigger] is_overwritten(included, dest, equal, j) && included[j].path == path;
        assert(0 <= j < included.len() && !included[j].is_dir && included[j].path == path
            && !equal_at(equal, j));
    }
    if exists|j: int|
        0 <= j < included.len() && !included[j].is_dir && #[trigger] included[j].path == path
            && !equal_at(equal, j) {
        let j = choose|j: int|
            0 <= j < included.len() && !included[j].is_dir && #[trigger] included[j].path == path
                && !equal_at(equal, j);
        assert(is_overwritten(included, dest, equal, j) && included[j].path == path);
    }
}

/// No path stands in two lists of a plan.
pub proof fn lemma_lists_disjoint(
    included: Seq<EntryView>,
    dest: Seq<Seq<char>>,
    equal: Seq<bool>,
    path: Seq<char>,
)
    ensures
        !(planned(included, dest, equal).add.contains(path) && planned(
            included,
            dest,
            equal,
        ).overwrite.contains(path)),
        !(planned(included, dest, equal).add.contains(path) && planned(
            included,
            dest,
            equal,
        ).remove.contains(path)),
        !(planned(included, dest, equal).overwrite.contains(path) && planned(
            included,
            dest,
            equal,
        ).remove.contains(path)),
{
    lemma_plan_members(included, dest, equal, path);
    if planned(included, dest, equal).overwrite.contains(path) {
        let j = choose|j: int|
            #[trigger] is_overwritten(included, dest, equal, j) && included[j].path == path;
        assert(entry_paths(included)[j] == path);
    }
}

/// Whether `path` is one of `paths`.
pub fn contains_path(paths: &Vec<String>, path: &String) -> (found: bool)
    ensures
        found == texts(paths@).contains(path@),
{
    let mut i: usize = 0;
    while i < paths.len()
        invariant
            i <= paths.len(),
            forall|j: int| 0 <= j < i ==> texts(paths@)[j] != path@,
        decreases paths.len() - i,
    {
        if paths[i] == *path {
            assert(texts(paths@)[i as int] == path@);
            return true;
        }
        i += 1;
    }
    false
}

/// Whether `path` is the path of one of `entries`.
pub fn contains_entry(entries: &Vec<Entry>, path: &String) -> (found: bool)
    ensures
        found == entry_paths(entry_views(entries@)).contains(path@),
{
    let mut i: usize = 0;
    while i < entries.len()
        invariant
            i <= entries.len(),
            forall|j: int| 0 <= j < i ==> entry_paths(entry_views(entries@))[j] != path@,
        decreases entries.len() - i,
    {
        if entries[i].path == *path {
            assert(entry_paths(entry_views(entries@))[i as int] == path@);
            return true;
        }
        i += 1;
    }
    false
}

/// Whether the planner wants a verdict on this included entry: it is a file
/// and the destination holds its path. For any other entry the verdict is
/// not read.
pub fn needs_comparison(entry: &Entry, dest_existing: &Vec<String>) -> (needed: bool)
    ensures
        needed == (!entry.is_dir && texts(dest_existing@).contains(entry.path@)),
{
    !entry.is_dir && contains_path(dest_existing, &entry.path)
}

/// Builds the plan. `included` are the source entries that passed the
/// filter, `dest_existing` the paths found in the destination, and
/// `equal[i]` the verdict of the equality policy on `included[i]` and the
/// destination file of the same path (`true`: equal, leave it). A verdict is
/// read only where `needs_comparison` holds; one that is missing counts as
/// different.
///
/// Directories among the included entries are skipped. An included file
/// that the destination lacks is added; one that it has is overwritten when
/// judged different. Every destination path that is no included entry is
/// removed.
pub fn generate_to_do_list(
    included: &Vec<Entry>,
    dest_existing: &Vec<String>,
    equal: &Vec<bool>,
) -> (plan: SyncPlan)
    ensures
        plan@ == planned(entry_views(included@), texts(dest_existing@), equal@),
{
    let ghost inc = entry_views(included@);
    let ghost dest = texts(dest_existing@);
    let ghost add_rule = |i: int| is_added(inc, dest, i);
    let ghost overwrite_rule = |i: int| is_overwritten(inc, dest, equal@, i);
    let ghost remove_rule = |i: int| is_removed(inc, dest, i);

    let mut add_list: Vec<String> = Vec::new();
    let mut overwrite_list: Vec<String> = Vec::new();
    let mut i: usize = 0;
    while i < included.len()
        invariant
            i <= included.len(),
            inc == entry_views(included@),
            dest == texts(dest_existing@),
            add_rule == (|i: int| is_added(inc, dest, i)),
            overwrite_rule == (|i: int| is_overwritten(inc, dest, equal@, i)),
            texts(add_list@) == picked(entry_paths(inc), add_rule, i as int),
            texts(overwrite_list@) == picked(entry_paths(inc), overwrite_rule, i as int),
        decreases included.len() - i,
    {
        let entry = &included[i];
        assert(inc[i as int] == entry@);
        assert(entry_paths(inc)[i as int] == entry.path@);
        if !entry.is_dir {
            if !contains_path(dest_existing, &entry.path) {
                let ghost before = texts(add_list@);
                add_list.push(entry.path.clone());
                assert(texts(add_list@) =~= before.push(entry.path@));
            } else {
                let judged_equal = i < equal.len() && equal[i];
                if !judged_equal {
                    let ghost before = texts(overwrite_list@);
                    overwrite_list.push(entry.path.clone());
                    assert(texts(overwrite_list@) =~= before.push(entry.path@));
                }
            }
        }
        i += 1;
    }

    let mut remove_list: Vec<String> = Vec::new();
    let mut k: usize = 0;
    while k < dest_existing.len()
        invariant
            k <= dest_existing.len(),
            inc == entry_views(included@),
            dest == texts(dest_existing@),
            remove_rule == (|i: int| is_removed(inc, dest, i)),
            texts(remove_list@) == picked(dest, remove_rule, k as int),
        decreases dest_existing.len() - k,
    {
        let path = &dest_existing[k];
        assert(dest[k as int] == path@);
        if !contains_entry(included, path) {
            let ghost before = texts(remove_list@);
            remove_list.push(path.clone());
            assert(texts(remove_list@) =~= before.push(path@));
        }
        k += 1;
    }

    SyncPlan { add: add_list, overwrite: overwrite_list, remove: remove_list }
}

} // verus!
