//! Collecting the entries of a directory tree that pass the include, exclude
//! and require patterns of a task.
//!
//! A tree is handed over as a listing in top-down order: every entry after
//! the first names, by index, the directory that holds it, and that directory
//! stands earlier in the listing. The first entry is the root of the walk.

use crate::pattern::{any_match, matches_any, texts};
use crate::pick::{accepts, lemma_picked_none, picked};
use vstd::prelude::*;

verus! {

/// One entry of a tree listing.
#[derive(Clone, Debug, PartialEq, Eq)]
pub struct TreeEntry {
    /// The path relative to the root of the tree; empty for the root itself.
    pub path: String,
    /// Whether the entry is a directory.
    pub is_dir: bool,
    /// The index, in the listing, of the directory that holds this entry.
    /// It is not read for the first entry.
    pub parent: usize,
}

/// What the contracts read of a `TreeEntry`.
pub struct TreeEntryView {
    pub path: Seq<char>,
    pub is_dir: bool,
    pub parent: int,
}

impl View for TreeEntry {
    type V = TreeEntryView;

    open spec fn view(&self) -> TreeEntryView {
        TreeEntryView { path: self.path@, is_dir: self.is_dir, parent: self.parent as int }
    }
}

/// A collected entry: a relative path and whether it is a directory.
#[derive(Clone, Debug, PartialEq, Eq)]
pub struct Entry {
    pub path: String,
    pub is_dir: bool,
}

/// What the contracts read of an `Entry`.
pub struct EntryView {
    pub path: Seq<char>,
    pub is_dir: bool,
}

impl View for Entry {
    type V = EntryView;

    open spec fn view(&self) -> EntryView {
        EntryView { path: self.path@, is_dir: self.is_dir }
    }
}

/// The three pattern lists that decide which entries of a tree are taken.
#[derive(Clone, Debug, PartialEq, Eq)]
pub struct Filter {
    /// An entry that matches one of these is included, with all below it.
    pub includes: Vec<String>,
    /// An entry that matches one of these is skipped, with all below it.
    pub excludes: Vec<String>,
    /// An entry that matches one of these is never skipped by `exclude`.
    pub required: Vec<String>,
}

/// What the contracts read of a `Filter`.
pub struct FilterView {
    pub includes: Seq<Seq<char>>,
    pub excludes: Seq<Seq<char>>,
    pub required: Seq<Seq<char>>,
}

impl View for Filter {
    type V = FilterView;

    open spec fn view(&self) -> FilterView {
        FilterView {
            includes: texts(self.includes@),
            excludes: texts(self.excludes@),
            required: texts(self.required@),
        }
    }
}

/// The include list in force for an entry.
#[derive(Clone, Copy, Debug, PartialEq, Eq, Structural)]
pub enum IncludeMode {
    /// The include patterns of the filter, as configured.
    Configured,
    /// An ancestor directory was included, so everything matches.
    Inherited,
}

/// What the three pattern lists of a filter say of one entry.
#[derive(Clone, Copy, Debug, PartialEq, Eq, Structural)]
pub struct Marks {
    /// A require pattern matches the entry.
    pub required: bool,
    /// An exclude pattern matches the entry.
    pub excluded: bool,
    /// An include pattern matches the entry.
    pub included: bool,
}

/// The outcome of visiting one entry.
#[derive(Clone, Copy, Debug, PartialEq, Eq, Structural)]
pub enum Visit {
    /// The entry is excluded: neither it nor anything below it is looked at.
    Pruned,
    /// The entry stays. `included` says whether it belongs to the collected
    /// set; `children` is the include list for the entries directly below.
    Kept { included: bool, children: IncludeMode },
}

/// The views of a listing's entries.
pub open spec fn tree_views(listing: Seq<TreeEntry>) -> Seq<TreeEntryView> {
    Seq::new(listing.len(), |i: int| listing[i]@)
}

/// The views of a list of collected entries.
pub open spec fn entry_views(entries: Seq<Entry>) -> Seq<EntryView> {
    Seq::new(entries.len(), |i: int| entries[i]@)
}

/// The marks that a filter puts on the entry at `path`.
pub open spec fn marks_of(filter: FilterView, path: Seq<char>) -> Marks {
    Marks {
        required: any_match(filter.required, path),
        excluded: any_match(filter.excludes, path),
        included: any_match(filter.includes, path),
    }
}

/// The marks that a filter puts on each entry of a listing.
pub open spec fn marks_for(listing: Seq<TreeEntryView>, filter: FilterView) -> Seq<Marks> {
    Seq::new(listing.len(), |i: int| marks_of(filter, listing[i].path))
}

/// The marks of entry `i`; an entry that the list of marks does not reach
/// is matched by nothing.
pub open spec fn mark_at(marks: Seq<Marks>, i: int) -> Marks {
    if 0 <= i < marks.len() {
        marks[i]
    } else {
        Marks { required: false, excluded: false, included: false }
    }
}

/// The outcome of visiting an entry with the given marks under include list
/// `mode`. A require pattern that matches switches exclusion off; otherwise
/// an exclude pattern that matches prunes the entry. An entry that stays is
/// included under `Inherited`, or when an include pattern matches it, and
/// an included entry hands `Inherited` down.
pub open spec fn visit_spec(marks: Marks, mode: IncludeMode) -> Visit {
    if !marks.required && marks.excluded {
        Visit::Pruned
    } else {
        let included = mode == IncludeMode::Inherited || marks.included;
        Visit::Kept {
            included,
            children: if included {
                IncludeMode::Inherited
            } else {
                IncludeMode::Configured
            },
        }
    }
}

/// The include list under which the walk reaches entry `i`, or `None` when
/// the walk never gets there. The first entry is reached with the configured
/// list; a later one is reached when its parent is an earlier directory that
/// the walk reached and did not prune.
pub open spec fn reach(listing: Seq<TreeEntryView>, marks: Seq<Marks>, i: int) -> Option<
    IncludeMode,
>
    decreases i, 0int,
{
    if i == 0 && listing.len() > 0 {
        Some(IncludeMode::Configured)
    } else if 0 < i < listing.len() {
        let p = listing[i].parent;
        if 0 <= p < i && listing[p].is_dir {
            below(listing, marks, p)
        } else {
            None
        }
    } else {
        None
    }
}

/// The include list that entry `i` hands to the entries directly below it,
/// or `None` when nothing below it is visited.
pub open spec fn below(listing: Seq<TreeEntryView>, marks: Seq<Marks>, i: int) -> Option<
    IncludeMode,
>
    decreases i, 1int,
{
    if 0 <= i < listing.len() {
        match reach(listing, marks, i) {
            None => None,
            Some(mode) => match visit_spec(mark_at(marks, i), mode) {
                Visit::Pruned => None,
                Visit::Kept { included, children } => Some(children),
            },
        }
    } else {
        None
    }
}

/// Whether entry `i` belongs to the collected set: the walk reaches it, it
/// is kept and included, and it is not the root.
pub open spec fn selected(listing: Seq<TreeEntryView>, marks: Seq<Marks>, i: int) -> bool {
    &&& 0 <= i < listing.len()
    &&& listing[i].path.len() > 0
    &&& reach(listing, marks, i) matches Some(mode)
    &&& visit_spec(mark_at(marks, i), mode) matches Visit::Kept { included, children }
    &&& included
}

/// The entries of a listing, without their place in the tree.
pub open spec fn entries_of(listing: Seq<TreeEntryView>) -> Seq<EntryView> {
    Seq::new(
        listing.len(),
        |i: int| EntryView { path: listing[i].path, is_dir: listing[i].is_dir },
    )
}

/// The paths of a listing.
pub open spec fn paths_of(listing: Seq<TreeEntryView>) -> Seq<Seq<char>> {
    Seq::new(listing.len(), |i: int| listing[i].path)
}

/// The collected set of a listing whose entries carry the given marks: its
/// selected entries, in its order.
pub open spec fn collected(listing: Seq<TreeEntryView>, marks: Seq<Marks>) -> Seq<EntryView> {
    picked(entries_of(listing), |i: int| selected(listing, marks, i), listing.len() as int)
}

/// Whether entry `i` of a listing is an entry other than the root.
pub open spec fn is_listed(listing: Seq<TreeEntryView>, i: int) -> bool {
    0 <= i < listing.len() && listing[i].path.len() > 0
}

/// The paths of a listing but that of the root, in its order.
pub open spec fn listed(listing: Seq<TreeEntryView>) -> Seq<Seq<char>> {
    picked(paths_of(listing), |i: int| is_listed(listing, i), listing.len() as int)
}

/// An entry is collected only if the walk reached it, and the walk reaches
/// nothing below an entry that it pruned or never reached.
pub proof fn lemma_pruned_parent_hides_children(
    listing: Seq<TreeEntryView>,
    marks: Seq<Marks>,
    i: int,
)
    requires
        0 < i < listing.len(),
        below(listing, marks, listing[i].parent) is None,
    ensures
        reach(listing, marks, i) is None,
        !selected(listing, marks, i),
        below(listing, marks, i) is None,
{
}

/// Below an included entry everything that is reached and not pruned is
/// included, whatever the include patterns say of it.
pub proof fn lemma_included_parent_includes_children(
    listing: Seq<TreeEntryView>,
    marks: Seq<Marks>,
    i: int,
)
    requires
        0 < i < listing.len(),
        0 <= listing[i].parent < i,
        listing[listing[i].parent].is_dir,
        reach(listing, marks, listing[i].parent) matches Some(mode) && visit_spec(
            mark_at(marks, listing[i].parent),
            mode,
        ) matches Visit::Kept { included, children } && included,
        listing[i].path.len() > 0,
    ensures
        selected(listing, marks, i) <==> (mark_at(marks, i).required || !mark_at(marks, i).excluded),
{
}

/// Whether an entry is pruned depends on its marks alone, not on the
/// include list in force.
pub proof fn lemma_pruning_ignores_mode(marks: Marks, first: IncludeMode, second: IncludeMode)
    ensures
        visit_spec(marks, first) is Pruned <==> visit_spec(marks, second) is Pruned,
        visit_spec(marks, first) is Pruned <==> !marks.required && marks.excluded,
{
}

/// Without a mark from an include pattern no entry is reached under
/// `Inherited`, and none is selected.
pub proof fn lemma_nothing_included_selects_nothing(
    listing: Seq<TreeEntryView>,
    marks: Seq<Marks>,
    i: int,
)
    requires
        forall|k: int| 0 <= k < listing.len() ==> !(#[trigger] mark_at(marks, k)).included,
    ensures
        reach(listing, marks, i) != Some(IncludeMode::Inherited),
        below(listing, marks, i) != Some(IncludeMode::Inherited),
        !selected(listing, marks, i),
    decreases i,
{
    if 0 <= i < listing.len() {
        assert(!mark_at(marks, i).included);
        if i > 0 {
            let p = listing[i].parent;
            if 0 <= p < i {
                lemma_nothing_included_selects_nothing(listing, marks, p);
            }
        }
    }
}

/// Without a mark from an include pattern nothing is collected. An empty
/// include list is such a case.
pub proof fn lemma_nothing_included_collects_nothing(listing: Seq<TreeEntryView>, marks: Seq<Marks>)
    requires
        forall|k: int| 0 <= k < listing.len() ==> !(#[trigger] mark_at(marks, k)).included,
    ensures
        collected(listing, marks) == Seq::<EntryView>::empty(),
{
    let keep = |i: int| selected(listing, marks, i);
    assert forall|i: int| 0 <= i < listing.len() implies !#[trigger] accepts(keep, i) by {
        lemma_nothing_included_selects_nothing(listing, marks, i);
    }
    lemma_picked_none(entries_of(listing), keep, listing.len() as int);
}

/// Decides what becomes of an entry with the given marks when the walk
/// arrives at it under include list `mode`.
pub fn decide_visit(marks: Marks, mode: IncludeMode) -> (visit: Visit)
    ensures
        visit == visit_spec(marks, mode),
{
    if !marks.required && marks.excluded {
        return Visit::Pruned;
    }
    let included = match mode {
        IncludeMode::Inherited => true,
        IncludeMode::Configured => marks.included,
    };
    let children = if included {
        IncludeMode::Inherited
    } else {
        IncludeMode::Configured
    };
    Visit::Kept { included, children }
}

/// Tests the entry at `path` against the three pattern lists.
pub fn mark_entry(path: &str, filter: &Filter) -> (marks: Marks)
    ensures
        marks == marks_of(filter@, path@),
{
    Marks {
        required: matches_any(path, &filter.required),
        excluded: matches_any(path, &filter.excludes),
        included: matches_any(path, &filter.includes),
    }
}

/// Decides what becomes of the entry at `path` when the walk arrives at it.
/// A caller that walks a file system asks this of each entry and does not
/// descend into one that is pruned.
pub fn visit_entry(path: &str, mode: IncludeMode, filter: &Filter) -> (visit: Visit)
    ensures
        visit == visit_spec(marks_of(filter@, path@), mode),
{
    decide_visit(mark_entry(path, filter), mode)
}

/// Walks a listing top-down, given what the pattern lists say of each entry,
/// and returns the entries that belong to the collected set, in the order
/// of the listing. An entry without marks is matched by nothing.
pub fn collect_marked(listing: &Vec<TreeEntry>, marks: &Vec<Marks>) -> (out: Vec<Entry>)
    ensures
        entry_views(out@) == collected(tree_views(listing@), marks@),
{
    let ghost tree = tree_views(listing@);
    let ghost keep = |i: int| selected(tree, marks@, i);
    let mut handed: Vec<Option<IncludeMode>> = Vec::new();
    let mut out: Vec<Entry> = Vec::new();
    let mut i: usize = 0;
    while i < listing.len()
        invariant
            i <= listing.len(),
            tree == tree_views(listing@),
            keep == (|i: int| selected(tree, marks@, i)),
            handed.len() == i,
            forall|j: int| 0 <= j < i ==> handed[j] == below(tree, marks@, j),
            entry_views(out@) == picked(entries_of(tree), keep, i as int),
        decreases listing.len() - i,
    {
        let entry = &listing[i];
        assert(tree[i as int] == entry@);
        assert(entries_of(tree)[i as int] == EntryView { path: entry.path@, is_dir: entry.is_dir });
        let reached = if i == 0 {
            Some(IncludeMode::Configured)
        } else if entry.parent < i && listing[entry.parent].is_dir {
            assert(tree[entry.parent as int] == listing[entry.parent as int]@);
            handed[entry.parent]
        } else {
            None
        };
        assert(reached == reach(tree, marks@, i as int));
        let mark = if i < marks.len() {
            marks[i]
        } else {
            Marks { required: false, excluded: false, included: false }
        };
        let hands_down = match reached {
            None => None,
            Some(mode) => match decide_visit(mark, mode) {
                Visit::Pruned => None,
                Visit::Kept { included, children } => {
                    if included && !entry.path.as_str().is_empty() {
                        let ghost before = entry_views(out@);
                        out.push(Entry { path: entry.path.clone(), is_dir: entry.is_dir });
                        assert(entry_views(out@) =~= before.push(
                            EntryView { path: entry.path@, is_dir: entry.is_dir },
                        ));
                    }
                    Some(children)
                },
            },
        };
        handed.push(hands_down);
        i += 1;
    }
    out
}

/// Walks a listing top-down and returns the entries that pass the filter, in
/// the order of the listing. An empty include list collects nothing, and the
/// root is never part of the result.
pub fn collect(listing: &Vec<TreeEntry>, filter: &Filter) -> (out: Vec<Entry>)
    ensures
        entry_views(out@) == collected(
            tree_views(listing@),
            marks_for(tree_views(listing@), filter@),
        ),
{
    let mut marks: Vec<Marks> = Vec::new();
    let mut i: usize = 0;
    while i < listing.len()
        invariant
            i <= listing.len(),
            marks.len() == i,
            forall|j: int|
                0 <= j < i ==> #[trigger] marks[j] == marks_of(filter@, listing[j].path@),
        decreases listing.len() - i,
    {
        marks.push(mark_entry(listing[i].path.as_str(), filter));
        i += 1;
    }
    assert(marks@ =~= marks_for(tree_views(listing@), filter@));
    collect_marked(listing, &marks)
}

/// Lists every entry of a tree but its root, unfiltered, in the order of the
/// listing. This is how a destination tree is read.
pub fn list_paths(listing: &Vec<TreeEntry>) -> (out: Vec<String>)
    ensures
        texts(out@) == listed(tree_views(listing@)),
{
    let ghost tree = tree_views(listing@);
    let ghost keep = |i: int| is_listed(tree, i);
    let mut out: Vec<String> = Vec::new();
    let mut i: usize = 0;
    while i < listing.len()
        invariant
            i <= listing.len(),
            tree == tree_views(listing@),
            keep == (|i: int| is_listed(tree, i)),
            texts(out@) == picked(paths_of(tree), keep, i as int),
        decreases listing.len() - i,
    {
        let entry = &listing[i];
        assert(tree[i as int] == entry@);
        assert(paths_of(tree)[i as int] == entry.path@);
        if !entry.path.as_str().is_empty() {
            let ghost before = texts(out@);
            out.push(entry.path.clone());
            assert(texts(out@) =~= before.push(entry.path@));
        }
        i += 1;
    }
    out
}

} // verus!
