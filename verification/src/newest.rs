//! Keeping only the newest entry of each only-newest group.
//!
//! An entry belongs to the group of the first only-newest pattern that
//! matches its path, so entries of different directories compete when one
//! pattern covers them. Of each group the entry with the latest creation
//! time stays; among equal times the one that stands first in the list
//! stays. Entries of no group are left alone.

use crate::collect::{entry_views, Entry, EntryView};
use crate::pattern::{find_match, first_match, texts};
use crate::pick::picked;
use crate::plan::entry_paths;
use std::collections::HashMap;
use vstd::prelude::*;

verus! {

/// The group of each path: the index of the first pattern that matches it.
pub open spec fn groups_for(paths: Seq<Seq<char>>, patterns: Seq<Seq<char>>) -> Seq<Option<usize>> {
    Seq::new(
        paths.len(),
        |i: int|
            match first_match(patterns, paths[i]) {
                Some(k) => Some(k as usize),
                None => None,
            },
    )
}

/// The group in which entry `i` competes. An entry without a group or
/// without a creation time competes in none.
pub open spec fn group_of(groups: Seq<Option<usize>>, created: Seq<Option<u128>>, i: int) -> Option<
    usize,
> {
    if 0 <= i < groups.len() && i < created.len() && created[i] is Some {
        groups[i]
    } else {
        None
    }
}

/// Whether entry `i` is kept in favour of entry `j` of the same group: it
/// was created later, or at the same time and does not stand after `j`.
pub open spec fn outlives(created: Seq<Option<u128>>, i: int, j: int) -> bool {
    created[j]->0 < created[i]->0 || (created[j]->0 == created[i]->0 && i <= j)
}

/// Whether entry `i` is kept in favour of every entry of its group among
/// the first `n`.
pub open spec fn newest_among(
    groups: Seq<Option<usize>>,
    created: Seq<Option<u128>>,
    i: int,
    n: int,
) -> bool {
    forall|j: int|
        0 <= j < n && #[trigger] group_of(groups, created, j) == group_of(groups, created, i)
            ==> outlives(created, i, j)
}

/// Whether entry `i` of `n` stays in the set: it competes in no group, or
/// it is the newest of its group.
pub open spec fn survives(
    groups: Seq<Option<usize>>,
    created: Seq<Option<u128>>,
    i: int,
    n: int,
) -> bool {
    group_of(groups, created, i) is None || newest_among(groups, created, i, n)
}

/// The reduced set: the entries that survive, in their order.
pub open spec fn reduced(
    entries: Seq<EntryView>,
    created: Seq<Option<u128>>,
    groups: Seq<Option<usize>>,
) -> Seq<EntryView> {
    picked(
        entries,
        |i: int| survives(groups, created, i, entries.len() as int),
        entries.len() as int,
    )
}

/// Of two entries that make up a group, the one created later survives
/// alone; created at the same time, the one that stands first does.
pub proof fn lemma_newest_of_two(
    groups: Seq<Option<usize>>,
    created: Seq<Option<u128>>,
    i: int,
    j: int,
    n: int,
)
    requires
        0 <= i < j < n,
        group_of(groups, created, i) is Some,
        group_of(groups, created, j) == group_of(groups, created, i),
        forall|k: int|
            0 <= k < n && #[trigger] group_of(groups, created, k) == group_of(groups, created, i)
                ==> k == i || k == j,
    ensures
        created[i]->0 < created[j]->0 ==> survives(groups, created, j, n) && !survives(
            groups,
            created,
            i,
            n,
        ),
        created[i]->0 >= created[j]->0 ==> survives(groups, created, i, n) && !survives(
            groups,
            created,
            j,
            n,
        ),
{
    if created[i]->0 < created[j]->0 {
        assert(!outlives(created, i, j));
    } else {
        assert(!outlives(created, j, i));
    }
}

/// Two survivors of one group are the same entry.
pub proof fn lemma_survivor_is_unique(
    groups: Seq<Option<usize>>,
    created: Seq<Option<u128>>,
    i: int,
    j: int,
    n: int,
)
    requires
        0 <= i < n,
        0 <= j < n,
        group_of(groups, created, i) is Some,
        group_of(groups, created, j) == group_of(groups, created, i),
        survives(groups, created, i, n),
        survives(groups, created, j, n),
    ensures
        i == j,
{
    assert(outlives(created, i, j));
    assert(outlives(created, j, i));
}

/// A group with a member among the first `n` entries has a newest one
/// among them. With `n` the length of the list, that entry survives.
pub proof fn lemma_group_has_newest(
    groups: Seq<Option<usize>>,
    created: Seq<Option<u128>>,
    group: usize,
    n: int,
) -> (w: int)
    requires
        exists|j: int| 0 <= j < n && #[trigger] group_of(groups, created, j) == Some(group),
    ensures
        0 <= w < n,
        group_of(groups, created, w) == Some(group),
        newest_among(groups, created, w, n),
    decreases n,
{
    let last = n - 1;
    let earlier = exists|j: int|
        0 <= j < last && #[trigger] group_of(groups, created, j) == Some(group);
    if group_of(groups, created, last) == Some(group) {
        if earlier {
            let w = lemma_group_has_newest(groups, created, group, last);
            if created[last]->0 > created[w]->0 {
                assert(newest_among(groups, created, last, n)) by {
                    assert forall|j: int|
                        0 <= j < n && #[trigger] group_of(groups, created, j) == group_of(
                            groups,
                            created,
                            last,
                        ) implies outlives(created, last, j) by {
                        if j < last {
                            assert(outlives(created, w, j));
                        }
                    }
                }
                last
            } else {
                w
            }
        } else {
            last
        }
    } else {
        let j = choose|j: int| 0 <= j < n && #[trigger] group_of(groups, created, j) == Some(group);
        assert(j < last);
        lemma_group_has_newest(groups, created, group, last)
    }
}

/// Removes from `entries` all but the newest entry of each group.
/// `groups[i]` names the group of `entries[i]`, if it has one, and
/// `created[i]` is its creation time, in any unit that grows with time. An
/// entry without a group or without a time is left alone.
pub fn keep_newest_of_groups(
    entries: &mut Vec<Entry>,
    created: &Vec<Option<u128>>,
    groups: &Vec<Option<usize>>,
)
    ensures
        entry_views(final(entries)@) == reduced(entry_views(old(entries)@), created@, groups@),
{
    broadcast use vstd::std_specs::hash::group_hash_axioms;

    let ghost all = entry_views(entries@);
    let n = entries.len();

    let mut removed: Vec<bool> = Vec::new();
    let mut r: usize = 0;
    while r < n
        invariant
            r <= n,
            removed.len() == r,
            forall|k: int| 0 <= k < r ==> !removed[k],
        decreases n - r,
    {
        removed.push(false);
        r += 1;
    }

    let mut winners: HashMap<usize, usize> = HashMap::new();
    let mut i: usize = 0;
    while i < n
        invariant
            i <= n,
            removed.len() == n,
            forall|g: usize| #[trigger]
                winners@.dom().contains(g) ==> winners@[g] < i && group_of(
                    groups@,
                    created@,
                    winners@[g] as int,
                ) == Some(g) && newest_among(groups@, created@, winners@[g] as int, i as int),
            forall|j: int|
                0 <= j < i ==> (#[trigger] group_of(groups@, created@, j) matches Some(g)
                    ==> winners@.dom().contains(g)),
            forall|j: int|
                0 <= j < n ==> #[trigger] removed[j] == (j < i && (group_of(
                    groups@,
                    created@,
                    j,
                ) matches Some(g) && winners@[g] != j)),
        decreases n - i,
    {
        let stamp = if i < created.len() {
            created[i]
        } else {
            None
        };
        let group = if i < groups.len() {
            groups[i]
        } else {
            None
        };
        if let (Some(g), Some(t)) = (group, stamp) {
            assert(group_of(groups@, created@, i as int) == Some(g));
            let incumbent = match winners.get(&g) {
                Some(w) => Some(*w),
                None => None,
            };
            match incumbent {
                None => {
                    winners.insert(g, i);
                },
                Some(w) => {
                    let t_w = match created[w] {
                        Some(t_w) => t_w,
                        None => 0,
                    };
                    if t > t_w {
                        removed.set(w, true);
                        winners.insert(g, i);
                    } else {
                        removed.set(i, true);
                    }
                },
            }
        } else {
            assert(group_of(groups@, created@, i as int) is None);
        }
        i += 1;
    }

    proof {
        assert forall|j: int| 0 <= j < n implies #[trigger] removed[j] == !survives(
            groups@,
            created@,
            j,
            n as int,
        ) by {
            if group_of(groups@, created@, j) is Some {
                let g = group_of(groups@, created@, j)->0;
                assert(winners@.dom().contains(g));
                let w = winners@[g];
                if w != j {
                    assert(group_of(groups@, created@, w as int) == group_of(
                        groups@,
                        created@,
                        j,
                    ));
                    assert(outlives(created@, w as int, j));
                    assert(!outlives(created@, j, w as int));
                }
            }
        }
    }

    let ghost keep = |i: int| survives(groups@, created@, i, n as int);
    let mut kept: Vec<Entry> = Vec::new();
    let mut m: usize = 0;
    while m < n
        invariant
            m <= n,
            n == entries.len(),
            removed.len() == n,
            all == entry_views(entries@),
            keep == (|i: int| survives(groups@, created@, i, n as int)),
            forall|j: int|
                0 <= j < n ==> #[trigger] removed[j] == !survives(groups@, created@, j, n as int),
            entry_views(kept@) == picked(all, keep, m as int),
        decreases n - m,
    {
        assert(all[m as int] == entries[m as int]@);
        if !removed[m] {
            let ghost before = entry_views(kept@);
            kept.push(Entry { path: entries[m].path.clone(), is_dir: entries[m].is_dir });
            assert(entry_views(kept@) =~= before.push(entries[m as int]@));
        }
        m += 1;
    }
    *entries = kept;
}

/// Removes from `entries` all but the newest entry of each only-newest
/// group. `created[i]` is the creation time of `entries[i]`; it is needed
/// only for entries that an only-newest pattern matches, and an entry
/// without one (`None`, or past the end of `created`) is left alone.
///
/// A caller that cannot read a creation time and puts the current time in
/// its place makes that entry newer than every entry with a real time of
/// the past, and the outcome differs from run to run.
pub fn keep_only_newest(
    entries: &mut Vec<Entry>,
    created: &Vec<Option<u128>>,
    only_newest: &Vec<String>,
)
    ensures
        entry_views(final(entries)@) == reduced(
            entry_views(old(entries)@),
            created@,
            groups_for(entry_paths(entry_views(old(entries)@)), texts(only_newest@)),
        ),
{
    let ghost paths = entry_paths(entry_views(entries@));
    let mut groups: Vec<Option<usize>> = Vec::new();
    let mut i: usize = 0;
    while i < entries.len()
        invariant
            i <= entries.len(),
            paths == entry_paths(entry_views(entries@)),
            groups.len() == i,
            forall|j: int|
                0 <= j < i ==> #[trigger] groups[j] == groups_for(paths, texts(only_newest@))[j],
        decreases entries.len() - i,
    {
        assert(paths[i as int] == entries[i as int].path@);
        groups.push(find_match(entries[i].path.as_str(), only_newest));
        i += 1;
    }
    assert(groups@ =~= groups_for(paths, texts(only_newest@)));
    keep_newest_of_groups(entries, created, &groups);
}

} // verus!
