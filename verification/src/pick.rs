//! Picking the items of a list whose index passes a test, in order.

use vstd::prelude::*;

verus! {

/// Whether `keep` accepts index `i`.
pub open spec fn accepts(keep: spec_fn(int) -> bool, i: int) -> bool {
    keep(i)
}

/// The items among the first `n` whose index `keep` accepts, in order.
pub open spec fn picked<T>(items: Seq<T>, keep: spec_fn(int) -> bool, n: int) -> Seq<T>
    decreases n,
{
    if n <= 0 {
        Seq::empty()
    } else if keep(n - 1) {
        picked(items, keep, n - 1).push(items[n - 1])
    } else {
        picked(items, keep, n - 1)
    }
}

/// An item is among the picked ones exactly when `keep` accepts an index
/// that holds it.
pub proof fn lemma_picked_contains<T>(items: Seq<T>, keep: spec_fn(int) -> bool, n: int, item: T)
    requires
        0 <= n <= items.len(),
    ensures
        picked(items, keep, n).contains(item) <==> exists|i: int|
            0 <= i < n && keep(i) && #[trigger] items[i] == item,
    decreases n,
{
    if n > 0 {
        lemma_picked_contains(items, keep, n - 1, item);
        let before = picked(items, keep, n - 1);
        if keep(n - 1) {
            let now = before.push(items[n - 1]);
            assert(now == picked(items, keep, n));
            if now.contains(item) {
                let k = choose|k: int| 0 <= k < now.len() && now[k] == item;
                if k < before.len() {
                    assert(before[k] == item);
                    assert(before.contains(item));
                } else {
                    assert(items[n - 1] == item);
                }
            }
            if exists|i: int| 0 <= i < n && keep(i) && #[trigger] items[i] == item {
                let i = choose|i: int| 0 <= i < n && keep(i) && #[trigger] items[i] == item;
                if i < n - 1 {
                    assert(before.contains(item));
                    let k = choose|k: int| 0 <= k < before.len() && before[k] == item;
                    assert(now[k] == item);
                } else {
                    assert(now[before.len() as int] == item);
                }
            }
        }
    }
}

/// Where `keep` accepts no index, nothing is picked.
pub proof fn lemma_picked_none<T>(items: Seq<T>, keep: spec_fn(int) -> bool, n: int)
    requires
        forall|i: int| 0 <= i < n ==> !#[trigger] accepts(keep, i),
    ensures
        picked(items, keep, n) == Seq::<T>::empty(),
    decreases n,
{
    if n > 0 {
        lemma_picked_none(items, keep, n - 1);
        assert(!accepts(keep, n - 1));
    }
}

/// Picking keeps the order of the list and picks no index twice: the picked
/// items are the items at a rising run of accepted indices.
pub proof fn lemma_picked_in_order<T>(items: Seq<T>, keep: spec_fn(int) -> bool, n: int) -> (at: Seq<
    int,
>)
    requires
        0 <= n <= items.len(),
    ensures
        at.len() == picked(items, keep, n).len(),
        forall|k: int|
            0 <= k < at.len() ==> 0 <= #[trigger] at[k] < n && keep(at[k]) && picked(
                items,
                keep,
                n,
            )[k] == items[at[k]],
        forall|k: int, l: int| 0 <= k < l < at.len() ==> at[k] < at[l],
        forall|i: int| 0 <= i < n && keep(i) ==> at.contains(i),
    decreases n,
{
    if n <= 0 {
        Seq::empty()
    } else {
        let before = lemma_picked_in_order(items, keep, n - 1);
        if keep(n - 1) {
            let at = before.push(n - 1);
            assert forall|i: int| 0 <= i < n && keep(i) implies at.contains(i) by {
                if i < n - 1 {
                    assert(before.contains(i));
                    let k = choose|k: int| 0 <= k < before.len() && before[k] == i;
                    assert(at[k] == i);
                } else {
                    assert(at[before.len() as int] == i);
                }
            }
            at
        } else {
            before
        }
    }
}

} // verus!
