//! Relative paths as strings: their order, and how they are joined to a
//! root.
//!
//! A relative path is written with `/` between its segments and without
//! empty, `.` or `..` segments; the empty string is the root itself.

use vstd::prelude::*;
use vstd::string::StringSliceAdditionalSpecFns;

verus! {

/// Where one path stands relative to another.
#[derive(Clone, Copy, Debug, PartialEq, Eq, Structural)]
pub enum PathOrder {
    Before,
    Same,
    After,
}

/// The rank of a byte within a path: the separator `/` ranks below every
/// other byte, so that a path sorts before all paths that extend one of its
/// segments.
pub open spec fn rank(byte: u8) -> int {
    if byte == 0x2f {
        -1
    } else {
        byte as int
    }
}

/// The order of `a` and `b` from byte `from` on, given that they agree
/// before it.
pub open spec fn order_from(a: Seq<u8>, b: Seq<u8>, from: int) -> PathOrder
    decreases a.len() - from,
{
    if from < 0 || from >= a.len() {
        if from >= b.len() {
            PathOrder::Same
        } else {
            PathOrder::Before
        }
    } else if from >= b.len() {
        PathOrder::After
    } else if rank(a[from]) < rank(b[from]) {
        PathOrder::Before
    } else if rank(a[from]) > rank(b[from]) {
        PathOrder::After
    } else {
        order_from(a, b, from + 1)
    }
}

/// The order of two relative paths, given by their bytes: segment by
/// segment, each segment by its bytes, a path before its extensions.
pub open spec fn path_order(a: Seq<u8>, b: Seq<u8>) -> PathOrder {
    order_from(a, b, 0)
}

/// The opposite order.
pub open spec fn flipped(order: PathOrder) -> PathOrder {
    match order {
        PathOrder::Before => PathOrder::After,
        PathOrder::Same => PathOrder::Same,
        PathOrder::After => PathOrder::Before,
    }
}

/// Swapping two paths flips their order, and only a path itself stands at
/// the same place as it.
pub proof fn lemma_path_order_flips(a: Seq<u8>, b: Seq<u8>)
    ensures
        path_order(b, a) == flipped(path_order(a, b)),
        path_order(a, b) == PathOrder::Same <==> a == b,
{
    assert(a.subrange(0, 0) =~= b.subrange(0, 0));
    lemma_order_from_flips(a, b, 0);
}

/// The same of two paths that agree before byte `from`.
pub proof fn lemma_order_from_flips(a: Seq<u8>, b: Seq<u8>, from: int)
    requires
        0 <= from,
        from <= a.len(),
        from <= b.len(),
        a.subrange(0, from) == b.subrange(0, from),
    ensures
        order_from(b, a, from) == flipped(order_from(a, b, from)),
        order_from(a, b, from) == PathOrder::Same <==> a == b,
    decreases a.len() - from,
{
    if from < a.len() && from < b.len() {
        if rank(a[from]) == rank(b[from]) {
            assert(a[from] == b[from]);
            assert(a.subrange(0, from + 1) =~= a.subrange(0, from).push(a[from]));
            assert(b.subrange(0, from + 1) =~= b.subrange(0, from).push(b[from]));
            lemma_order_from_flips(a, b, from + 1);
        } else {
            assert(a[from] != b[from]);
        }
    } else if from == a.len() && from == b.len() {
        assert(a =~= a.subrange(0, from));
        assert(b =~= b.subrange(0, from));
    }
}

/// The order is transitive: a path before a second one that is before or at
/// a third is before the third, and likewise with the second at the first.
pub proof fn lemma_path_order_transitive(a: Seq<u8>, b: Seq<u8>, c: Seq<u8>)
    requires
        path_order(a, b) != PathOrder::After,
        path_order(b, c) != PathOrder::After,
    ensures
        path_order(a, c) != PathOrder::After,
        path_order(a, c) == PathOrder::Same ==> path_order(a, b) == PathOrder::Same && path_order(
            b,
            c,
        ) == PathOrder::Same,
{
    lemma_order_from_transitive(a, b, c, 0);
}

/// The same of three paths looked at from byte `from` on.
pub proof fn lemma_order_from_transitive(a: Seq<u8>, b: Seq<u8>, c: Seq<u8>, from: int)
    requires
        0 <= from,
        order_from(a, b, from) != PathOrder::After,
        order_from(b, c, from) != PathOrder::After,
    ensures
        order_from(a, c, from) != PathOrder::After,
        order_from(a, c, from) == PathOrder::Same ==> order_from(a, b, from) == PathOrder::Same
            && order_from(b, c, from) == PathOrder::Same,
    decreases a.len() - from,
{
    if from < a.len() && from < b.len() && from < c.len() {
        if rank(a[from]) == rank(b[from]) && rank(b[from]) == rank(c[from]) {
            lemma_order_from_transitive(a, b, c, from + 1);
        }
    }
}

/// Orders two relative paths.
pub fn order_paths(left: &str, right: &str) -> (order: PathOrder)
    ensures
        order == path_order(left.spec_bytes(), right.spec_bytes()),
{
    let a = left.as_bytes();
    let b = right.as_bytes();
    let mut i: usize = 0;
    while i < a.len() && i < b.len()
        invariant
            i <= a.len(),
            i <= b.len(),
            a@ == left.spec_bytes(),
            b@ == right.spec_bytes(),
            path_order(a@, b@) == order_from(a@, b@, i as int),
        decreases a.len() - i,
    {
        let x = a[i];
        let y = b[i];
        if x != y {
            if x == 0x2f {
                return PathOrder::Before;
            }
            if y == 0x2f {
                return PathOrder::After;
            }
            if x < y {
                return PathOrder::Before;
            }
            return PathOrder::After;
        }
        i += 1;
    }
    if i < b.len() {
        PathOrder::Before
    } else if i < a.len() {
        PathOrder::After
    } else {
        PathOrder::Same
    }
}

/// `root`, a separator, and `relative`.
pub open spec fn joined(root: Seq<char>, relative: Seq<char>) -> Seq<char> {
    root + seq!['/'] + relative
}

/// The path of `relative` under `root`.
pub fn join_path(root: &str, relative: &str) -> (path: String)
    ensures
        path@ == joined(root@, relative@),
{
    proof {
        reveal_strlit("/");
        assert("/"@ =~= seq!['/']);
    }
    let mut path = String::from_str(root);
    path.append("/");
    path.append(relative);
    path
}

} // verus!
