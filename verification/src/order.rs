//! The comparator that puts a tree walk in descending path order.

use crate::paths::{order_paths, path_order, PathOrder};
use std::cmp::Ordering;
use vstd::prelude::*;
use vstd::string::StringSliceAdditionalSpecFns;

verus! {

/// Compares two paths in reverse: the result says where `right` stands
/// relative to `left`, so that sorting by it lists paths in descending
/// order.
pub fn path_cmp(left: &str, right: &str) -> (result: Ordering)
    ensures
        result == match path_order(right.spec_bytes(), left.spec_bytes()) {
            PathOrder::Before => Ordering::Less,
            PathOrder::Same => Ordering::Equal,
            PathOrder::After => Ordering::Greater,
        },
{
    match order_paths(right, left) {
        PathOrder::Before => Ordering::Less,
        PathOrder::Same => Ordering::Equal,
        PathOrder::After => Ordering::Greater,
    }
}

} // verus!
