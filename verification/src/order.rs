//! The order in which falling blocks are processed: lowest row first.

use crate::Vec2;
use std::cmp::Ordering;
use vstd::prelude::*;

verus! {

/// Compares two coordinates by row, the lower row of the grid (the larger
/// `y`) first; the column does not count.
pub fn lower_row_first(a: &Vec2, b: &Vec2) -> (order: Ordering)
    ensures
        order == Ordering::Less <==> a.y > b.y,
        order == Ordering::Equal <==> a.y == b.y,
        order == Ordering::Greater <==> a.y < b.y,
{
    if a.y > b.y {
        Ordering::Less
    } else if a.y == b.y {
        Ordering::Equal
    } else {
        Ordering::Greater
    }
}

/// `sort_unstable_by` of std on slices, with `lower_row_first` as the
/// order: afterwards the list holds the same coordinates, each as often as
/// before, and no coordinate comes before one of a lower row. Where two
/// coordinates share a row, std does not say which comes first, and neither
/// does this contract.
#[verifier::external_body]
pub(crate) fn sort_lowest_first(items: &mut Vec<Vec2>)
    ensures
        final(items)@.to_multiset() == old(items)@.to_multiset(),
        forall|i: int, j: int|
            0 <= i < j < final(items)@.len() ==> final(items)@[i].y >= final(items)@[j].y,
{
    items.sort_unstable_by(|a, b| lower_row_first(a, b));
}

} // verus!
