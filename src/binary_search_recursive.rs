use vstd::prelude::*;

verus! {

use crate::binary_search::is_sorted;

/// Looks for `target` between positions `low` and `high` (both included)
/// of the sorted `arr`, recursing into the half that may still hold it.
/// Returns a position in that range holding `target`, or `None` when none
/// does (an empty range, `low > high`, included).
pub fn binary_search(arr: &[usize], target: &usize, low: usize, high: usize) -> (r: Option<usize>)
    requires
        is_sorted(arr@),
        low <= high ==> high < arr@.len(),
    ensures
        match r {
            Some(i) => low <= i <= high && arr@[i as int] == *target,
            None => forall|i: int| low <= i <= high ==> arr@[i] != *target,
        },
    decreases high + 1 - low,
{
    if low > high {
        return None;
    }
    let mid = low + (high - low) / 2;
    let guess = &arr[mid];
    if *guess > *target {
        if mid == 0 {
            return None;
        }
        return binary_search(arr, target, low, mid - 1);
    } else if *guess < *target {
        return binary_search(arr, target, mid + 1, high);
    }
    Some(mid)
}

} // verus!
