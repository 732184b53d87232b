use vstd::prelude::*;

verus! {

/// The values of `s` never decrease from left to right.
pub open spec fn is_sorted(s: Seq<usize>) -> bool {
    forall|i: int, j: int| 0 <= i <= j < s.len() ==> s[i] <= s[j]
}

/// Looks for `target` in the sorted `arr` by halving the range that may
/// still hold it. Returns a position holding `target`, or `None` when no
/// position does (an empty slice included).
pub fn binary_search(arr: &[usize], target: usize) -> (r: Option<usize>)
    requires
        is_sorted(arr@),
    ensures
        match r {
            Some(i) => i < arr@.len() && arr@[i as int] == target,
            None => !arr@.contains(target),
        },
{
    if arr.len() == 0 {
        return None;
    }
    let mut low: usize = 0;
    let mut high: usize = arr.len() - 1;
    while low <= high
        invariant
            is_sorted(arr@),
            high < arr@.len(),
            low <= arr@.len(),
            forall|i: int| 0 <= i < low ==> arr@[i] < target,
            forall|i: int| high < i < arr@.len() ==> arr@[i] > target,
        decreases high + 1 - low,
    {
        let mid = low + (high - low) / 2;
        let guess = arr[mid];
        if guess == target {
            return Some(mid);
        } else if guess > target {
            if mid == 0 {
                return None;
            }
            high = mid - 1;
        } else {
            low = mid + 1;
        }
    }
    None
}

} // verus!
