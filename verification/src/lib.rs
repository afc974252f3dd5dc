//! Verified core of a sorting-algorithm visualizer.
//!
//! Bars of varying heights are shuffled and then sorted by counting sort,
//! comb sort, or cocktail (bidirectional bubble) sort.  Each sorting routine
//! is proved to leave the bar heights sorted and to permute, never alter,
//! the collection of heights; alongside the sorted result it emits the exact
//! sequence of elementary steps (comparisons, swaps, assignments) it took,
//! so that an unverified front end can replay them frame by frame.

use vstd::prelude::*;

pub mod cocktail;
pub mod comb;
pub mod counting;
pub mod layout;
pub mod perm;
pub mod shuffle;
pub mod steps;

verus! {

/// The heights are in ascending order.
pub open spec fn sorted(s: Seq<u32>) -> bool {
    forall|i: int, j: int| 0 <= i <= j < s.len() ==> s[i] <= s[j]
}

/// The tallest bar: the maximum of a non-empty slice of heights.
pub fn max_height(heights: &Vec<u32>) -> (max: u32)
    requires
        heights@.len() > 0,
    ensures
        heights@.contains(max),
        forall|i: int| 0 <= i < heights@.len() ==> heights@[i] <= max,
{
    let mut max: u32 = heights[0];
    let mut i: usize = 1;
    while i < heights.len()
        invariant
            1 <= i <= heights@.len(),
            heights@.contains(max),
            forall|k: int| 0 <= k < i ==> heights@[k] <= max,
        decreases heights@.len() - i,
    {
        if heights[i] > max {
            max = heights[i];
        }
        i += 1;
    }
    max
}

} // verus!
