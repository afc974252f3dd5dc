//! Comb sort: bubble sort with a shrinking gap.  The gap starts at the
//! length, shrinks by the factor 10/13 each round (never below one), and
//! rounds repeat until a gap-one round makes no swap.

use crate::perm::{inversions, lemma_adjacent_swap_inversions, lemma_chain_le};
use crate::sorted;
use crate::steps::{
    compare_precedes_swap, lemma_push_compare_pattern, lemma_push_swap_pattern,
    lemma_replay_push, replay, step_distance, step_in_range, step_is_ordered_exchange, swap_at,
    SortStep,
};
use vstd::prelude::*;

verus! {

/// Sorts the bar heights in place and returns the comparisons and swaps it
/// made, in order, for a front end to replay.
#[verifier::rlimit(50)]
pub fn comb_sort(heights: &mut Vec<u32>) -> (steps: Vec<SortStep>)
    ensures
        sorted(final(heights)@),
        final(heights)@.to_multiset() == old(heights)@.to_multiset(),
        final(heights)@.len() == old(heights)@.len(),
        final(heights)@ == replay(old(heights)@, steps@),
        forall|m: int|
            0 <= m < steps@.len() ==> step_in_range(
                #[trigger] steps@[m],
                old(heights)@.len() as int,
            ),
        forall|m: int| 0 <= m < steps@.len() ==> step_is_ordered_exchange(#[trigger] steps@[m]),
        compare_precedes_swap(steps@),
        // the gap only ever shrinks, so the compared distances never grow
        forall|m1: int, m2: int|
            #![trigger step_distance(steps@[m1]), step_distance(steps@[m2])]
            0 <= m1 <= m2 < steps@.len() ==> step_distance(steps@[m1]) >= step_distance(
                steps@[m2],
            ),
{
    let ghost s0 = heights@;
    let mut steps: Vec<SortStep> = Vec::new();
    let n = heights.len();
    if n < 2 {
        return steps;
    }
    let mut gap: usize = n;
    let mut swapped: bool = true;
    while gap != 1 || swapped
        invariant
            n == heights@.len(),
            n == s0.len(),
            2 <= n,
            1 <= gap <= n,
            heights@.to_multiset() == s0.to_multiset(),
            heights@ == replay(s0, steps@),
            forall|m: int|
                0 <= m < steps@.len() ==> step_in_range(#[trigger] steps@[m], n as int),
            forall|m: int|
                0 <= m < steps@.len() ==> step_is_ordered_exchange(#[trigger] steps@[m]),
            compare_precedes_swap(steps@),
            forall|m: int| 0 <= m < steps@.len() ==> step_distance(#[trigger] steps@[m]) >= gap,
            forall|m1: int, m2: int|
                #![trigger step_distance(steps@[m1]), step_distance(steps@[m2])]
                0 <= m1 <= m2 < steps@.len() ==> step_distance(steps@[m1]) >= step_distance(
                    steps@[m2],
                ),
            (gap == 1 && !swapped) ==> sorted(heights@),
        decreases gap, inversions(heights@), (if swapped {
            1int
        } else {
            0int
        }),
    {
        let ghost gap_entry = gap;
        // shrink the gap; 128-bit arithmetic keeps the product exact
        let shrunk: u128 = gap as u128 * 10 / 13;
        assert(shrunk < gap as u128);
        gap = if shrunk < 1 {
            1
        } else {
            shrunk as usize
        };
        assert(gap_entry >= 2 ==> gap < gap_entry);

        swapped = false;
        let ghost v_pass = heights@;
        let mut i: usize = 0;
        while i < n - gap
            invariant
                n == heights@.len(),
                n == s0.len(),
                1 <= gap <= n,
                i <= n - gap,
                heights@.to_multiset() == s0.to_multiset(),
                heights@ == replay(s0, steps@),
                forall|m: int|
                    0 <= m < steps@.len() ==> step_in_range(#[trigger] steps@[m], n as int),
                forall|m: int|
                    0 <= m < steps@.len() ==> step_is_ordered_exchange(#[trigger] steps@[m]),
                compare_precedes_swap(steps@),
                forall|m: int|
                    0 <= m < steps@.len() ==> step_distance(#[trigger] steps@[m]) >= gap,
                forall|m1: int, m2: int|
                    #![trigger step_distance(steps@[m1]), step_distance(steps@[m2])]
                    0 <= m1 <= m2 < steps@.len() ==> step_distance(steps@[m1]) >= step_distance(
                        steps@[m2],
                    ),
                !swapped ==> heights@ == v_pass,
                !swapped ==> forall|k: int|
                    0 <= k < i ==> #[trigger] heights@[k] <= heights@[k + gap],
                gap == 1 ==> inversions(heights@) <= inversions(v_pass),
                (gap == 1 && swapped) ==> inversions(heights@) < inversions(v_pass),
            decreases n - gap - i,
        {
            let j = i + gap;
            let st = SortStep::Compare(i, j);
            proof {
                lemma_replay_push(s0, steps@, st);
                lemma_push_compare_pattern(steps@, i, j);
            }
            steps.push(st);
            if heights[i] > heights[j] {
                let ghost before = heights@;
                let st2 = SortStep::Swap(i, j);
                proof {
                    lemma_replay_push(s0, steps@, st2);
                    lemma_push_swap_pattern(steps@, i, j);
                }
                steps.push(st2);
                swap_at(heights, i, j);
                proof {
                    if gap == 1 {
                        lemma_adjacent_swap_inversions(before, i as int);
                    }
                }
                swapped = true;
            }
            i += 1;
        }
        proof {
            if gap == 1 && !swapped {
                assert forall|a: int, b: int|
                    0 <= a <= b < heights@.len() implies heights@[a] <= heights@[b] by {
                    assert(forall|k: int|
                        0 <= k < n - 1 ==> #[trigger] heights@[k] <= heights@[k + 1]);
                    lemma_chain_le(heights@, a, b);
                }
            }
        }
    }
    steps
}

} // verus!
