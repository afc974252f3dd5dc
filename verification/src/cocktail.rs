//! Cocktail sort: a bidirectional bubble sort.  Each round bubbles the
//! largest remaining height up to the right boundary, then the smallest
//! remaining height down to the left boundary, shrinking the unsettled
//! window from both ends until a round makes no swap.

use crate::perm::{inversions, lemma_adjacent_swap_inversions, lemma_chain_le};
use crate::sorted;
use crate::steps::{
    compare_precedes_swap, lemma_push_compare_pattern, lemma_push_swap_pattern,
    lemma_replay_push, replay, step_in_range, step_is_adjacent_exchange, swap_at, SortStep,
};
use vstd::prelude::*;

verus! {

/// Sorts the bar heights in place and returns the comparisons and swaps it
/// made, in order, for a front end to replay.
pub fn cocktail_sort(heights: &mut Vec<u32>) -> (steps: Vec<SortStep>)
    ensures
        sorted(final(heights)@),
        final(heights)@.to_multiset() == old(heights)@.to_multiset(),
        final(heights)@.len() == old(heights)@.len(),
        final(heights)@ == replay(old(heights)@, steps@),
        forall|m: int|
            0 <= m < steps@.len() ==> step_in_range(
                #[trigger] steps@[m],
                old(heights)@.len() as int,
            ),
        forall|m: int| 0 <= m < steps@.len() ==> step_is_adjacent_exchange(#[trigger] steps@[m]),
        compare_precedes_swap(steps@),
{
    let ghost s0 = heights@;
    let mut steps: Vec<SortStep> = Vec::new();
    let n = heights.len();
    if n < 2 {
        return steps;
    }
    let mut start: usize = 0;
    let mut end: usize = n - 1;
    let mut swapped: bool = true;
    while swapped
        invariant
            n == heights@.len(),
            n == s0.len(),
            2 <= n,
            end < n,
            start <= n,
            swapped ==> start <= end,
            heights@.to_multiset() == s0.to_multiset(),
            heights@ == replay(s0, steps@),
            forall|m: int|
                0 <= m < steps@.len() ==> step_in_range(#[trigger] steps@[m], n as int),
            forall|m: int|
                0 <= m < steps@.len() ==> step_is_adjacent_exchange(#[trigger] steps@[m]),
            compare_precedes_swap(steps@),
            // heights beyond `end` are settled: sorted and above all the rest
            forall|a: int, b: int|
                #![trigger heights@[a], heights@[b]]
                0 <= a <= b < n && end < b ==> heights@[a] <= heights@[b],
            // heights before `start` are settled: sorted and below all the rest
            forall|a: int, b: int|
                #![trigger heights@[a], heights@[b]]
                0 <= a <= b < n && a < start ==> heights@[a] <= heights@[b],
            !swapped ==> sorted(heights@),
        ensures
            sorted(heights@),
            heights@.to_multiset() == s0.to_multiset(),
            heights@ == replay(s0, steps@),
            forall|m: int|
                0 <= m < steps@.len() ==> step_in_range(#[trigger] steps@[m], n as int),
            forall|m: int|
                0 <= m < steps@.len() ==> step_is_adjacent_exchange(#[trigger] steps@[m]),
            compare_precedes_swap(steps@),
            heights@.len() == n,
        decreases inversions(heights@),
    {
        swapped = false;
        let ghost v_f = heights@;
        let mut i: usize = 0;
        while i < end
            invariant
                n == heights@.len(),
                n == s0.len(),
                i <= end,
                end < n,
                start <= n,
                heights@.to_multiset() == s0.to_multiset(),
                heights@ == replay(s0, steps@),
                forall|m: int|
                    0 <= m < steps@.len() ==> step_in_range(#[trigger] steps@[m], n as int),
                forall|m: int|
                    0 <= m < steps@.len() ==> step_is_adjacent_exchange(#[trigger] steps@[m]),
                compare_precedes_swap(steps@),
                forall|a: int, b: int|
                    #![trigger heights@[a], heights@[b]]
                    0 <= a <= b < n && end < b ==> heights@[a] <= heights@[b],
                forall|a: int, b: int|
                    #![trigger heights@[a], heights@[b]]
                    0 <= a <= b < n && a < start ==> heights@[a] <= heights@[b],
                forall|k: int| 0 <= k < i ==> #[trigger] heights@[k] <= heights@[i as int],
                !swapped ==> heights@ == v_f,
                !swapped ==> forall|k: int|
                    0 <= k < i ==> #[trigger] heights@[k] <= heights@[k + 1],
                swapped ==> 1 <= end,
                inversions(heights@) <= inversions(v_f),
                swapped ==> inversions(heights@) < inversions(v_f),
            decreases end - i,
        {
            let j = i + 1;
            let st = SortStep::Compare(i, j);
            proof {
                lemma_replay_push(s0, steps@, st);
                lemma_push_compare_pattern(steps@, i, j);
            }
            steps.push(st);
            if heights[i] > heights[j] {
                let ghost before = heights@;
                let st2 = SortStep::Swap(i, j);
                proof {
                    lemma_replay_push(s0, steps@, st2);
                    lemma_push_swap_pattern(steps@, i, j);
                }
                steps.push(st2);
                swap_at(heights, i, j);
                proof {
                    lemma_adjacent_swap_inversions(before, i as int);
                }
                swapped = true;
            }
            i += 1;
        }
        if !swapped {
            proof {
                assert forall|a: int, b: int|
                    0 <= a <= b < heights@.len() implies heights@[a] <= heights@[b] by {
                    if b <= end {
                        lemma_chain_le(heights@, a, b);
                    }
                }
            }
            break;
        }

        end = end - 1;
        // the forward pass has bubbled the largest unsettled height to the
        // old right boundary, so the settled suffix has grown by one

        swapped = false;
        let ghost v_b = heights@;
        if start < end {
            let mut k: usize = end;
            while k > start
                invariant
                    n == heights@.len(),
                    n == s0.len(),
                    start < end,
                    start <= k <= end,
                    end < n,
                    heights@.to_multiset() == s0.to_multiset(),
                    heights@ == replay(s0, steps@),
                    forall|m: int|
                        0 <= m < steps@.len() ==> step_in_range(#[trigger] steps@[m], n as int),
                    forall|m: int|
                        0 <= m < steps@.len() ==> step_is_adjacent_exchange(#[trigger] steps@[m]),
                    compare_precedes_swap(steps@),
                    forall|a: int, b: int|
                        #![trigger heights@[a], heights@[b]]
                        0 <= a <= b < n && end < b ==> heights@[a] <= heights@[b],
                    forall|a: int, b: int|
                        #![trigger heights@[a], heights@[b]]
                        0 <= a <= b < n && a < start ==> heights@[a] <= heights@[b],
                    forall|m: int| k <= m <= end ==> heights@[k as int] <= #[trigger] heights@[m],
                    !swapped ==> heights@ == v_b,
                    !swapped ==> forall|m: int|
                        k <= m < end ==> #[trigger] heights@[m] <= heights@[m + 1],
                    inversions(heights@) <= inversions(v_b),
                    swapped ==> inversions(heights@) < inversions(v_b),
                decreases k,
            {
                let p = k - 1;
                let st = SortStep::Compare(p, k);
                proof {
                    lemma_replay_push(s0, steps@, st);
                    lemma_push_compare_pattern(steps@, p, k);
                }
                steps.push(st);
                if heights[p] > heights[k] {
                    let ghost before = heights@;
                    let st2 = SortStep::Swap(p, k);
                    proof {
                        lemma_replay_push(s0, steps@, st2);
                        lemma_push_swap_pattern(steps@, p, k);
                    }
                    steps.push(st2);
                    swap_at(heights, p, k);
                    proof {
                        lemma_adjacent_swap_inversions(before, p as int);
                    }
                    swapped = true;
                }
                k -= 1;
            }
            proof {
                if !swapped {
                    assert forall|a: int, b: int|
                        0 <= a <= b < heights@.len() implies heights@[a] <= heights@[b] by {
                        if start <= a && b <= end {
                            lemma_chain_le(heights@, a, b);
                        }
                    }
                }
            }
        } else {
            proof {
                assert forall|a: int, b: int|
                    0 <= a <= b < heights@.len() implies heights@[a] <= heights@[b] by {
                    if a >= start {
                        assert(a >= end);
                    }
                }
            }
        }
        start = start + 1;
    }
    steps
}

} // verus!
