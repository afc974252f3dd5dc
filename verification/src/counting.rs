//! Counting sort: tally how often each height occurs, then rebuild the
//! array in ascending order of height.

use crate::max_height;
use crate::perm::{
    lemma_occ_is_multiset_count, lemma_occ_le_len, lemma_occ_push, lemma_occ_zero_not_contained,
    occ,
};
use crate::sorted;
use crate::steps::{lemma_replay_push, replay, step_in_range, SortStep};
use vstd::prelude::*;

verus! {

/// Sorts the bar heights in place and returns the probes and assignments
/// it made, in order, for a front end to replay.
///
/// The tally vector has one slot per height from zero up to the maximum,
/// so a slot count of `max + 1` must be representable: heights equal to
/// `u32::MAX` are excluded.
pub fn counting_sort(heights: &mut Vec<u32>) -> (steps: Vec<SortStep>)
    requires
        forall|i: int| 0 <= i < old(heights)@.len() ==> old(heights)@[i] < u32::MAX,
    ensures
        sorted(final(heights)@),
        final(heights)@.to_multiset() == old(heights)@.to_multiset(),
        final(heights)@.len() == old(heights)@.len(),
        final(heights)@ == replay(old(heights)@, steps@),
        forall|m: int|
            0 <= m < steps@.len() ==> step_in_range(
                #[trigger] steps@[m],
                old(heights)@.len() as int,
            ),
        steps@.len() == 2 * old(heights)@.len(),
        forall|k: int|
            0 <= k < old(heights)@.len() ==> steps@[k] == SortStep::Probe(
                (old(heights)@.len() - 1 - k) as usize,
            ),
        forall|k: int|
            0 <= k < old(heights)@.len() ==> steps@[old(heights)@.len() + k] == SortStep::Assign(
                k as usize,
                final(heights)@[k],
            ),
{
    let ghost s0 = heights@;
    let mut steps: Vec<SortStep> = Vec::new();
    let n = heights.len();
    if n == 0 {
        return steps;
    }
    let max = max_height(heights);
    assert(max < u32::MAX);

    // tally vector: one zeroed slot per height 0..=max
    let mut counts: Vec<usize> = Vec::new();
    while counts.len() < max as usize + 1
        invariant
            max < u32::MAX,
            counts@.len() <= max as int + 1,
            forall|x: int| 0 <= x < counts@.len() ==> counts@[x] == 0,
        decreases max as int + 1 - counts@.len(),
    {
        counts.push(0);
    }

    // first phase: count the occurrences of each height
    let mut idx: usize = 0;
    while idx < n
        invariant
            max < u32::MAX,
            n == heights@.len(),
            n == s0.len(),
            heights@ == s0,
            idx <= n,
            counts@.len() == max as int + 1,
            forall|i: int| 0 <= i < n ==> s0[i] <= max,
            forall|x: u32| x <= max ==> counts@[x as int] == occ(s0.subrange(0, idx as int), x),
        decreases n - idx,
    {
        let h = heights[idx] as usize;
        proof {
            lemma_occ_le_len(s0.subrange(0, idx as int), s0[idx as int]);
        }
        counts[h] = counts[h] + 1;
        proof {
            let pre = s0.subrange(0, idx as int);
            let post = s0.subrange(0, idx as int + 1);
            assert(post.drop_last() =~= pre);
            assert(post.last() == s0[idx as int]);
            assert forall|x: u32| x <= max implies counts@[x as int] == occ(post, x) by {
                lemma_occ_le_len(pre, x);
            }
        }
        idx += 1;
    }

    // second phase: visit the bars from the last to the first, as the
    // animation does while it works out where each height belongs
    let mut rev = n;
    while rev > 0
        invariant
            n == heights@.len(),
            heights@ == s0,
            rev <= n,
            heights@ == replay(s0, steps@),
            forall|m: int|
                0 <= m < steps@.len() ==> step_in_range(#[trigger] steps@[m], n as int),
            steps@.len() == n - rev,
            forall|k: int|
                0 <= k < steps@.len() ==> steps@[k] == SortStep::Probe((n - 1 - k) as usize),
        decreases rev,
    {
        rev -= 1;
        let st = SortStep::Probe(rev);
        proof {
            lemma_replay_push(s0, steps@, st);
        }
        steps.push(st);
    }

    // third phase: rebuild the heights in ascending order from the tally
    proof {
        assert(s0.subrange(0, n as int) =~= s0);
    }
    let mut out: Vec<u32> = Vec::new();
    let mut val: u32 = 0;
    while val <= max
        invariant
            max < u32::MAX,
            n == s0.len(),
            val <= max + 1,
            counts@.len() == max as int + 1,
            forall|i: int| 0 <= i < n ==> s0[i] <= max,
            forall|x: u32| x <= max ==> counts@[x as int] == occ(s0, x),
            forall|m: int| 0 <= m < out@.len() ==> out@[m] < val,
            sorted(out@),
            forall|x: u32| x < val ==> occ(out@, x) == occ(s0, x),
        decreases max + 1 - val,
    {
        let c = counts[val as usize];
        proof {
            lemma_occ_zero_not_contained(out@, val);
        }
        let mut k: usize = 0;
        while k < c
            invariant
                max < u32::MAX,
                val <= max,
                k <= c,
                counts@.len() == max as int + 1,
                c == counts@[val as int],
                forall|m: int| 0 <= m < out@.len() ==> out@[m] <= val,
                sorted(out@),
                forall|x: u32| x < val ==> occ(out@, x) == occ(s0, x),
                occ(out@, val) == k,
            decreases c - k,
        {
            let ghost prev = out@;
            out.push(val);
            proof {
                assert forall|x: u32| occ(out@, x) == occ(prev, x) + (if x == val {
                    1nat
                } else {
                    0nat
                }) by {
                    lemma_occ_push(prev, val, x);
                }
            }
            k += 1;
        }
        val += 1;
    }

    // every height occurs in `out` exactly as often as it does in the
    // input, so the two are permutations of one another
    proof {
        broadcast use vstd::seq_lib::group_to_multiset_ensures;

        assert forall|x: u32| out@.to_multiset().count(x) == s0.to_multiset().count(x) by {
            lemma_occ_is_multiset_count(out@, x);
            lemma_occ_is_multiset_count(s0, x);
            if x > max {
                lemma_occ_zero_not_contained(out@, x);
                lemma_occ_zero_not_contained(s0, x);
            }
        }
        assert(out@.to_multiset() =~= s0.to_multiset());
        assert(out@.to_multiset().len() == out@.len());
        assert(s0.to_multiset().len() == s0.len());
    }

    // fourth phase: write the rebuilt heights back, bar by bar
    let mut j: usize = 0;
    while j < n
        invariant
            n == heights@.len(),
            n == s0.len(),
            out@.len() == n,
            j <= n,
            heights@ == replay(s0, steps@),
            forall|m: int|
                0 <= m < steps@.len() ==> step_in_range(#[trigger] steps@[m], n as int),
            steps@.len() == n + j,
            forall|k: int|
                0 <= k < n ==> steps@[k] == SortStep::Probe((n - 1 - k) as usize),
            forall|k: int|
                0 <= k < j ==> steps@[n + k] == SortStep::Assign(k as usize, out@[k]),
            forall|m: int| 0 <= m < j ==> heights@[m] == out@[m],
            forall|m: int| j <= m < n ==> heights@[m] == s0[m],
            sorted(out@),
            out@.to_multiset() == s0.to_multiset(),
        decreases n - j,
    {
        let h = out[j];
        let st = SortStep::Assign(j, h);
        proof {
            lemma_replay_push(s0, steps@, st);
        }
        steps.push(st);
        heights[j] = h;
        j += 1;
    }
    proof {
        assert(heights@ =~= out@);
    }
    steps
}

} // verus!
