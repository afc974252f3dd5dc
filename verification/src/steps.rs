//! The elementary moves a sorting run makes, recorded so that a front end
//! can replay the run one frame at a time: highlight the touched bars,
//! sound the tone for the touched height, and apply the move to its own
//! copy of the bars.

use vstd::prelude::*;

verus! {

/// One elementary move of a sorting run.
#[derive(Clone, Copy, Debug, PartialEq, Eq, Structural)]
pub enum SortStep {
    /// The two positions were compared; nothing moved.
    Compare(usize, usize),
    /// The position was visited; nothing moved.
    Probe(usize),
    /// The values at the two positions changed places.
    Swap(usize, usize),
    /// The value at the position was overwritten with the given height.
    Assign(usize, u32),
}

/// The effect of one step on a sequence of heights.  Out-of-range
/// positions leave the sequence unchanged; the sorting routines only ever
/// record in-range steps.
pub open spec fn apply_step(s: Seq<u32>, st: SortStep) -> Seq<u32> {
    match st {
        SortStep::Compare(_, _) => s,
        SortStep::Probe(_) => s,
        SortStep::Swap(i, j) => if i < s.len() && j < s.len() {
            s.update(i as int, s[j as int]).update(j as int, s[i as int])
        } else {
            s
        },
        SortStep::Assign(i, h) => if i < s.len() {
            s.update(i as int, h)
        } else {
            s
        },
    }
}

/// The step only touches positions below `n`, so replaying it on `n`
/// heights stays in bounds.
pub open spec fn step_in_range(st: SortStep, n: int) -> bool {
    match st {
        SortStep::Compare(i, j) => i < n && j < n,
        SortStep::Probe(i) => i < n,
        SortStep::Swap(i, j) => i < n && j < n,
        SortStep::Assign(i, _) => i < n,
    }
}

/// The step compares or swaps: it moves heights around but never rewrites
/// one.
pub open spec fn step_is_exchange(st: SortStep) -> bool {
    match st {
        SortStep::Compare(_, _) => true,
        SortStep::Probe(_) => false,
        SortStep::Swap(_, _) => true,
        SortStep::Assign(_, _) => false,
    }
}

/// The step compares or swaps a pair of positions in increasing order.
pub open spec fn step_is_ordered_exchange(st: SortStep) -> bool {
    match st {
        SortStep::Compare(i, j) => i < j,
        SortStep::Probe(_) => false,
        SortStep::Swap(i, j) => i < j,
        SortStep::Assign(_, _) => false,
    }
}

/// The step compares or swaps two neighbouring positions.
pub open spec fn step_is_adjacent_exchange(st: SortStep) -> bool {
    match st {
        SortStep::Compare(i, j) => j == i + 1,
        SortStep::Probe(_) => false,
        SortStep::Swap(i, j) => j == i + 1,
        SortStep::Assign(_, _) => false,
    }
}

/// How far apart the two positions a step touches lie; zero for a step
/// that touches one position.
pub open spec fn step_distance(st: SortStep) -> int {
    match st {
        SortStep::Compare(i, j) => j - i,
        SortStep::Probe(_) => 0,
        SortStep::Swap(i, j) => j - i,
        SortStep::Assign(_, _) => 0,
    }
}

/// Position `m` holds a swap only if the step just before it compares the
/// same pair.
pub open spec fn swap_pair_ok(steps: Seq<SortStep>, m: int) -> bool {
    match steps[m] {
        SortStep::Swap(i, j) => m >= 1 && steps[m - 1] == SortStep::Compare(i, j),
        _ => true,
    }
}

/// Every swap in the run is immediately preceded by the comparison of the
/// same pair, so a replaying front end always draws and sounds the two
/// heights as they stand before they move.
pub open spec fn compare_precedes_swap(steps: Seq<SortStep>) -> bool {
    forall|m: int| 0 <= m < steps.len() ==> #[trigger] swap_pair_ok(steps, m)
}

/// The heights after replaying every step in order, starting from `s`.
pub open spec fn replay(s: Seq<u32>, steps: Seq<SortStep>) -> Seq<u32>
    decreases steps.len(),
{
    if steps.len() == 0 {
        s
    } else {
        apply_step(replay(s, steps.drop_last()), steps.last())
    }
}

pub proof fn lemma_replay_push(s: Seq<u32>, steps: Seq<SortStep>, st: SortStep)
    ensures
        replay(s, steps.push(st)) == apply_step(replay(s, steps), st),
{
    assert(steps.push(st).drop_last() =~= steps);
}

/// A comparison or a swap leaves the multiset of heights as it was.
proof fn lemma_apply_exchange_multiset(s: Seq<u32>, st: SortStep)
    requires
        step_is_exchange(st),
    ensures
        apply_step(s, st).to_multiset() == s.to_multiset(),
{
    broadcast use vstd::seq_lib::group_to_multiset_ensures;

    match st {
        SortStep::Swap(i, j) => {
            if i < s.len() && j < s.len() {
                assert(apply_step(s, st).to_multiset() =~= s.to_multiset());
            }
        },
        _ => {},
    }
}

/// Replaying only the first `k` steps of a run of comparisons and swaps —
/// the animation interrupted part way, as a quit event does — still leaves
/// a permutation of the starting heights.
pub proof fn lemma_replay_prefix_multiset(s: Seq<u32>, steps: Seq<SortStep>, k: int)
    requires
        0 <= k <= steps.len(),
        forall|m: int| 0 <= m < steps.len() ==> step_is_exchange(#[trigger] steps[m]),
    ensures
        replay(s, steps.subrange(0, k)).to_multiset() == s.to_multiset(),
    decreases k,
{
    if k == 0 {
        assert(steps.subrange(0, 0) =~= Seq::<SortStep>::empty());
    } else {
        lemma_replay_prefix_multiset(s, steps, k - 1);
        assert(steps.subrange(0, k).drop_last() =~= steps.subrange(0, k - 1));
        assert(steps.subrange(0, k).last() == steps[k - 1]);
        lemma_apply_exchange_multiset(replay(s, steps.subrange(0, k - 1)), steps[k - 1]);
    }
}

/// Appending a comparison keeps every swap paired with its comparison.
pub(crate) proof fn lemma_push_compare_pattern(steps: Seq<SortStep>, i: usize, j: usize)
    requires
        compare_precedes_swap(steps),
    ensures
        compare_precedes_swap(steps.push(SortStep::Compare(i, j))),
{
    let pushed = steps.push(SortStep::Compare(i, j));
    assert forall|m: int| 0 <= m < pushed.len() implies swap_pair_ok(pushed, m) by {
        if m < steps.len() {
            assert(swap_pair_ok(steps, m));
        }
    }
}

/// Appending a swap just after the comparison of the same pair keeps every
/// swap paired with its comparison.
pub(crate) proof fn lemma_push_swap_pattern(steps: Seq<SortStep>, i: usize, j: usize)
    requires
        compare_precedes_swap(steps),
        steps.len() >= 1,
        steps.last() == SortStep::Compare(i, j),
    ensures
        compare_precedes_swap(steps.push(SortStep::Swap(i, j))),
{
    let pushed = steps.push(SortStep::Swap(i, j));
    assert forall|m: int| 0 <= m < pushed.len() implies swap_pair_ok(pushed, m) by {
        if m < steps.len() {
            assert(swap_pair_ok(steps, m));
        }
    }
}

/// Exchanges the heights at two positions: the executable form of a
/// `SortStep::Swap`.
pub fn swap_at(heights: &mut Vec<u32>, i: usize, j: usize)
    requires
        i < old(heights)@.len(),
        j < old(heights)@.len(),
    ensures
        final(heights)@ == old(heights)@.update(i as int, old(heights)@[j as int]).update(
            j as int,
            old(heights)@[i as int],
        ),
        final(heights)@ == apply_step(old(heights)@, SortStep::Swap(i, j)),
        final(heights)@.to_multiset() == old(heights)@.to_multiset(),
{
    let a = heights[i];
    let b = heights[j];
    heights[i] = b;
    heights[j] = a;
    proof {
        broadcast use vstd::seq_lib::group_to_multiset_ensures;

        assert(heights@.to_multiset() =~= old(heights)@.to_multiset());
    }
}

} // verus!
