//! A random arrangement of the bar heights, drawn from the thread-local
//! random generator.

use crate::layout::{ascending_heights, height_ladder};
use rand::seq::SliceRandom;
use vstd::prelude::*;

verus! {

#[verifier::external_type_specification]
#[verifier::external_body]
pub struct ExThreadRng(rand::rngs::ThreadRng);

/// Relies on rand::thread_rng: a handle to the thread-local random
/// generator.
#[verifier::external_body]
fn fresh_rng() -> rand::rngs::ThreadRng {
    rand::thread_rng()
}

/// Relies on rand::seq::SliceRandom::shuffle: a Fisher-Yates shuffle that
/// rearranges the slice in place by swapping elements, so the heights are
/// permuted and none is altered.  Which permutation comes out depends on
/// the generator's state, so no more is stated.
#[verifier::external_body]
fn shuffle_in_place(heights: &mut Vec<u32>, rng: &mut rand::rngs::ThreadRng)
    ensures
        final(heights)@.to_multiset() == old(heights)@.to_multiset(),
{
    heights.as_mut_slice().shuffle(rng);
}

/// A random permutation of the ladder of `count` bar heights
/// `step, 2 * step, ..., count * step`.
pub fn shuffled_heights(step: u32, count: usize) -> (r: Vec<u32>)
    requires
        1 <= step,
        count as int * step as int <= u32::MAX,
    ensures
        r@.len() == count,
        r@.to_multiset() == height_ladder(step, count as nat).to_multiset(),
{
    let mut r = ascending_heights(step, count);
    let mut rng = fresh_rng();
    shuffle_in_place(&mut r, &mut rng);
    proof {
        broadcast use vstd::seq_lib::group_to_multiset_ensures;

        assert(r@.to_multiset().len() == r@.len());
        assert(height_ladder(step, count as nat).to_multiset().len() == height_ladder(
            step,
            count as nat,
        ).len());
    }
    r
}

} // verus!
