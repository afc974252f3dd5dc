//! Counting specifications over sequences of bar heights: occurrence counts,
//! inversion counts, and the lemmas the sorting proofs lean on.

use vstd::multiset::Multiset;
use vstd::prelude::*;

verus! {

/// How many entries of `s` equal `x`.
pub open spec fn occ(s: Seq<u32>, x: u32) -> nat
    decreases s.len(),
{
    if s.len() == 0 {
        0
    } else {
        occ(s.drop_last(), x) + if s.last() == x {
            1nat
        } else {
            0nat
        }
    }
}

/// How many entries of `s` lie strictly below `x`.
pub open spec fn below(x: u32, s: Seq<u32>) -> nat
    decreases s.len(),
{
    if s.len() == 0 {
        0
    } else {
        (if x > s[0] {
            1nat
        } else {
            0nat
        }) + below(x, s.drop_first())
    }
}

/// The number of inverted pairs of `s`: pairs of positions `i < j`
/// with `s[i] > s[j]`.  Zero exactly when `s` is sorted; every swap of an
/// adjacent out-of-order pair lowers it by one, which is what lets the
/// comb and cocktail loops terminate.
pub open spec fn inversions(s: Seq<u32>) -> nat
    decreases s.len(),
{
    if s.len() == 0 {
        0
    } else {
        below(s[0], s.drop_first()) + inversions(s.drop_first())
    }
}

pub proof fn lemma_occ_le_len(s: Seq<u32>, x: u32)
    ensures
        occ(s, x) <= s.len(),
    decreases s.len(),
{
    if s.len() > 0 {
        lemma_occ_le_len(s.drop_last(), x);
    }
}

pub proof fn lemma_occ_push(s: Seq<u32>, e: u32, x: u32)
    ensures
        occ(s.push(e), x) == occ(s, x) + if e == x {
            1nat
        } else {
            0nat
        },
{
    assert(s.push(e).drop_last() =~= s);
}

pub proof fn lemma_occ_is_multiset_count(s: Seq<u32>, x: u32)
    ensures
        occ(s, x) == s.to_multiset().count(x),
    decreases s.len(),
{
    broadcast use vstd::seq_lib::group_to_multiset_ensures;

    if s.len() == 0 {
        assert(s.to_multiset() =~= Multiset::<u32>::empty());
    } else {
        lemma_occ_is_multiset_count(s.drop_last(), x);
        assert(s =~= s.drop_last().push(s.last()));
        assert(s.drop_last().push(s.last()).to_multiset() =~= s.drop_last().to_multiset().insert(
            s.last(),
        ));
    }
}

pub proof fn lemma_occ_zero_not_contained(s: Seq<u32>, x: u32)
    ensures
        (occ(s, x) == 0) <==> !s.contains(x),
{
    broadcast use vstd::seq_lib::group_to_multiset_ensures;

    lemma_occ_is_multiset_count(s, x);
}

proof fn lemma_below_concat(x: u32, a: Seq<u32>, b: Seq<u32>)
    ensures
        below(x, a + b) == below(x, a) + below(x, b),
    decreases a.len(),
{
    if a.len() == 0 {
        assert(a + b =~= b);
    } else {
        assert((a + b).drop_first() =~= a.drop_first() + b);
        assert((a + b)[0] == a[0]);
        lemma_below_concat(x, a.drop_first(), b);
    }
}

proof fn lemma_inv_cons(a: u32, r: Seq<u32>)
    ensures
        inversions(seq![a] + r) == below(a, r) + inversions(r),
{
    assert((seq![a] + r).drop_first() =~= r);
    assert((seq![a] + r)[0] == a);
}

proof fn lemma_inv_two_front(a: u32, b: u32, r: Seq<u32>)
    ensures
        inversions(seq![a, b] + r) == (if a > b {
            1nat
        } else {
            0nat
        }) + below(a, r) + below(b, r) + inversions(r),
{
    let s = seq![a, b] + r;
    assert(s.drop_first() =~= seq![b] + r);
    assert(s[0] == a);
    lemma_inv_cons(b, r);
    assert(below(a, seq![b] + r) == (if a > b {
        1nat
    } else {
        0nat
    }) + below(a, r)) by {
        assert((seq![b] + r).drop_first() =~= r);
        assert((seq![b] + r)[0] == b);
    }
}

proof fn lemma_below_pair(x: u32, a: u32, b: u32)
    ensures
        below(x, seq![a, b]) == (if x > a {
            1nat
        } else {
            0nat
        }) + (if x > b {
            1nat
        } else {
            0nat
        }),
{
    let s = seq![a, b];
    assert(below(x, Seq::<u32>::empty()) == 0);
    assert(seq![b].drop_first() =~= Seq::<u32>::empty());
    assert(below(x, seq![b]) == (if x > b {
        1nat
    } else {
        0nat
    })) by {
        assert(seq![b][0] == b);
    }
    assert(s.drop_first() =~= seq![b]);
    assert(s[0] == a);
}

proof fn lemma_swap_anywhere(p: Seq<u32>, a: u32, b: u32, r: Seq<u32>)
    requires
        a > b,
    ensures
        inversions(p + seq![a, b] + r) == inversions(p + seq![b, a] + r) + 1,
    decreases p.len(),
{
    if p.len() == 0 {
        assert(p + seq![a, b] + r =~= seq![a, b] + r);
        assert(p + seq![b, a] + r =~= seq![b, a] + r);
        lemma_inv_two_front(a, b, r);
        lemma_inv_two_front(b, a, r);
    } else {
        let x = p[0];
        let q = p.drop_first();
        let s1 = p + seq![a, b] + r;
        let s2 = p + seq![b, a] + r;
        assert(s1.drop_first() =~= q + seq![a, b] + r);
        assert(s2.drop_first() =~= q + seq![b, a] + r);
        assert(s1[0] == x && s2[0] == x);
        lemma_swap_anywhere(q, a, b, r);
        assert(below(x, q + seq![a, b] + r) == below(x, q + seq![b, a] + r)) by {
            lemma_below_concat(x, q + seq![a, b], r);
            lemma_below_concat(x, q, seq![a, b]);
            lemma_below_concat(x, q + seq![b, a], r);
            lemma_below_concat(x, q, seq![b, a]);
            assert((q + seq![a, b]) + r =~= q + seq![a, b] + r);
            assert((q + seq![b, a]) + r =~= q + seq![b, a] + r);
            assert(below(x, seq![a, b]) == below(x, seq![b, a])) by {
                lemma_below_pair(x, a, b);
                lemma_below_pair(x, b, a);
            }
        }
    }
}

/// Swapping an adjacent out-of-order pair removes exactly one inversion.
pub proof fn lemma_adjacent_swap_inversions(s: Seq<u32>, i: int)
    requires
        0 <= i,
        i + 1 < s.len(),
        s[i] > s[i + 1],
    ensures
        inversions(s.update(i, s[i + 1]).update(i + 1, s[i])) + 1 == inversions(s),
{
    let a = s[i];
    let b = s[i + 1];
    let p = s.subrange(0, i);
    let r = s.subrange(i + 2, s.len() as int);
    assert(s =~= p + seq![a, b] + r);
    assert(s.update(i, b).update(i + 1, a) =~= p + seq![b, a] + r);
    lemma_swap_anywhere(p, a, b, r);
}

/// A chain of adjacent comparisons gives an ordering between two positions.
pub proof fn lemma_chain_le(s: Seq<u32>, i: int, j: int)
    requires
        0 <= i <= j < s.len(),
        forall|k: int| i <= k < j ==> #[trigger] s[k] <= s[k + 1],
    ensures
        s[i] <= s[j],
    decreases j - i,
{
    if i < j {
        lemma_chain_le(s, i + 1, j);
    }
}

} // verus!
