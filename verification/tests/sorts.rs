use sortviz::cocktail::cocktail_sort;
use sortviz::comb::comb_sort;
use sortviz::counting::counting_sort;
use sortviz::max_height;
use sortviz::steps::{swap_at, SortStep};

fn is_sorted(v: &[u32]) -> bool {
    v.windows(2).all(|w| w[0] <= w[1])
}

fn sorted_copy(v: &[u32]) -> Vec<u32> {
    let mut c = v.to_vec();
    c.sort_unstable();
    c
}

fn replay(start: &[u32], steps: &[SortStep]) -> Vec<u32> {
    let mut v = start.to_vec();
    for step in steps {
        match *step {
            SortStep::Compare(_, _) => {}
            SortStep::Probe(_) => {}
            SortStep::Swap(i, j) => v.swap(i, j),
            SortStep::Assign(i, h) => v[i] = h,
        }
    }
    v
}

#[test]
fn counting_sort_sorts_shuffled_heights() {
    let mut v = vec![30, 10, 60, 20, 50, 40];
    counting_sort(&mut v);
    assert_eq!(v, vec![10, 20, 30, 40, 50, 60]);
}

#[test]
fn counting_sort_keeps_duplicates() {
    let mut v = vec![5, 3, 5, 1, 3];
    counting_sort(&mut v);
    assert_eq!(v, vec![1, 3, 3, 5, 5]);
}

#[test]
fn counting_sort_handles_empty_and_single() {
    let mut empty: Vec<u32> = vec![];
    counting_sort(&mut empty);
    assert!(empty.is_empty());

    let mut one = vec![7];
    counting_sort(&mut one);
    assert_eq!(one, vec![7]);
}

#[test]
fn counting_sort_steps_replay_to_the_result() {
    let start = vec![4, 2, 9, 2, 7, 0];
    let mut v = start.clone();
    let steps = counting_sort(&mut v);
    assert_eq!(replay(&start, &steps), v);
    assert_eq!(v, sorted_copy(&start));
}

#[test]
fn comb_sort_sorts_shuffled_heights() {
    let mut v = vec![30, 10, 60, 20, 50, 40];
    comb_sort(&mut v);
    assert_eq!(v, vec![10, 20, 30, 40, 50, 60]);
}

#[test]
fn comb_sort_sorts_reversed_run_with_duplicates() {
    let mut v = vec![9, 9, 8, 5, 5, 3, 1, 1];
    comb_sort(&mut v);
    assert_eq!(v, vec![1, 1, 3, 5, 5, 8, 9, 9]);
}

#[test]
fn comb_sort_handles_empty_and_single() {
    let mut empty: Vec<u32> = vec![];
    comb_sort(&mut empty);
    assert!(empty.is_empty());

    let mut one = vec![7];
    comb_sort(&mut one);
    assert_eq!(one, vec![7]);
}

#[test]
fn comb_sort_steps_replay_to_the_result() {
    let start = vec![13, 4, 4, 21, 0, 8, 17, 2];
    let mut v = start.clone();
    let steps = comb_sort(&mut v);
    assert!(is_sorted(&v));
    assert_eq!(replay(&start, &steps), v);
    assert_eq!(v, sorted_copy(&start));
}

#[test]
fn cocktail_sort_sorts_shuffled_heights() {
    let mut v = vec![30, 10, 60, 20, 50, 40];
    cocktail_sort(&mut v);
    assert_eq!(v, vec![10, 20, 30, 40, 50, 60]);
}

#[test]
fn cocktail_sort_sorts_reversed_run_with_duplicates() {
    let mut v = vec![9, 9, 8, 5, 5, 3, 1, 1];
    cocktail_sort(&mut v);
    assert_eq!(v, vec![1, 1, 3, 5, 5, 8, 9, 9]);
}

#[test]
fn cocktail_sort_handles_empty_and_single() {
    let mut empty: Vec<u32> = vec![];
    cocktail_sort(&mut empty);
    assert!(empty.is_empty());

    let mut one = vec![7];
    cocktail_sort(&mut one);
    assert_eq!(one, vec![7]);
}

#[test]
fn cocktail_sort_steps_replay_to_the_result() {
    let start = vec![13, 4, 4, 21, 0, 8, 17, 2];
    let mut v = start.clone();
    let steps = cocktail_sort(&mut v);
    assert!(is_sorted(&v));
    assert_eq!(replay(&start, &steps), v);
    assert_eq!(v, sorted_copy(&start));
}

fn is_exchange_run(steps: &[SortStep]) -> bool {
    steps.iter().enumerate().all(|(m, step)| match *step {
        SortStep::Compare(_, _) => true,
        SortStep::Swap(i, j) => m >= 1 && steps[m - 1] == SortStep::Compare(i, j),
        _ => false,
    })
}

#[test]
fn comb_steps_are_ordered_compares_and_swaps() {
    let mut v = vec![13, 4, 4, 21, 0, 8, 17, 2];
    let steps = comb_sort(&mut v);
    assert!(is_exchange_run(&steps));
    for step in &steps {
        match *step {
            SortStep::Compare(i, j) | SortStep::Swap(i, j) => assert!(i < j),
            _ => unreachable!(),
        }
    }
}

#[test]
fn comb_step_distances_never_grow() {
    let mut v = vec![13, 4, 4, 21, 0, 8, 17, 2];
    let steps = comb_sort(&mut v);
    let distances: Vec<usize> = steps
        .iter()
        .map(|step| match *step {
            SortStep::Compare(i, j) | SortStep::Swap(i, j) => j - i,
            _ => unreachable!(),
        })
        .collect();
    assert!(distances.windows(2).all(|w| w[0] >= w[1]));
    assert_eq!(distances.first(), Some(&6));
    assert_eq!(distances.last(), Some(&1));
}

#[test]
fn cocktail_steps_are_adjacent_compares_and_swaps() {
    let mut v = vec![13, 4, 4, 21, 0, 8, 17, 2];
    let steps = cocktail_sort(&mut v);
    assert!(is_exchange_run(&steps));
    for step in &steps {
        match *step {
            SortStep::Compare(i, j) | SortStep::Swap(i, j) => assert_eq!(j, i + 1),
            _ => unreachable!(),
        }
    }
}

#[test]
fn cocktail_replay_interrupted_keeps_the_heights() {
    let start = vec![13, 4, 4, 21, 0, 8, 17, 2];
    let mut v = start.clone();
    let steps = cocktail_sort(&mut v);
    for cut in 0..=steps.len() {
        let mut partial = replay(&start, &steps[..cut]);
        partial.sort_unstable();
        assert_eq!(partial, sorted_copy(&start));
    }
}

#[test]
fn counting_steps_are_probes_then_assignments() {
    let start = vec![4, 2, 9, 2, 7, 0];
    let n = start.len();
    let mut v = start.clone();
    let steps = counting_sort(&mut v);
    assert_eq!(steps.len(), 2 * n);
    for k in 0..n {
        assert_eq!(steps[k], SortStep::Probe(n - 1 - k));
        assert_eq!(steps[n + k], SortStep::Assign(k, v[k]));
    }
}

#[test]
fn all_three_sorts_agree() {
    let start = vec![600, 6, 300, 300, 12, 594, 18, 6];
    let mut a = start.clone();
    let mut b = start.clone();
    let mut c = start.clone();
    counting_sort(&mut a);
    comb_sort(&mut b);
    cocktail_sort(&mut c);
    assert_eq!(a, b);
    assert_eq!(b, c);
}

#[test]
fn max_height_finds_the_tallest_bar() {
    let v = vec![30, 10, 60, 20, 50, 40];
    assert_eq!(max_height(&v), 60);
    let one = vec![7];
    assert_eq!(max_height(&one), 7);
    let ties = vec![5, 5, 5];
    assert_eq!(max_height(&ties), 5);
}

#[test]
fn swap_at_exchanges_two_heights() {
    let mut v = vec![1, 2, 3, 4];
    swap_at(&mut v, 0, 3);
    assert_eq!(v, vec![4, 2, 3, 1]);
}
