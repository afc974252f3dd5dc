use sortviz::layout::{ascending_heights, bar_color, layout_bars, Bar};
use sortviz::shuffle::shuffled_heights;

#[test]
fn ascending_heights_are_the_multiples_of_the_step() {
    let h = ascending_heights(6, 100);
    assert_eq!(h.len(), 100);
    assert_eq!(h[0], 6);
    assert_eq!(h[1], 12);
    assert_eq!(h[99], 600);
}

#[test]
fn layout_places_bars_on_the_baseline() {
    let heights = vec![6, 12, 600];
    let bars = layout_bars(&heights, 6, 8, 600);
    assert_eq!(bars.len(), 3);
    assert_eq!(bars[0], Bar { x: 0, y: 594, width: 6, height: 6 });
    assert_eq!(bars[1], Bar { x: 8, y: 588, width: 6, height: 12 });
    assert_eq!(bars[2], Bar { x: 16, y: 0, width: 6, height: 600 });
}

#[test]
fn highlighted_bars_are_red_and_the_rest_white() {
    let highlighted = vec![2, 5];
    assert_eq!(bar_color(2, &highlighted), (255, 0, 0));
    assert_eq!(bar_color(5, &highlighted), (255, 0, 0));
    assert_eq!(bar_color(3, &highlighted), (255, 255, 255));
    assert_eq!(bar_color(0, &vec![]), (255, 255, 255));
}

#[test]
fn shuffled_heights_permute_the_ladder() {
    let mut shuffled = shuffled_heights(6, 100);
    assert_eq!(shuffled.len(), 100);
    shuffled.sort_unstable();
    assert_eq!(shuffled, ascending_heights(6, 100));
}
