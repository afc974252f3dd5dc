//! Placing the bars on the screen: the ladder of heights the visualizer
//! starts from, the rectangle of each bar, and the colour a bar is drawn
//! with while it is highlighted.

use vstd::arithmetic::mul::lemma_mul_inequality;
use vstd::prelude::*;

verus! {

/// One bar of the animation: a filled rectangle whose top-left corner is
/// `(x, y)`, in screen coordinates whose y axis grows downward.
#[derive(Clone, Copy, Debug, PartialEq, Eq, Structural)]
pub struct Bar {
    pub x: i32,
    pub y: i32,
    pub width: u32,
    pub height: u32,
}

/// The ladder of bar heights: the `count` ascending multiples
/// `step, 2 * step, ..., count * step`.
pub open spec fn height_ladder(step: u32, count: nat) -> Seq<u32> {
    Seq::new(count, |i: int| ((i + 1) * step) as u32)
}

/// Builds the ladder of heights in ascending order.
pub fn ascending_heights(step: u32, count: usize) -> (r: Vec<u32>)
    requires
        1 <= step,
        count as int * step as int <= u32::MAX,
    ensures
        r@ == height_ladder(step, count as nat),
        r@.len() == count,
{
    let mut r: Vec<u32> = Vec::new();
    let mut h: u32 = 0;
    let mut i: usize = 0;
    while i < count
        invariant
            1 <= step,
            count as int * step as int <= u32::MAX,
            i <= count,
            r@.len() == i,
            h == i as int * step as int,
            forall|k: int| 0 <= k < i ==> r@[k] == (k + 1) * step,
        decreases count - i,
    {
        proof {
            lemma_mul_inequality(i as int + 1, count as int, step as int);
            assert((i as int + 1) * step as int == i as int * step as int + step as int)
                by (nonlinear_arith);
        }
        h = h + step;
        r.push(h);
        i += 1;
    }
    proof {
        assert(r@ =~= height_ladder(step, count as nat));
    }
    r
}

/// Lays one bar per height out on a common baseline: bar `i` stands at
/// `x == i * spacing`, is `width` wide, and rises `heights[i]` pixels from
/// the baseline.
pub fn layout_bars(heights: &Vec<u32>, width: u32, spacing: u32, baseline: u32) -> (bars: Vec<
    Bar,
>)
    requires
        heights@.len() * spacing as int <= i32::MAX,
        baseline <= i32::MAX,
        forall|i: int| 0 <= i < heights@.len() ==> heights@[i] <= baseline,
    ensures
        bars@.len() == heights@.len(),
        forall|i: int|
            0 <= i < bars@.len() ==> #[trigger] bars@[i] == (Bar {
                x: (i * spacing as int) as i32,
                y: (baseline - heights@[i]) as i32,
                width,
                height: heights@[i],
            }),
{
    let mut bars: Vec<Bar> = Vec::new();
    let mut x: i32 = 0;
    let mut i: usize = 0;
    while i < heights.len()
        invariant
            heights@.len() * spacing as int <= i32::MAX,
            baseline <= i32::MAX,
            forall|k: int| 0 <= k < heights@.len() ==> heights@[k] <= baseline,
            i <= heights@.len(),
            bars@.len() == i,
            x == i as int * spacing as int,
            forall|k: int|
                0 <= k < i ==> #[trigger] bars@[k] == (Bar {
                    x: (k * spacing as int) as i32,
                    y: (baseline - heights@[k]) as i32,
                    width,
                    height: heights@[k],
                }),
        decreases heights@.len() - i,
    {
        proof {
            lemma_mul_inequality(1, heights@.len() as int, spacing as int);
            lemma_mul_inequality(i as int + 1, heights@.len() as int, spacing as int);
            assert((i as int + 1) * spacing as int == i as int * spacing as int + spacing as int)
                by (nonlinear_arith);
        }
        let h = heights[i];
        bars.push(Bar { x, y: (baseline - h) as i32, width, height: h });
        x = x + spacing as i32;
        i += 1;
    }
    bars
}

/// The fill colour of bar `index`: red while the sorting run has the bar
/// highlighted, white otherwise.
pub fn bar_color(index: usize, highlighted: &Vec<usize>) -> (c: (u8, u8, u8))
    ensures
        highlighted@.contains(index) ==> c == ((255u8, 0u8, 0u8)),
        !highlighted@.contains(index) ==> c == ((255u8, 255u8, 255u8)),
{
    let mut i: usize = 0;
    while i < highlighted.len()
        invariant
            i <= highlighted@.len(),
            forall|k: int| 0 <= k < i ==> highlighted@[k] != index,
        decreases highlighted@.len() - i,
    {
        if highlighted[i] == index {
            assert(highlighted@[i as int] == index);
            return (255, 0, 0);
        }
        i += 1;
    }
    (255, 255, 255)
}

} // verus!
