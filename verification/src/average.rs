//! Averaging the pixels of a region.

use crate::buffer::PixelBuffer;
use crate::grid::PixelGrid;
use vstd::prelude::*;

verus! {

/// Sum of channel `c` over the pixels `(x, y)` of row `y` with
/// `left <= x < right`.
pub open spec fn row_sum(g: PixelGrid, y: int, left: int, right: int, c: int) -> int
    decreases right - left,
{
    if right <= left {
        0
    } else {
        row_sum(g, y, left, right - 1, c) + g.channel(right - 1, y, c)
    }
}

/// Sum of channel `c` over the pixels `(x, y)` with `left <= x < right` and
/// `top <= y < bottom`.
pub open spec fn region_sum(
    g: PixelGrid,
    left: int,
    top: int,
    right: int,
    bottom: int,
    c: int,
) -> int
    decreases bottom - top,
{
    if bottom <= top {
        0
    } else {
        region_sum(g, left, top, right, bottom - 1, c) + row_sum(g, bottom - 1, left, right, c)
    }
}

/// The sum of channel `c` over a region, divided by `ratio * ratio` and cut
/// down to eight bits.
pub open spec fn region_average(
    g: PixelGrid,
    left: int,
    top: int,
    right: int,
    bottom: int,
    ratio: int,
    c: int,
) -> u8 {
    ((region_sum(g, left, top, right, bottom, c) / (ratio * ratio)) % 256) as u8
}

/// A row sum is at least zero and at most 255 for each pixel summed.
pub proof fn lemma_row_sum_bounds(g: PixelGrid, y: int, left: int, right: int, c: int)
    ensures
        0 <= row_sum(g, y, left, right, c),
        left <= right ==> row_sum(g, y, left, right, c) <= 255 * (right - left),
        right <= left ==> row_sum(g, y, left, right, c) == 0,
    decreases right - left,
{
    if right > left {
        lemma_row_sum_bounds(g, y, left, right - 1, c);
    }
}

/// A region sum is at least zero and at most 255 for each pixel summed.
pub proof fn lemma_region_sum_bounds(
    g: PixelGrid,
    left: int,
    top: int,
    right: int,
    bottom: int,
    c: int,
)
    ensures
        0 <= region_sum(g, left, top, right, bottom, c),
        left <= right && top <= bottom ==> region_sum(g, left, top, right, bottom, c) <= 255 * ((
        right - left) * (bottom - top)),
    decreases bottom - top,
{
    if bottom > top {
        lemma_region_sum_bounds(g, left, top, right, bottom - 1, c);
        lemma_row_sum_bounds(g, bottom - 1, left, right, c);
        if left <= right {
            assert((right - left) * (bottom - top) == (right - left) * (bottom - 1 - top) + (right
                - left)) by (nonlinear_arith);
        }
    } else {
        assert(top <= bottom ==> (right - left) * (bottom - top) == 0) by (nonlinear_arith)
            requires
                bottom <= top,
        ;
    }
}

/// A region without pixels has the sum zero.
pub proof fn lemma_region_sum_empty(
    g: PixelGrid,
    left: int,
    top: int,
    right: int,
    bottom: int,
    c: int,
)
    requires
        right <= left || bottom <= top,
    ensures
        region_sum(g, left, top, right, bottom, c) == 0,
    decreases bottom - top,
{
    if bottom > top {
        lemma_region_sum_empty(g, left, top, right, bottom - 1, c);
        lemma_row_sum_bounds(g, bottom - 1, left, right, c);
    }
}

/// Over a row in which channel `c` has the value `v` at every pixel, the
/// sum is `v` for each pixel.
pub proof fn lemma_row_sum_constant(g: PixelGrid, y: int, left: int, right: int, c: int, v: u8)
    requires
        left <= right,
        forall|x: int| left <= x < right ==> #[trigger] g.channel(x, y, c) == v,
    ensures
        row_sum(g, y, left, right, c) == v * (right - left),
    decreases right - left,
{
    if right > left {
        lemma_row_sum_constant(g, y, left, right - 1, c, v);
        assert(g.channel(right - 1, y, c) == v);
        assert(v * (right - left) == v * (right - 1 - left) + v) by (nonlinear_arith);
    } else {
        assert(v * (right - left) == 0) by (nonlinear_arith)
            requires
                right - left == 0,
        ;
    }
}

/// Over a region in which channel `c` has the value `v` at every pixel,
/// the sum is `v` for each pixel.
pub proof fn lemma_region_sum_constant(
    g: PixelGrid,
    left: int,
    top: int,
    right: int,
    bottom: int,
    c: int,
    v: u8,
)
    requires
        left <= right,
        top <= bottom,
        forall|x: int, y: int|
            left <= x < right && top <= y < bottom ==> #[trigger] g.channel(x, y, c) == v,
    ensures
        region_sum(g, left, top, right, bottom, c) == v * ((right - left) * (bottom - top)),
    decreases bottom - top,
{
    if bottom > top {
        lemma_region_sum_constant(g, left, top, right, bottom - 1, c, v);
        lemma_row_sum_constant(g, bottom - 1, left, right, c, v);
        assert(v * ((right - left) * (bottom - top)) == v * ((right - left) * (bottom - 1 - top))
            + v * (right - left)) by (nonlinear_arith);
    } else {
        assert(v * ((right - left) * (bottom - top)) == 0) by (nonlinear_arith)
            requires
                bottom - top == 0,
        ;
    }
}

/// Over a square of side `ratio` the mean fits in eight bits, so nothing
/// is cut off.
pub proof fn lemma_square_average_exact(g: PixelGrid, left: int, top: int, ratio: int, c: int)
    requires
        ratio > 0,
    ensures
        region_average(g, left, top, left + ratio, top + ratio, ratio, c) == region_sum(
            g,
            left,
            top,
            left + ratio,
            top + ratio,
            c,
        ) / (ratio * ratio),
        0 <= region_sum(g, left, top, left + ratio, top + ratio, c) / (ratio * ratio) <= 255,
{
    let sum = region_sum(g, left, top, left + ratio, top + ratio, c);
    let area = ratio * ratio;
    lemma_region_sum_bounds(g, left, top, left + ratio, top + ratio, c);
    assert(area > 0) by (nonlinear_arith)
        requires
            area == ratio * ratio,
            ratio > 0,
    ;
    assert(0 <= sum / area <= 255) by (nonlinear_arith)
        requires
            0 <= sum <= 255 * area,
            area > 0,
    ;
}

/// The mean colour of the pixels `(j, i)` with `x1 <= j < x` and
/// `y1 <= i < y`: each channel's sum divided by `ratio * ratio`, cut down to
/// eight bits. A region that holds a pixel must lie within the buffer; one
/// that holds none may have any corners, and the result is black.
pub fn get_average_of_square(
    image_buff: &PixelBuffer,
    x1: u32,
    y1: u32,
    x: u32,
    y: u32,
    ratio: u32,
) -> (avg: (u8, u8, u8))
    requires
        image_buff.wf(),
        x1 < x && y1 < y ==> x <= image_buff@.width && y <= image_buff@.height,
        ratio > 0,
    ensures
        avg.0 == region_average(
            image_buff@,
            x1 as int,
            y1 as int,
            x as int,
            y as int,
            ratio as int,
            0,
        ),
        avg.1 == region_average(
            image_buff@,
            x1 as int,
            y1 as int,
            x as int,
            y as int,
            ratio as int,
            1,
        ),
        avg.2 == region_average(
            image_buff@,
            x1 as int,
            y1 as int,
            x as int,
            y as int,
            ratio as int,
            2,
        ),
        x1 >= x || y1 >= y ==> avg == (0u8, 0u8, 0u8),
{
    let ghost g = image_buff@;
    assert(0 < (ratio as int) * (ratio as int) <= 0xffff_ffff * 0xffff_ffff) by (nonlinear_arith)
        requires
            0 < ratio <= 0xffff_ffff,
    ;
    let ratio_squared: u128 = ratio as u128 * ratio as u128;

    let mut avg_r: u128 = 0;
    let mut avg_g: u128 = 0;
    let mut avg_b: u128 = 0;

    let mut i: u32 = y1;
    while i < y
        invariant
            image_buff.wf(),
            g == image_buff@,
            x1 < x && y1 < y ==> x <= g.width && y <= g.height,
            y1 <= i,
            i <= y || i == y1,
            avg_r == region_sum(g, x1 as int, y1 as int, x as int, i as int, 0),
            avg_g == region_sum(g, x1 as int, y1 as int, x as int, i as int, 1),
            avg_b == region_sum(g, x1 as int, y1 as int, x as int, i as int, 2),
            avg_r <= 0xff_0000_0000 * (i - y1),
            avg_g <= 0xff_0000_0000 * (i - y1),
            avg_b <= 0xff_0000_0000 * (i - y1),
        decreases y - i,
    {
        let mut j: u32 = x1;
        while j < x
            invariant
                image_buff.wf(),
                g == image_buff@,
                x1 < x ==> x <= g.width && y <= g.height,
                i < y,
                y1 <= i,
                x1 <= j,
                j <= x || j == x1,
                avg_r == region_sum(g, x1 as int, y1 as int, x as int, i as int, 0) + row_sum(
                    g,
                    i as int,
                    x1 as int,
                    j as int,
                    0,
                ),
                avg_g == region_sum(g, x1 as int, y1 as int, x as int, i as int, 1) + row_sum(
                    g,
                    i as int,
                    x1 as int,
                    j as int,
                    1,
                ),
                avg_b == region_sum(g, x1 as int, y1 as int, x as int, i as int, 2) + row_sum(
                    g,
                    i as int,
                    x1 as int,
                    j as int,
                    2,
                ),
                avg_r <= 0xff_0000_0000 * (i - y1) + 0xff * (j - x1),
                avg_g <= 0xff_0000_0000 * (i - y1) + 0xff * (j - x1),
                avg_b <= 0xff_0000_0000 * (i - y1) + 0xff * (j - x1),
            decreases x - j,
        {
            let pixel = image_buff.get_pixel(j, i);
            avg_r = avg_r + pixel.0 as u128;
            avg_g = avg_g + pixel.1 as u128;
            avg_b = avg_b + pixel.2 as u128;
            j = j + 1;
        }
        proof {
            lemma_row_sum_bounds(g, i as int, x1 as int, j as int, 0);
            lemma_row_sum_bounds(g, i as int, x1 as int, j as int, 1);
            lemma_row_sum_bounds(g, i as int, x1 as int, j as int, 2);
            lemma_row_sum_bounds(g, i as int, x1 as int, x as int, 0);
            lemma_row_sum_bounds(g, i as int, x1 as int, x as int, 1);
            lemma_row_sum_bounds(g, i as int, x1 as int, x as int, 2);
        }
        i = i + 1;
    }
    proof {
        if x1 >= x || y1 >= y {
            lemma_region_sum_empty(g, x1 as int, y1 as int, x as int, y as int, 0);
            lemma_region_sum_empty(g, x1 as int, y1 as int, x as int, y as int, 1);
            lemma_region_sum_empty(g, x1 as int, y1 as int, x as int, y as int, 2);
            vstd::arithmetic::div_mod::lemma_basic_div(0, ratio_squared as int);
        }
    }

    (
        ((avg_r / ratio_squared) % 256) as u8,
        ((avg_g / ratio_squared) % 256) as u8,
        ((avg_b / ratio_squared) % 256) as u8,
    )
}

} // verus!
