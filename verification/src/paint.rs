//! Painting a region of a buffer with one colour.

use crate::buffer::PixelBuffer;
use crate::grid::{
    component, lemma_equal_by_channels, lemma_offset_in_bounds, lemma_offset_roundtrip,
    lemma_with_pixel, PixelGrid,
};
use vstd::prelude::*;

verus! {

/// `(px, py)` lies in the region with the given corners.
pub open spec fn in_region(px: int, py: int, left: int, top: int, right: int, bottom: int) -> bool {
    left <= px < right && top <= py < bottom
}

/// The raster `g` with every pixel of a region replaced by `rgb`.
pub open spec fn painted(
    g: PixelGrid,
    left: int,
    top: int,
    right: int,
    bottom: int,
    rgb: (u8, u8, u8),
) -> PixelGrid {
    PixelGrid {
        width: g.width,
        height: g.height,
        data: Seq::new(
            g.data.len(),
            |i: int|
                if in_region(g.column_of(i), g.row_of(i), left, top, right, bottom) {
                    component(rgb, i % 3)
                } else {
                    g.data[i]
                },
        ),
    }
}

/// Painting a region sets the pixels inside it and leaves the others.
pub proof fn lemma_painted_channel(
    g: PixelGrid,
    left: int,
    top: int,
    right: int,
    bottom: int,
    rgb: (u8, u8, u8),
    px: int,
    py: int,
    c: int,
)
    requires
        g.wf(),
        g.contains(px, py),
        0 <= c < 3,
    ensures
        painted(g, left, top, right, bottom, rgb).wf(),
        painted(g, left, top, right, bottom, rgb).channel(px, py, c) == if in_region(
            px,
            py,
            left,
            top,
            right,
            bottom,
        ) {
            component(rgb, c)
        } else {
            g.channel(px, py, c)
        },
{
    lemma_offset_in_bounds(g, px, py, c);
    lemma_offset_roundtrip(g, px, py, c);
}

/// Painting a region without pixels changes nothing.
pub proof fn lemma_painted_empty(
    g: PixelGrid,
    left: int,
    top: int,
    right: int,
    bottom: int,
    rgb: (u8, u8, u8),
)
    requires
        right <= left || bottom <= top,
    ensures
        painted(g, left, top, right, bottom, rgb) == g,
{
    assert(painted(g, left, top, right, bottom, rgb).data =~= g.data);
}

/// The channel that painting has reached once the rows above `row` are
/// done and row `row` is done up to column `col`.
spec fn partly_painted(
    g: PixelGrid,
    left: int,
    top: int,
    right: int,
    row: int,
    col: int,
    rgb: (u8, u8, u8),
    px: int,
    py: int,
    c: int,
) -> u8 {
    if in_region(px, py, left, top, right, row) || in_region(px, py, left, row, col, row + 1) {
        component(rgb, c)
    } else {
        g.channel(px, py, c)
    }
}

/// Overwrites every pixel `(j, i)` with `x1 <= j < x` and `y1 <= i < y`
/// with `avg` and leaves the rest of the buffer as it was. A region that
/// holds a pixel must lie within the buffer; one that holds none may have
/// any corners, and nothing changes.
pub fn write_square_to_image(
    image_buff: &mut PixelBuffer,
    x1: u32,
    y1: u32,
    x: u32,
    y: u32,
    avg: (u8, u8, u8),
)
    requires
        old(image_buff).wf(),
        x1 < x && y1 < y ==> x <= old(image_buff)@.width && y <= old(image_buff)@.height,
    ensures
        final(image_buff).wf(),
        final(image_buff)@ == painted(
            old(image_buff)@,
            x1 as int,
            y1 as int,
            x as int,
            y as int,
            avg,
        ),
        x1 >= x || y1 >= y ==> final(image_buff)@ == old(image_buff)@,
{
    let ghost start = image_buff@;
    let ghost (left, top, right, bottom) = (x1 as int, y1 as int, x as int, y as int);
    let mut i: u32 = y1;
    while i < y
        invariant
            image_buff.wf(),
            start.wf(),
            image_buff@.width == start.width,
            image_buff@.height == start.height,
            (left, top, right, bottom) == (x1 as int, y1 as int, x as int, y as int),
            x1 < x && y1 < y ==> x <= start.width && y <= start.height,
            y1 <= i,
            i <= y || i == y1,
            forall|px: int, py: int, c: int|
                start.contains(px, py) && 0 <= c < 3 ==> #[trigger] image_buff@.channel(px, py, c)
                    == partly_painted(start, left, top, right, i as int, left, avg, px, py, c),
        decreases y - i,
    {
        let mut j: u32 = x1;
        while j < x
            invariant
                image_buff.wf(),
                start.wf(),
                image_buff@.width == start.width,
                image_buff@.height == start.height,
                (left, top, right, bottom) == (x1 as int, y1 as int, x as int, y as int),
                x1 < x ==> x <= start.width && y <= start.height,
                i < y,
                y1 <= i,
                x1 <= j,
                j <= x || j == x1,
                forall|px: int, py: int, c: int|
                    start.contains(px, py) && 0 <= c < 3 ==> #[trigger] image_buff@.channel(
                        px,
                        py,
                        c,
                    ) == partly_painted(
                        start,
                        left,
                        top,
                        right,
                        i as int,
                        j as int,
                        avg,
                        px,
                        py,
                        c,
                    ),
            decreases x - j,
        {
            let ghost before = image_buff@;
            image_buff.put_pixel(j, i, avg);
            proof {
                assert forall|px: int, py: int, c: int|
                    start.contains(px, py) && 0 <= c < 3 implies #[trigger] image_buff@.channel(
                    px,
                    py,
                    c,
                ) == partly_painted(start, left, top, right, i as int, j + 1, avg, px, py, c) by {
                    lemma_with_pixel(before, j as int, i as int, avg, px, py, c);
                    assert(before.channel(px, py, c) == partly_painted(
                        start,
                        left,
                        top,
                        right,
                        i as int,
                        j as int,
                        avg,
                        px,
                        py,
                        c,
                    ));
                }
            }
            j = j + 1;
        }
        i = i + 1;
    }
    proof {
        let goal = painted(start, left, top, right, bottom, avg);
        assert forall|px: int, py: int, c: int|
            image_buff@.contains(px, py) && 0 <= c < 3 implies #[trigger] image_buff@.channel(
            px,
            py,
            c,
        ) == goal.channel(px, py, c) by {
            lemma_painted_channel(start, left, top, right, bottom, avg, px, py, c);
            assert(image_buff@.channel(px, py, c) == partly_painted(
                start,
                left,
                top,
                right,
                i as int,
                left,
                avg,
                px,
                py,
                c,
            ));
        }
        lemma_equal_by_channels(image_buff@, goal);
        if x1 >= x || y1 >= y {
            lemma_painted_empty(start, left, top, right, bottom, avg);
        }
    }
}

} // verus!
