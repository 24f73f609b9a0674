//! Replacing every whole block of a raster by its mean colour.

use crate::average::{get_average_of_square, region_average};
use crate::buffer::PixelBuffer;
use crate::grid::{
    lemma_blank, lemma_equal_by_channels, lemma_offset_in_bounds, lemma_offset_roundtrip,
    PixelGrid,
};
use crate::paint::{lemma_painted_channel, write_square_to_image};
use vstd::prelude::*;

verus! {

/// `(x, y)` lies in one of the whole blocks of side `ratio`: the block
/// column `x / ratio` and the block row `y / ratio` both exist in full.
pub open spec fn covered(g: PixelGrid, ratio: nat, x: int, y: int) -> bool {
    &&& 0 <= x
    &&& 0 <= y
    &&& x / (ratio as int) < g.width / ratio
    &&& y / (ratio as int) < g.height / ratio
}

/// Mean of channel `c` over the block in block column `bx` and block row
/// `by`.
pub open spec fn block_average(g: PixelGrid, ratio: nat, bx: int, by: int, c: int) -> u8 {
    region_average(g, bx * ratio, by * ratio, (bx + 1) * ratio, (by + 1) * ratio, ratio as int, c)
}

/// Channel `c` of the pixel at `(x, y)` after pixelation: the mean of the
/// block that the pixel lies in, or zero outside the whole blocks.
pub open spec fn pixelated_channel(g: PixelGrid, ratio: nat, x: int, y: int, c: int) -> u8 {
    if covered(g, ratio, x, y) {
        block_average(g, ratio, x / (ratio as int), y / (ratio as int), c)
    } else {
        0
    }
}

/// The raster `g` with every whole block of side `ratio` replaced by its
/// mean colour and everything else black.
pub open spec fn pixelated(g: PixelGrid, ratio: nat) -> PixelGrid {
    PixelGrid {
        width: g.width,
        height: g.height,
        data: Seq::new(
            g.data.len(),
            |i: int| pixelated_channel(g, ratio, g.column_of(i), g.row_of(i), i % 3),
        ),
    }
}

/// A coordinate lies within block `b` exactly when dividing it by the block
/// size gives `b`.
pub proof fn lemma_block_span(v: int, ratio: int, b: int)
    requires
        ratio > 0,
    ensures
        b * ratio <= v < (b + 1) * ratio <==> v / ratio == b,
        (b + 1) * ratio == b * ratio + ratio,
{
    assert((b + 1) * ratio == b * ratio + ratio) by (nonlinear_arith);
    if v / ratio == b {
        vstd::arithmetic::div_mod::lemma_fundamental_div_mod(v, ratio);
        vstd::arithmetic::div_mod::lemma_mod_bound(v, ratio);
        assert(ratio * b == b * ratio) by (nonlinear_arith);
    }
    if b * ratio <= v < (b + 1) * ratio {
        vstd::arithmetic::div_mod::lemma_fundamental_div_mod_converse(v, ratio, b, v - b * ratio);
    }
}

/// A whole block lies inside the extent it was counted in.
pub proof fn lemma_block_within(extent: int, ratio: int, b: int)
    requires
        ratio > 0,
        0 <= b < extent / ratio,
    ensures
        0 <= b * ratio,
        (b + 1) * ratio <= extent,
        (b + 1) * ratio == b * ratio + ratio,
{
    vstd::arithmetic::div_mod::lemma_fundamental_div_mod(extent, ratio);
    vstd::arithmetic::div_mod::lemma_mod_bound(extent, ratio);
    assert((b + 1) * ratio == b * ratio + ratio && 0 <= b * ratio) by (nonlinear_arith)
        requires
            0 <= b,
            ratio > 0,
    ;
    assert((b + 1) * ratio <= ratio * (extent / ratio)) by (nonlinear_arith)
        requires
            b + 1 <= extent / ratio,
            ratio > 0,
    ;
}

/// What the view of a pixelated raster holds at each pixel.
pub proof fn lemma_pixelated_channel(g: PixelGrid, ratio: nat, x: int, y: int, c: int)
    requires
        g.wf(),
        g.contains(x, y),
        0 <= c < 3,
    ensures
        pixelated(g, ratio).wf(),
        pixelated(g, ratio).channel(x, y, c) == pixelated_channel(g, ratio, x, y, c),
{
    lemma_offset_in_bounds(g, x, y, c);
    lemma_offset_roundtrip(g, x, y, c);
}

/// The channel that pixelation has reached once the block rows above `bi`
/// are done and block row `bi` is done up to block column `bj`.
spec fn partly_pixelated(g: PixelGrid, ratio: nat, bi: int, bj: int, x: int, y: int, c: int) -> u8 {
    if covered(g, ratio, x, y) && (y / (ratio as int) < bi || (y / (ratio as int) == bi && x / (
    ratio as int) < bj)) {
        block_average(g, ratio, x / (ratio as int), y / (ratio as int), c)
    } else {
        0
    }
}

/// Pixelates `image`: every whole block of side `ratio` is painted with
/// the mean colour of its pixels. A strip that remains to the right of or
/// below the whole blocks is left black.
pub fn get_rbg_averages(image: &PixelBuffer, ratio: u32) -> (out: PixelBuffer)
    requires
        image.wf(),
        ratio > 0,
    ensures
        out.wf(),
        out@ == pixelated(image@, ratio as nat),
        out@.width == image@.width,
        out@.height == image@.height,
{
    let ghost g = image@;
    let ghost r = ratio as nat;
    let width = image.width();
    let height = image.height();
    let mut buffer = PixelBuffer::new(width, height).unwrap();

    let width_ratio = width / ratio;
    let height_ratio = height / ratio;

    proof {
        assert forall|px: int, py: int, c: int|
            g.contains(px, py) && 0 <= c < 3 implies #[trigger] buffer@.channel(px, py, c)
                == partly_pixelated(g, r, 0, 0, px, py, c) by {
            lemma_blank(g.width, g.height, px, py, c);
            vstd::arithmetic::div_mod::lemma_div_pos_is_pos(py, r as int);
        }
    }

    let mut i: u32 = 0;
    while i < height_ratio
        invariant
            image.wf(),
            buffer.wf(),
            g == image@,
            r == ratio,
            ratio > 0,
            buffer@.width == g.width,
            buffer@.height == g.height,
            width_ratio == g.width / r,
            height_ratio == g.height / r,
            i <= height_ratio,
            forall|px: int, py: int, c: int|
                g.contains(px, py) && 0 <= c < 3 ==> #[trigger] buffer@.channel(px, py, c)
                    == partly_pixelated(g, r, i as int, 0, px, py, c),
        decreases height_ratio - i,
    {
        let mut j: u32 = 0;
        while j < width_ratio
            invariant
                image.wf(),
                buffer.wf(),
                g == image@,
                r == ratio,
                ratio > 0,
                buffer@.width == g.width,
                buffer@.height == g.height,
                width_ratio == g.width / r,
                height_ratio == g.height / r,
                i < height_ratio,
                j <= width_ratio,
                forall|px: int, py: int, c: int|
                    g.contains(px, py) && 0 <= c < 3 ==> #[trigger] buffer@.channel(px, py, c)
                        == partly_pixelated(g, r, i as int, j as int, px, py, c),
            decreases width_ratio - j,
        {
            proof {
                lemma_block_within(g.width as int, r as int, j as int);
                lemma_block_within(g.height as int, r as int, i as int);
            }
            let avgs = get_average_of_square(
                image,
                j * ratio,
                i * ratio,
                (j + 1) * ratio,
                (i + 1) * ratio,
                ratio,
            );
            let ghost before = buffer@;
            write_square_to_image(
                &mut buffer,
                j * ratio,
                i * ratio,
                (j + 1) * ratio,
                (i + 1) * ratio,
                avgs,
            );
            proof {
                assert forall|px: int, py: int, c: int|
                    g.contains(px, py) && 0 <= c < 3 implies #[trigger] buffer@.channel(px, py, c)
                        == partly_pixelated(g, r, i as int, j + 1, px, py, c) by {
                    lemma_painted_channel(
                        before,
                        j * ratio,
                        i * ratio,
                        (j + 1) * ratio,
                        (i + 1) * ratio,
                        avgs,
                        px,
                        py,
                        c,
                    );
                    lemma_block_span(px, r as int, j as int);
                    lemma_block_span(py, r as int, i as int);
                    assert(before.channel(px, py, c) == partly_pixelated(
                        g,
                        r,
                        i as int,
                        j as int,
                        px,
                        py,
                        c,
                    ));
                }
            }
            j = j + 1;
        }
        i = i + 1;
    }

    proof {
        let goal = pixelated(g, r);
        assert forall|px: int, py: int, c: int|
            buffer@.contains(px, py) && 0 <= c < 3 implies #[trigger] buffer@.channel(px, py, c)
                == goal.channel(px, py, c) by {
            lemma_pixelated_channel(g, r, px, py, c);
            assert(buffer@.channel(px, py, c) == partly_pixelated(g, r, i as int, 0, px, py, c));
        }
        lemma_equal_by_channels(buffer@, goal);
    }
    buffer
}

} // verus!
