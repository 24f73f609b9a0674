//! What holds of pixelation whatever the raster.

use crate::average::{lemma_region_sum_constant, lemma_square_average_exact, region_sum};
use crate::blocks::{
    block_average, covered, lemma_block_span, lemma_block_within, lemma_pixelated_channel,
    pixelated,
};
use crate::grid::{lemma_blank, lemma_equal_by_channels, PixelGrid};
use crate::trim::trimmed;
use vstd::prelude::*;

verus! {

/// The colour of a whole block is the mean of its pixels rounded down, in
/// every channel; it lies between 0 and 255, so cutting it down to eight
/// bits loses nothing.
pub proof fn lemma_block_average_is_floor_mean(g: PixelGrid, ratio: nat, bx: int, by: int, c: int)
    requires
        ratio > 0,
    ensures
        block_average(g, ratio, bx, by, c) == region_sum(
            g,
            bx * ratio,
            by * ratio,
            (bx + 1) * ratio,
            (by + 1) * ratio,
            c,
        ) / ((ratio * ratio) as int),
        0 <= region_sum(g, bx * ratio, by * ratio, (bx + 1) * ratio, (by + 1) * ratio, c) / ((ratio
            * ratio) as int) <= 255,
{
    lemma_block_span(0, ratio as int, bx);
    lemma_block_span(0, ratio as int, by);
    lemma_square_average_exact(g, bx * ratio, by * ratio, ratio as int, c);
}

/// Two pixels of one whole block have the same colour after pixelation.
pub proof fn lemma_blocks_are_flat(
    g: PixelGrid,
    ratio: nat,
    x1: int,
    y1: int,
    x2: int,
    y2: int,
    c: int,
)
    requires
        g.wf(),
        ratio > 0,
        g.contains(x1, y1),
        g.contains(x2, y2),
        0 <= c < 3,
        covered(g, ratio, x1, y1),
        x1 / (ratio as int) == x2 / (ratio as int),
        y1 / (ratio as int) == y2 / (ratio as int),
    ensures
        pixelated(g, ratio).channel(x1, y1, c) == pixelated(g, ratio).channel(x2, y2, c),
{
    lemma_pixelated_channel(g, ratio, x1, y1, c);
    lemma_pixelated_channel(g, ratio, x2, y2, c);
}

/// A whole block whose pixels all have the value `v` in channel `c` has
/// the mean `v` in that channel.
pub proof fn lemma_flat_block_average(g: PixelGrid, ratio: nat, bx: int, by: int, c: int, v: u8)
    requires
        ratio > 0,
        forall|x: int, y: int|
            bx * ratio <= x < (bx + 1) * ratio && by * ratio <= y < (by + 1) * ratio
                ==> #[trigger] g.channel(x, y, c) == v,
    ensures
        block_average(g, ratio, bx, by, c) == v,
{
    let r = ratio as int;
    lemma_block_span(0, r, bx);
    lemma_block_span(0, r, by);
    lemma_region_sum_constant(g, bx * r, by * r, (bx + 1) * r, (by + 1) * r, c, v);
    let area = r * r;
    assert(area > 0) by (nonlinear_arith)
        requires
            area == r * r,
            r > 0,
    ;
    vstd::arithmetic::div_mod::lemma_div_multiples_vanish(v as int, area);
    assert(v * area == area * v) by (nonlinear_arith);
}

/// Pixelating a pixelated raster again with the same block size changes
/// nothing.
pub proof fn lemma_pixelated_idempotent(g: PixelGrid, ratio: nat)
    requires
        g.wf(),
        ratio > 0,
    ensures
        pixelated(pixelated(g, ratio), ratio) == pixelated(g, ratio),
{
    let r = ratio as int;
    let once = pixelated(g, ratio);
    let twice = pixelated(once, ratio);
    assert forall|x: int, y: int, c: int|
        twice.contains(x, y) && 0 <= c < 3 implies #[trigger] twice.channel(x, y, c)
            == once.channel(x, y, c) by {
        lemma_pixelated_channel(g, ratio, x, y, c);
        lemma_pixelated_channel(once, ratio, x, y, c);
        if covered(g, ratio, x, y) {
            let bx = x / r;
            let by = y / r;
            let v = block_average(g, ratio, bx, by, c);
            vstd::arithmetic::div_mod::lemma_div_pos_is_pos(x, r);
            vstd::arithmetic::div_mod::lemma_div_pos_is_pos(y, r);
            lemma_block_within(g.width as int, r, bx);
            lemma_block_within(g.height as int, r, by);
            assert forall|px: int, py: int|
                bx * ratio <= px < (bx + 1) * ratio && by * ratio <= py < (by + 1) * ratio
                    implies #[trigger] once.channel(px, py, c) == v by {
                lemma_block_span(px, r, bx);
                lemma_block_span(py, r, by);
                lemma_pixelated_channel(g, ratio, px, py, c);
            }
            lemma_flat_block_average(once, ratio, bx, by, c, v);
        }
    }
    lemma_equal_by_channels(twice, once);
}

/// Trimming and pixelating what trimming and pixelating gave changes
/// nothing: a pixelated raster keeps the trimmed dimensions, so it is not
/// trimmed again, and its blocks are flat already.
pub proof fn lemma_pipeline_idempotent(g: PixelGrid, ratio: nat)
    requires
        ratio > 0,
        trimmed(g, ratio).wf(),
    ensures
        pixelated(trimmed(pixelated(trimmed(g, ratio), ratio), ratio), ratio) == pixelated(
            trimmed(g, ratio),
            ratio,
        ),
{
    let t = trimmed(g, ratio);
    crate::trim::lemma_trimmed_dimensions(g, ratio);
    crate::trim::lemma_trimmed_noop(pixelated(t, ratio), ratio);
    lemma_pixelated_idempotent(t, ratio);
}

/// A block size above both dimensions trims every raster to the raster
/// without pixels, and pixelating that one leaves it as it is.
pub proof fn lemma_oversized_ratio(g: PixelGrid, ratio: nat)
    requires
        g.wf(),
        ratio > g.width,
        ratio > g.height,
    ensures
        trimmed(g, ratio) == (PixelGrid { width: 0, height: 0, data: Seq::empty() }),
        pixelated(trimmed(g, ratio), ratio) == trimmed(g, ratio),
{
    crate::trim::lemma_trimmed_extent(g.width, ratio);
    crate::trim::lemma_trimmed_extent(g.height, ratio);
    vstd::arithmetic::div_mod::lemma_small_mod(g.width, ratio);
    vstd::arithmetic::div_mod::lemma_small_mod(g.height, ratio);
    if g.width == 0 && g.height == 0 {
        assert(g.width * g.height * 3 == 0) by (nonlinear_arith)
            requires
                g.width == 0,
        ;
        assert(g.data =~= Seq::<u8>::empty());
    }
    assert(pixelated(trimmed(g, ratio), ratio).data =~= Seq::<u8>::empty());
}

/// A block size that exceeds the width or the height leaves no whole
/// block: the pixelated raster is black.
pub proof fn lemma_no_whole_block(g: PixelGrid, ratio: nat)
    requires
        g.wf(),
        ratio > g.width || ratio > g.height,
    ensures
        pixelated(g, ratio) == PixelGrid::blank(g.width, g.height),
{
    let blank = PixelGrid::blank(g.width, g.height);
    if ratio > g.width {
        vstd::arithmetic::div_mod::lemma_basic_div(g.width as int, ratio as int);
    }
    if ratio > g.height {
        vstd::arithmetic::div_mod::lemma_basic_div(g.height as int, ratio as int);
    }
    assert forall|x: int, y: int, c: int|
        blank.contains(x, y) && 0 <= c < 3 implies #[trigger] pixelated(g, ratio).channel(x, y, c)
            == blank.channel(x, y, c) by {
        lemma_pixelated_channel(g, ratio, x, y, c);
        lemma_blank(g.width, g.height, x, y, c);
        vstd::arithmetic::div_mod::lemma_div_pos_is_pos(x, ratio as int);
        vstd::arithmetic::div_mod::lemma_div_pos_is_pos(y, ratio as int);
    }
    lemma_equal_by_channels(pixelated(g, ratio), blank);
}

/// Where both dimensions are multiples of the block size, the whole blocks
/// tile the raster: every pixel lies in one of them.
pub proof fn lemma_blocks_tile(g: PixelGrid, ratio: nat, x: int, y: int)
    requires
        ratio > 0,
        g.width % ratio == 0,
        g.height % ratio == 0,
        g.contains(x, y),
    ensures
        covered(g, ratio, x, y),
{
    let r = ratio as int;
    let bx = x / r;
    let by = y / r;
    let across = g.width as int / r;
    let down = g.height as int / r;
    vstd::arithmetic::div_mod::lemma_fundamental_div_mod(g.width as int, r);
    vstd::arithmetic::div_mod::lemma_fundamental_div_mod(g.height as int, r);
    lemma_block_span(x, r, bx);
    lemma_block_span(y, r, by);
    assert(bx < across) by (nonlinear_arith)
        requires
            bx * r <= x < r * across,
            r > 0,
    ;
    assert(by < down) by (nonlinear_arith)
        requires
            by * r <= y < r * down,
            r > 0,
    ;
}

/// A raster of one colour whose dimensions are multiples of the block size
/// comes out of pixelation as it went in.
pub proof fn lemma_uniform_is_kept(g: PixelGrid, ratio: nat, rgb: (u8, u8, u8))
    requires
        g.wf(),
        ratio > 0,
        g.width % ratio == 0,
        g.height % ratio == 0,
        forall|x: int, y: int| g.contains(x, y) ==> #[trigger] g.pixel(x, y) == rgb,
    ensures
        pixelated(g, ratio) == g,
{
    let r = ratio as int;
    let out = pixelated(g, ratio);
    assert forall|x: int, y: int, c: int|
        out.contains(x, y) && 0 <= c < 3 implies #[trigger] out.channel(x, y, c) == g.channel(
        x,
        y,
        c,
    ) by {
        lemma_pixelated_channel(g, ratio, x, y, c);
        lemma_blocks_tile(g, ratio, x, y);
        let bx = x / r;
        let by = y / r;
        vstd::arithmetic::div_mod::lemma_div_pos_is_pos(x, r);
        vstd::arithmetic::div_mod::lemma_div_pos_is_pos(y, r);
        lemma_block_within(g.width as int, r, bx);
        lemma_block_within(g.height as int, r, by);
        let v = g.channel(x, y, c);
        assert(g.pixel(x, y) == rgb);
        assert forall|px: int, py: int|
            bx * ratio <= px < (bx + 1) * ratio && by * ratio <= py < (by + 1) * ratio
                implies #[trigger] g.channel(px, py, c) == v by {
            assert(g.pixel(px, py) == rgb);
        }
        lemma_flat_block_average(g, ratio, bx, by, c, v);
    }
    lemma_equal_by_channels(out, g);
}

} // verus!
