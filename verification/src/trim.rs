//! Trimming a raster so that whole blocks tile it.

use crate::buffer::PixelBuffer;
use crate::grid::PixelGrid;
use image::imageops::FilterType;
use image::{ImageBuffer, Rgb};
use vstd::prelude::*;

verus! {

/// The channel data that `image::imageops::resize` with
/// `FilterType::Nearest` computes when the `width × height` RGB raster
/// `data` is resampled to `new_width × new_height`.
pub uninterp spec fn nearest_resample(
    width: nat,
    height: nat,
    data: Seq<u8>,
    new_width: nat,
    new_height: nat,
) -> Seq<u8>;

/// The largest multiple of `ratio` that does not exceed `extent`.
pub open spec fn trimmed_extent(extent: nat, ratio: nat) -> nat {
    (extent - extent % ratio) as nat
}

/// The raster that trimming `g` to whole blocks of side `ratio` gives:
/// `g` itself where both dimensions are multiples of `ratio` already;
/// otherwise a raster of the trimmed dimensions, which has no pixel where
/// one of them is zero and else holds `g` resampled by nearest neighbour.
pub open spec fn trimmed(g: PixelGrid, ratio: nat) -> PixelGrid {
    let width = trimmed_extent(g.width, ratio);
    let height = trimmed_extent(g.height, ratio);
    if g.width % ratio == 0 && g.height % ratio == 0 {
        g
    } else if width == 0 || height == 0 {
        PixelGrid { width, height, data: Seq::empty() }
    } else {
        PixelGrid {
            width,
            height,
            data: nearest_resample(g.width, g.height, g.data, width, height),
        }
    }
}

/// A trimmed extent is a multiple of the block size, is the number of whole
/// blocks times the block size, never exceeds the extent, equals it where
/// the extent is a multiple already, and is zero where the block is larger
/// than the extent.
pub proof fn lemma_trimmed_extent(extent: nat, ratio: nat)
    requires
        ratio > 0,
    ensures
        extent % ratio <= extent,
        trimmed_extent(extent, ratio) % ratio == 0,
        trimmed_extent(extent, ratio) == (extent / ratio) * ratio,
        trimmed_extent(extent, ratio) <= extent,
        extent % ratio == 0 ==> trimmed_extent(extent, ratio) == extent,
        ratio > extent ==> trimmed_extent(extent, ratio) == 0,
{
    let e = extent as int;
    let r = ratio as int;
    vstd::arithmetic::div_mod::lemma_fundamental_div_mod(e, r);
    vstd::arithmetic::div_mod::lemma_mod_pos_bound(e, r);
    vstd::arithmetic::div_mod::lemma_div_pos_is_pos(e, r);
    vstd::arithmetic::div_mod::lemma_mod_multiples_vanish(e / r, 0, r);
    assert(r * (e / r) == (e / r) * r && 0 <= r * (e / r)) by (nonlinear_arith)
        requires
            0 <= e / r,
            0 < r,
    ;
    if r > e {
        vstd::arithmetic::div_mod::lemma_small_mod(extent, ratio);
    }
}

/// After trimming, both dimensions are multiples of the block size.
pub proof fn lemma_trimmed_dimensions(g: PixelGrid, ratio: nat)
    requires
        ratio > 0,
    ensures
        trimmed(g, ratio).width == trimmed_extent(g.width, ratio),
        trimmed(g, ratio).height == trimmed_extent(g.height, ratio),
        trimmed(g, ratio).width % ratio == 0,
        trimmed(g, ratio).height % ratio == 0,
{
    lemma_trimmed_extent(g.width, ratio);
    lemma_trimmed_extent(g.height, ratio);
}

/// A raster whose dimensions are multiples of the block size already is
/// left as it is.
pub proof fn lemma_trimmed_noop(g: PixelGrid, ratio: nat)
    requires
        ratio > 0,
        g.width % ratio == 0,
        g.height % ratio == 0,
    ensures
        trimmed(g, ratio) == g,
{
}

/// Calls `image::imageops::resize` with `FilterType::Nearest` on the raster
/// `data`. The contract names the result and states its length: the
/// function allocates its output with `ImageBuffer::new(new_width,
/// new_height)`, three values per pixel.
///
/// `ImageBuffer::from_raw` and `ImageBuffer::new` count a buffer as three
/// times the width times the height, in that order, and fail where a
/// product leaves `usize`. The target dimensions are at least one, so the
/// source has a row, and three times its width is no more than the length
/// of `data`; the target dimensions are within the source's, so every
/// product that the call forms is no more than that length either.
#[verifier::external_body]
fn resample_nearest(
    width: u32,
    height: u32,
    data: &Vec<u8>,
    new_width: u32,
    new_height: u32,
) -> (out: Vec<u8>)
    requires
        data@.len() == width * height * 3,
        0 < new_width <= width,
        0 < new_height <= height,
    ensures
        out@ == nearest_resample(
            width as nat,
            height as nat,
            data@,
            new_width as nat,
            new_height as nat,
        ),
        out@.len() == new_width * new_height * 3,
{
    let source: ImageBuffer<Rgb<u8>, &[u8]> =
        ImageBuffer::from_raw(width, height, data.as_slice()).unwrap();
    image::imageops::resize(&source, new_width, new_height, FilterType::Nearest).into_raw()
}

/// Trims `image` so that both dimensions are multiples of `ratio`. An image
/// that needs no trimming is handed back untouched, and one that is trimmed
/// to a width or height of zero comes back without pixels.
pub fn resize_image(image: PixelBuffer, ratio: u32) -> (out: PixelBuffer)
    requires
        image.wf(),
        ratio > 0,
    ensures
        out.wf(),
        out@ == trimmed(image@, ratio as nat),
        out@.width == trimmed_extent(image@.width, ratio as nat),
        out@.height == trimmed_extent(image@.height, ratio as nat),
        out@.width % (ratio as nat) == 0,
        out@.height % (ratio as nat) == 0,
        image@.width % (ratio as nat) == 0 && image@.height % (ratio as nat) == 0 ==> out == image,
{
    let width = image.width();
    let height = image.height();
    proof {
        lemma_trimmed_dimensions(image@, ratio as nat);
        lemma_trimmed_extent(image@.width, ratio as nat);
        lemma_trimmed_extent(image@.height, ratio as nat);
    }

    if width % ratio > 0 || height % ratio > 0 {
        let remain_width = width % ratio;
        let remain_height = height % ratio;
        let new_width = width - remain_width;
        let new_height = height - remain_height;

        if new_width == 0 || new_height == 0 {
            let empty = PixelBuffer::new(new_width, new_height).unwrap();
            assert(empty@.data =~= Seq::<u8>::empty());
            return empty;
        }
        let data = resample_nearest(width, height, image.as_raw(), new_width, new_height);
        return PixelBuffer::from_raw(new_width, new_height, data).unwrap();
    }
    image
}

} // verus!
