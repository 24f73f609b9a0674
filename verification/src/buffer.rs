//! The executable pixel buffer.

use crate::grid::{lemma_offset_in_bounds, PixelGrid};
use vstd::prelude::*;

verus! {

/// An owned RGB raster: three bytes per pixel, rows from top to bottom,
/// pixels within a row from left to right.
#[derive(Clone, Debug, PartialEq, Eq)]
pub struct PixelBuffer {
    width: u32,
    height: u32,
    data: Vec<u8>,
}

impl View for PixelBuffer {
    type V = PixelGrid;

    closed spec fn view(&self) -> PixelGrid {
        PixelGrid { width: self.width as nat, height: self.height as nat, data: self.data@ }
    }
}

/// Number of channel values of a `width × height` raster.
pub open spec fn raster_len(width: int, height: int) -> int {
    width * height * 3
}

impl PixelBuffer {
    /// The buffer holds exactly the channel values of its pixels.
    pub open spec fn wf(&self) -> bool {
        &&& self@.wf()
        &&& self@.width <= u32::MAX
        &&& self@.height <= u32::MAX
        &&& self@.data.len() <= usize::MAX
    }

    /// A black buffer of the given size, or `None` when its channel values
    /// cannot be counted in a `usize`.
    pub fn new(width: u32, height: u32) -> (out: Option<PixelBuffer>)
        ensures
            out is Some <==> raster_len(width as int, height as int) <= usize::MAX,
            out matches Some(buffer) ==> buffer.wf() && buffer@ == PixelGrid::blank(
                width as nat,
                height as nat,
            ),
    {
        match checked_raster_len(width, height) {
            Some(len) => {
                let data = vec![0u8; len];
                assert(data@ =~= PixelGrid::blank(width as nat, height as nat).data);
                Some(PixelBuffer { width, height, data })
            },
            None => None,
        }
    }

    /// Wraps raw channel data, or gives `None` when `data` does not hold
    /// exactly three values for each of the `width × height` pixels.
    pub fn from_raw(width: u32, height: u32, data: Vec<u8>) -> (out: Option<PixelBuffer>)
        ensures
            out is Some <==> data@.len() == raster_len(width as int, height as int),
            out matches Some(buffer) ==> buffer.wf() && buffer@ == (PixelGrid {
                width: width as nat,
                height: height as nat,
                data: data@,
            }),
    {
        let given = data.len();
        match checked_raster_len(width, height) {
            Some(len) => {
                if given == len {
                    Some(PixelBuffer { width, height, data })
                } else {
                    None
                }
            },
            None => None,
        }
    }

    /// Gives the raw channel data back.
    pub fn into_raw(self) -> (data: Vec<u8>)
        ensures
            data@ == self@.data,
    {
        self.data
    }

    /// The raw channel data.
    pub fn as_raw(&self) -> (data: &Vec<u8>)
        ensures
            data@ == self@.data,
    {
        &self.data
    }

    /// Number of pixels in a row.
    pub fn width(&self) -> (w: u32)
        ensures
            w == self@.width,
    {
        self.width
    }

    /// Number of rows.
    pub fn height(&self) -> (h: u32)
        ensures
            h == self@.height,
    {
        self.height
    }

    /// Width and height.
    pub fn dimensions(&self) -> (d: (u32, u32))
        ensures
            d.0 == self@.width,
            d.1 == self@.height,
    {
        (self.width, self.height)
    }

    /// The pixel at `(x, y)`.
    pub fn get_pixel(&self, x: u32, y: u32) -> (rgb: (u8, u8, u8))
        requires
            self.wf(),
            self@.contains(x as int, y as int),
        ensures
            rgb == self@.pixel(x as int, y as int),
    {
        let base = self.pixel_start(x, y);
        (self.data[base], self.data[base + 1], self.data[base + 2])
    }

    /// Overwrites the pixel at `(x, y)`.
    pub fn put_pixel(&mut self, x: u32, y: u32, rgb: (u8, u8, u8))
        requires
            old(self).wf(),
            old(self)@.contains(x as int, y as int),
        ensures
            final(self).wf(),
            final(self)@ == old(self)@.with_pixel(x as int, y as int, rgb),
    {
        let base = self.pixel_start(x, y);
        self.data.set(base, rgb.0);
        self.data.set(base + 1, rgb.1);
        self.data.set(base + 2, rgb.2);
    }

    /// Position of the red channel of the pixel at `(x, y)`.
    fn pixel_start(&self, x: u32, y: u32) -> (base: usize)
        requires
            self.wf(),
            self@.contains(x as int, y as int),
        ensures
            base == self@.offset(x as int, y as int, 0),
            base + 2 < self@.data.len(),
            base + 2 <= usize::MAX,
    {
        proof {
            lemma_offset_in_bounds(self@, x as int, y as int, 2);
            assert(0 <= (y as int) * (self.width as int)) by (nonlinear_arith);
        }
        (y as usize * self.width as usize + x as usize) * 3
    }
}

/// `width * height * 3` as a `usize`, where it fits.
fn checked_raster_len(width: u32, height: u32) -> (len: Option<usize>)
    ensures
        len is Some <==> raster_len(width as int, height as int) <= usize::MAX,
        len matches Some(n) ==> n == raster_len(width as int, height as int),
{
    assert(0 <= (width as int) * (height as int)) by (nonlinear_arith);
    match (width as usize).checked_mul(height as usize) {
        Some(pixels) => pixels.checked_mul(3),
        None => None,
    }
}

} // verus!
