//! The mathematical model of an RGB raster.

use vstd::prelude::*;

verus! {

/// A `width × height` raster of RGB pixels, stored row by row with three
/// channel values (red, green, blue) per pixel.
pub struct PixelGrid {
    pub width: nat,
    pub height: nat,
    pub data: Seq<u8>,
}

impl PixelGrid {
    /// The channel data has exactly three values for every pixel.
    pub open spec fn wf(self) -> bool {
        self.data.len() == self.width * self.height * 3
    }

    /// `(x, y)` names a pixel of the raster.
    pub open spec fn contains(self, x: int, y: int) -> bool {
        0 <= x < self.width && 0 <= y < self.height
    }

    /// Position in `data` of channel `c` of the pixel at `(x, y)`.
    pub open spec fn offset(self, x: int, y: int, c: int) -> int {
        (y * self.width + x) * 3 + c
    }

    /// Value of channel `c` (0 red, 1 green, 2 blue) of the pixel at `(x, y)`.
    pub open spec fn channel(self, x: int, y: int, c: int) -> u8 {
        self.data[self.offset(x, y, c)]
    }

    /// The three channel values of the pixel at `(x, y)`.
    pub open spec fn pixel(self, x: int, y: int) -> (u8, u8, u8) {
        (self.channel(x, y, 0), self.channel(x, y, 1), self.channel(x, y, 2))
    }

    /// Column of the pixel that position `i` of `data` belongs to.
    pub open spec fn column_of(self, i: int) -> int {
        (i / 3) % (self.width as int)
    }

    /// Row of the pixel that position `i` of `data` belongs to.
    pub open spec fn row_of(self, i: int) -> int {
        (i / 3) / (self.width as int)
    }

    /// The raster with the pixel at `(x, y)` replaced by `rgb`.
    pub open spec fn with_pixel(self, x: int, y: int, rgb: (u8, u8, u8)) -> PixelGrid {
        PixelGrid {
            width: self.width,
            height: self.height,
            data: self.data.update(self.offset(x, y, 0), rgb.0).update(
                self.offset(x, y, 1),
                rgb.1,
            ).update(self.offset(x, y, 2), rgb.2),
        }
    }

    /// The all-zero (black) raster of the given size.
    pub open spec fn blank(width: nat, height: nat) -> PixelGrid {
        PixelGrid { width, height, data: Seq::new(width * height * 3, |i: int| 0u8) }
    }
}

/// Channel `c` of an RGB triple.
pub open spec fn component(rgb: (u8, u8, u8), c: int) -> u8 {
    if c == 0 {
        rgb.0
    } else if c == 1 {
        rgb.1
    } else {
        rgb.2
    }
}

/// Every channel of every pixel has its own position inside `data`.
pub proof fn lemma_offset_in_bounds(g: PixelGrid, x: int, y: int, c: int)
    requires
        g.contains(x, y),
        0 <= c < 3,
    ensures
        0 <= g.offset(x, y, c) < g.width * g.height * 3,
{
    let w = g.width as int;
    let h = g.height as int;
    assert(0 <= y * w && y * w + w <= h * w) by (nonlinear_arith)
        requires
            0 <= y < h,
            0 <= w,
    ;
    assert(h * w == w * h) by (nonlinear_arith);
}

/// A position computed from a pixel and a channel leads back to them.
pub proof fn lemma_offset_roundtrip(g: PixelGrid, x: int, y: int, c: int)
    requires
        g.contains(x, y),
        0 <= c < 3,
    ensures
        g.column_of(g.offset(x, y, c)) == x,
        g.row_of(g.offset(x, y, c)) == y,
        g.offset(x, y, c) % 3 == c,
{
    let w = g.width as int;
    let p = y * w + x;
    vstd::arithmetic::div_mod::lemma_fundamental_div_mod_converse(g.offset(x, y, c), 3, p, c);
    vstd::arithmetic::div_mod::lemma_fundamental_div_mod_converse(p, w, y, x);
}

/// Every position inside `data` is that of one channel of one pixel.
pub proof fn lemma_position_roundtrip(g: PixelGrid, i: int)
    requires
        0 <= i < g.width * g.height * 3,
    ensures
        g.contains(g.column_of(i), g.row_of(i)),
        0 <= i % 3 < 3,
        g.offset(g.column_of(i), g.row_of(i), i % 3) == i,
{
    let w = g.width as int;
    let h = g.height as int;
    let p = i / 3;
    assert(w > 0) by (nonlinear_arith)
        requires
            0 <= i < w * h * 3,
            0 <= w,
    ;
    assert(0 <= p < w * h);
    vstd::arithmetic::div_mod::lemma_fundamental_div_mod(p, w);
    vstd::arithmetic::div_mod::lemma_mod_pos_bound(p, w);
    vstd::arithmetic::div_mod::lemma_div_pos_is_pos(p, w);
    let x = p % w;
    let y = p / w;
    assert(y < h) by (nonlinear_arith)
        requires
            p == w * y + x,
            0 <= x,
            p < w * h,
            w > 0,
    ;
    assert(w * y == y * w) by (nonlinear_arith);
}

/// Distinct channels of distinct pixels have distinct positions.
pub proof fn lemma_offset_injective(
    g: PixelGrid,
    x1: int,
    y1: int,
    c1: int,
    x2: int,
    y2: int,
    c2: int,
)
    requires
        g.contains(x1, y1),
        g.contains(x2, y2),
        0 <= c1 < 3,
        0 <= c2 < 3,
        g.offset(x1, y1, c1) == g.offset(x2, y2, c2),
    ensures
        x1 == x2,
        y1 == y2,
        c1 == c2,
{
    lemma_offset_roundtrip(g, x1, y1, c1);
    lemma_offset_roundtrip(g, x2, y2, c2);
}

/// Two rasters of one size that agree on every channel of every pixel are
/// the same raster.
pub proof fn lemma_equal_by_channels(a: PixelGrid, b: PixelGrid)
    requires
        a.wf(),
        b.wf(),
        a.width == b.width,
        a.height == b.height,
        forall|x: int, y: int, c: int|
            a.contains(x, y) && 0 <= c < 3 ==> #[trigger] a.channel(x, y, c) == b.channel(x, y, c),
    ensures
        a == b,
{
    assert forall|i: int| 0 <= i < a.data.len() implies a.data[i] == b.data[i] by {
        lemma_position_roundtrip(a, i);
        let x = a.column_of(i);
        let y = a.row_of(i);
        assert(a.channel(x, y, i % 3) == b.channel(x, y, i % 3));
    }
    assert(a.data =~= b.data);
}

/// Replacing a pixel changes that pixel and no other.
pub proof fn lemma_with_pixel(
    g: PixelGrid,
    x: int,
    y: int,
    rgb: (u8, u8, u8),
    px: int,
    py: int,
    c: int,
)
    requires
        g.wf(),
        g.contains(x, y),
        g.contains(px, py),
        0 <= c < 3,
    ensures
        g.with_pixel(x, y, rgb).wf(),
        g.with_pixel(x, y, rgb).channel(px, py, c) == if px == x && py == y {
            component(rgb, c)
        } else {
            g.channel(px, py, c)
        },
{
    lemma_offset_in_bounds(g, x, y, 0);
    lemma_offset_in_bounds(g, x, y, 2);
    lemma_offset_in_bounds(g, px, py, c);
    if !(px == x && py == y) {
        if g.offset(px, py, c) == g.offset(x, y, 0) {
            lemma_offset_injective(g, px, py, c, x, y, 0);
        }
        if g.offset(px, py, c) == g.offset(x, y, 1) {
            lemma_offset_injective(g, px, py, c, x, y, 1);
        }
        if g.offset(px, py, c) == g.offset(x, y, 2) {
            lemma_offset_injective(g, px, py, c, x, y, 2);
        }
    }
}

/// Every channel of a blank raster is zero.
pub proof fn lemma_blank(width: nat, height: nat, x: int, y: int, c: int)
    requires
        PixelGrid::blank(width, height).contains(x, y),
        0 <= c < 3,
    ensures
        PixelGrid::blank(width, height).wf(),
        PixelGrid::blank(width, height).channel(x, y, c) == 0,
{
    lemma_offset_in_bounds(PixelGrid::blank(width, height), x, y, c);
}

} // verus!
