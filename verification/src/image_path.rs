use vstd::prelude::*;

use crate::event::UNIT;
use crate::path::{IntoTrace, Point, Trace};

verus! {

/// Luma values below this threshold count as ink.
pub const INK_THRESHOLD: u8 = 20;

/// The luma value of a pixel after thresholding: pure black for ink, pure
/// white for everything else.
pub open spec fn ink_of(v: u8) -> u8 {
    if v < INK_THRESHOLD {
        0
    } else {
        255
    }
}

/// The coordinate `v` of an axis spanning `extent` cells, normalized over
/// `UNIT`, rounded down.
pub open spec fn cell_norm(v: int, extent: int) -> u32
    recommends
        0 <= v < extent,
{
    ((v * (UNIT as int)) / extent) as u32
}

/// A cell coordinate always normalizes into the range.
proof fn lemma_cell_norm_bounds(v: int, extent: int)
    requires
        0 <= v < extent,
    ensures
        0 <= (v * (UNIT as int)) / extent < UNIT,
{
    assert(0 <= (v * (UNIT as int)) / extent < UNIT) by (nonlinear_arith)
        requires
            0 <= v < extent,
            UNIT == 65536,
    ;
}

/// The normalized coordinates of the ink pixels among the first `k` cells
/// of the raster, scanned in column-major order: cell `k` is column
/// `k / h`, row `k % h`.
pub open spec fn ink_points_upto(pix: Seq<u8>, w: int, h: int, k: int) -> Seq<(u32, u32)>
    decreases k,
{
    if k <= 0 {
        Seq::empty()
    } else {
        let x = (k - 1) / h;
        let y = (k - 1) % h;
        ink_points_upto(pix, w, h, k - 1) + if pix[y * w + x] == 0 {
            seq![(cell_norm(x, w), cell_norm(y, h))]
        } else {
            Seq::empty()
        }
    }
}

/// The normalized coordinates of all ink pixels of the raster, in
/// column-major order.
pub open spec fn ink_points(pix: Seq<u8>, w: int, h: int) -> Seq<(u32, u32)> {
    ink_points_upto(pix, w, h, w * h)
}

/// Structure that represents a path generated from a bitmap rather than
/// from a list of sign pad events.
///
/// The raster is forced into a high-contrast monochrome format once, at
/// construction: a pixel below the ink threshold becomes pure black, any
/// other becomes pure white.
#[derive(Debug, PartialEq)]
pub struct BitmapPath {
    /// The thresholded luma raster, row-major.
    pixels: Vec<u8>,
    /// Width of the raster, in pixels.
    width: u32,
    /// Height of the raster, in pixels.
    height: u32,
}

impl View for BitmapPath {
    type V = Seq<u8>;

    closed spec fn view(&self) -> Seq<u8> {
        self.pixels@
    }
}

impl BitmapPath {
    /// The raster holds one luma byte per pixel, each pure black or pure
    /// white.
    #[verifier::type_invariant]
    spec fn valid(self) -> bool {
        &&& self.pixels@.len() == (self.width as int) * (self.height as int)
        &&& forall|i: int|
            0 <= i < self.pixels@.len() ==> self.pixels@[i] == 0 || self.pixels@[i] == 255
    }

    /// Width of the raster, in pixels.
    pub closed spec fn spec_width(self) -> u32 {
        self.width
    }

    /// Height of the raster, in pixels.
    pub closed spec fn spec_height(self) -> u32 {
        self.height
    }

    /// Creates a new bitmap path from the given luma raster, given in
    /// row-major order, one byte per pixel.
    pub fn new(width: u32, height: u32, luma: Vec<u8>) -> (r: BitmapPath)
        requires
            luma@.len() == (width as int) * (height as int),
        ensures
            r.spec_width() == width,
            r.spec_height() == height,
            r@.len() == luma@.len(),
            forall|i: int| 0 <= i < luma@.len() ==> r@[i] == ink_of(#[trigger] luma@[i]),
    {
        let mut pixels = luma;
        let len = pixels.len();
        let mut i: usize = 0;
        while i < len
            invariant
                i <= len,
                len == pixels@.len(),
                pixels@.len() == luma@.len(),
                forall|j: int| 0 <= j < i ==> pixels@[j] == ink_of(#[trigger] luma@[j]),
                forall|j: int| i <= j < len ==> pixels@[j] == luma@[j],
            decreases len - i,
        {
            let v = pixels[i];
            pixels[i] = if v < INK_THRESHOLD {
                0
            } else {
                255
            };
            i = i + 1;
        }
        assert forall|j: int| 0 <= j < pixels@.len() implies pixels@[j] == 0 || pixels@[j]
            == 255 by {
            assert(pixels@[j] == ink_of(luma@[j]));
        }
        BitmapPath { pixels, width, height }
    }

    /// Width of the canvas.
    pub fn width(&self) -> (r: u32)
        ensures
            r == self.spec_width(),
    {
        self.width
    }

    /// Height of the canvas.
    pub fn height(&self) -> (r: u32)
        ensures
            r == self.spec_height(),
    {
        self.height
    }

    /// Copies the image data in this canvas into a memory blob encoded
    /// as a bitmap.
    ///
    /// The format the bitmap will be in is full color 24-bpp RGB, in
    /// which pixels marked as active will be painted black and pixels
    /// that are not will be painted white.
    pub fn to_bitmap(&self) -> (r: Vec<u8>)
        requires
            crate::bmp::bmp_fits(self.spec_width(), self.spec_height()),
        ensures
            r@ == crate::bmp::bmp_encoding(
                rgb_of_luma(self@),
                self.spec_width(),
                self.spec_height(),
            ),
    {
        proof {
            use_type_invariant(self);
        }
        let len = self.pixels.len();
        let mut rgb: Vec<u8> = Vec::new();
        let mut k: usize = 0;
        while k < len
            invariant
                k <= len,
                len == self@.len(),
                rgb@ == rgb_of_luma(self@.take(k as int)),
            decreases len - k,
        {
            let v = self.pixels[k];
            rgb.push(v);
            rgb.push(v);
            rgb.push(v);
            k = k + 1;
            assert(rgb@ =~= rgb_of_luma(self@.take(k as int)));
        }
        proof {
            assert(self@.take(len as int) =~= self@);
            assert(3 * (self.spec_width() as int) * (self.spec_height() as int) == ((
            self.spec_width() as int) * (self.spec_height() as int)) * 3) by (nonlinear_arith);
        }
        crate::bmp::encode_bmp(&rgb, self.width, self.height)
    }
}

/// The RGB bytes of a thresholded luma raster: row-major, three bytes
/// per pixel, each pixel's luma repeated over the three channels.
pub open spec fn rgb_of_luma(pix: Seq<u8>) -> Seq<u8> {
    Seq::new(pix.len() * 3, |i: int| pix[i / 3])
}

/// The points that the collected ink pixels yield at the parameter `t`:
/// parameter `t` over `UNIT` selects the ink pixel at `t * count`,
/// rounded down, and an in-range selection yields a dab: one point with
/// touch set, immediately followed by one at the same coordinates with
/// touch cleared. Out of range, nothing is yielded.
pub open spec fn stamp_curve(points: Seq<(u32, u32)>, t: u32) -> Seq<Point> {
    let index = ((t as int) * points.len()) / (UNIT as int);
    if index < points.len() {
        seq![
            Point { x: points[index].0, y: points[index].1, touch: true },
            Point { x: points[index].0, y: points[index].1, touch: false },
        ]
    } else {
        Seq::empty()
    }
}

/// A parametric curve derived from a bitmap path.
pub struct BitmapTrace {
    /// The normalized coordinates of the ink pixels, in column-major
    /// order of the source raster.
    points: Vec<(u32, u32)>,
}

impl View for BitmapTrace {
    type V = Seq<(u32, u32)>;

    closed spec fn view(&self) -> Seq<(u32, u32)> {
        self.points@
    }
}

impl Trace for BitmapTrace {
    open spec fn points_at(&self, t: u32) -> Seq<Point> {
        stamp_curve(self@, t)
    }

    fn get(&self, t: u32, buffer: &mut Vec<Point>) -> (n: usize) {
        let len = self.points.len();
        proof {
            crate::canvas::lemma_mul_le(
                t as int,
                len as int,
                u32::MAX as int,
                usize::MAX as int,
            );
        }
        let index: u128 = ((t as u128) * (len as u128)) / (UNIT as u128);
        if index < len as u128 {
            let sel = self.points[index as usize];
            buffer.push(Point { x: sel.0, y: sel.1, touch: true });
            buffer.push(Point { x: sel.0, y: sel.1, touch: false });
            assert(buffer@ =~= old(buffer)@ + self.points_at(t));
            2
        } else {
            assert(buffer@ =~= old(buffer)@ + self.points_at(t));
            0
        }
    }
}

impl IntoTrace for BitmapPath {
    type Trace = BitmapTrace;

    open spec fn curve_at(&self, t: u32) -> Seq<Point> {
        stamp_curve(
            ink_points(self@, self.spec_width() as int, self.spec_height() as int),
            t,
        )
    }

    fn trace(&self) -> (r: BitmapTrace) {
        proof {
            use_type_invariant(self);
        }
        let w = self.width;
        let h = self.height;
        let plen = self.pixels.len();
        let mut points: Vec<(u32, u32)> = Vec::new();
        let mut x: u32 = 0;
        while x < w
            invariant
                0 <= x <= w,
                plen == self.pixels@.len(),
                self.pixels@.len() == (w as int) * (h as int),
                w == self.spec_width(),
                h == self.spec_height(),
                points@ == ink_points_upto(self@, w as int, h as int, (x as int) * (h as int)),
            decreases w - x,
        {
            let mut y: u32 = 0;
            proof {
                crate::canvas::lemma_mul_le(x as int, h as int, u32::MAX as int, u32::MAX as int);
            }
            while y < h
                invariant
                    0 <= y <= h,
                    x < w,
                    plen == self.pixels@.len(),
                    self.pixels@.len() == (w as int) * (h as int),
                    w == self.spec_width(),
                    h == self.spec_height(),
                    points@ == ink_points_upto(
                        self@,
                        w as int,
                        h as int,
                        (x as int) * (h as int) + (y as int),
                    ),
                decreases h - y,
            {
                proof {
                    lemma_cell_index(w as int, h as int, x as int, y as int);
                }
                let idx: usize = ((y as u64) * (w as u64) + (x as u64)) as usize;
                let v = self.pixels[idx];
                if v == 0 {
                    proof {
                        lemma_cell_norm_bounds(x as int, w as int);
                        lemma_cell_norm_bounds(y as int, h as int);
                    }
                    let nx: u32 = (((x as u64) * (UNIT as u64)) / (w as u64)) as u32;
                    let ny: u32 = (((y as u64) * (UNIT as u64)) / (h as u64)) as u32;
                    points.push((nx, ny));
                }
                y = y + 1;
                assert(points@ =~= ink_points_upto(
                    self@,
                    w as int,
                    h as int,
                    (x as int) * (h as int) + (y as int),
                ));
            }
            x = x + 1;
            proof {
                assert((x as int) * (h as int) == ((x - 1) as int) * (h as int) + (h as int)) by (
                nonlinear_arith);
            }
        }
        proof {
            assert((w as int) * (h as int) == (x as int) * (h as int));
        }
        BitmapTrace { points }
    }
}

/// In column-major order, the cell at column `x`, row `y` is cell number
/// `x * h + y`, and its raster index `y * w + x` is in range.
proof fn lemma_cell_index(w: int, h: int, x: int, y: int)
    requires
        0 <= x < w,
        0 <= y < h,
    ensures
        (x * h + y) / h == x,
        (x * h + y) % h == y,
        0 <= y * w + x < w * h,
        x * h + y < w * h,
{
    vstd::arithmetic::div_mod::lemma_fundamental_div_mod_converse(x * h + y, h, x, y);
    assert(0 <= y * w + x < w * h && x * h + y < w * h) by (nonlinear_arith)
        requires
            0 <= x < w,
            0 <= y < h,
    ;
}

/// Every stamp the image-derived curve yields is a dab: two points at the
/// same coordinates, touch-then-lift, in that order.
pub proof fn lemma_stamp_is_dab(points: Seq<(u32, u32)>, t: u32)
    ensures
        stamp_curve(points, t).len() == 0 || stamp_curve(points, t).len() == 2,
        stamp_curve(points, t).len() == 2 ==> ({
            let s = stamp_curve(points, t);
            &&& s[0].x == s[1].x
            &&& s[0].y == s[1].y
            &&& s[0].touch
            &&& !s[1].touch
        }),
{
}

} // verus!
