use vstd::prelude::*;

use crate::event::{Event, UNIT};

verus! {

/// The number of bytes needed to store `bits` bits, one per pixel.
pub open spec fn bytes_for(bits: nat) -> nat {
    bits / 8 + if bits % 8 == 0 {
        0nat
    } else {
        1nat
    }
}

/// The absolute value of `v`.
pub open spec fn abs_of(v: int) -> int {
    if v < 0 {
        -v
    } else {
        v
    }
}

/// The sign of `v`: `-1`, `0` or `1`.
pub open spec fn sign_of(v: int) -> int {
    if v < 0 {
        -1
    } else if v > 0 {
        1
    } else {
        0
    }
}

/// `p / m`, rounded to the nearest integer with halves rounded up.
pub open spec fn rnd_div(p: int, m: int) -> int
    recommends
        m >= 1,
{
    (2 * p + m) / (2 * m)
}

/// The pixel that the normalized coordinate `v` (over `UNIT`) maps to on an
/// axis of `extent` pixels: `v * (extent - 1) / UNIT`, rounded to nearest.
pub open spec fn pixel_of(v: u32, extent: u32) -> int
    recommends
        extent >= 1,
        v <= UNIT,
{
    ((v as int) * ((extent - 1) as int) + (UNIT as int) / 2) / (UNIT as int)
}

/// A normalized coordinate always maps into the axis.
pub proof fn lemma_pixel_of_bounds(v: u32, extent: u32)
    requires
        extent >= 1,
        v <= UNIT,
    ensures
        0 <= pixel_of(v, extent) < extent,
{
    assert(0 <= ((v as int) * ((extent - 1) as int) + (UNIT as int) / 2) / (UNIT as int)
        < extent as int) by (nonlinear_arith)
        requires
            extent >= 1,
            v <= UNIT,
            UNIT == 65536,
    ;
}

/// The extremes of the normalized range map to the extremes of the axis.
pub proof fn lemma_pixel_of_extremes(extent: u32)
    requires
        extent >= 1,
    ensures
        pixel_of(0, extent) == 0,
        pixel_of(UNIT, extent) == extent - 1,
{
    assert(((0 as int) * ((extent - 1) as int) + (UNIT as int) / 2) / (UNIT as int) == 0)
        by (nonlinear_arith)
        requires
            extent >= 1,
            UNIT == 65536,
    ;
    assert(((UNIT as int) * ((extent - 1) as int) + (UNIT as int) / 2) / (UNIT as int) == extent
        - 1) by (nonlinear_arith)
        requires
            extent >= 1,
            UNIT == 65536,
    ;
}

/// The number of intermediate pixels of the digital line from `a` to `b`:
/// the span of the driving axis, the one with the larger displacement.
pub open spec fn seg_len(a: (u32, u32), b: (u32, u32)) -> int {
    let dx = b.0 - a.0;
    let dy = b.1 - a.1;
    if dx == 0 && dy == 0 {
        0
    } else if abs_of(dx) > abs_of(dy) {
        abs_of(dx)
    } else {
        abs_of(dy)
    }
}

/// The `i`-th pixel of the digital line from `a` to `b`: one step per pixel
/// along the driving axis, the other axis following the slope rounded to
/// the nearest pixel.
pub open spec fn seg_pixel(a: (u32, u32), b: (u32, u32), i: int) -> (int, int) {
    let dx = b.0 - a.0;
    let dy = b.1 - a.1;
    if abs_of(dx) > abs_of(dy) {
        (a.0 + i * sign_of(dx), rnd_div(a.1 * abs_of(dx) + i * dy, abs_of(dx)))
    } else {
        (rnd_div(a.0 * abs_of(dy) + i * dx, abs_of(dy)), a.1 + i * sign_of(dy))
    }
}

/// The pixel sequence `pix` with the pixel `p` set, in a raster of width
/// `w`. A pixel outside the raster leaves the sequence alone; the canvas
/// never traces one.
pub open spec fn set_pixel(pix: Seq<bool>, w: int, p: (int, int)) -> Seq<bool> {
    if 0 <= p.1 * w + p.0 < pix.len() {
        pix.update(p.1 * w + p.0, true)
    } else {
        pix
    }
}

/// The pixel sequence `pix` with the first `k` pixels of the digital line
/// from `a` to `b` set.
pub open spec fn drawn(pix: Seq<bool>, a: (u32, u32), b: (u32, u32), w: int, k: int) -> Seq<bool>
    decreases k,
{
    if k <= 0 {
        pix
    } else {
        set_pixel(drawn(pix, a, b, w, k - 1), w, seg_pixel(a, b, k - 1))
    }
}

/// The pixel sequence after a touching sample mapped to pixel `p` is
/// processed: `p` itself is set, and if a stroke was open at cursor `last`,
/// the digital line from the cursor to `p` is traced as well.
pub open spec fn stroke(pix: Seq<bool>, last: Option<(u32, u32)>, p: (u32, u32), w: int) -> Seq<
    bool,
> {
    let base = set_pixel(pix, w, (p.0 as int, p.1 as int));
    match last {
        None => base,
        Some(l) => drawn(base, l, p, w, seg_len(l, p)),
    }
}

/// Rounding the interpolated value at step `i` of `m` keeps it between the
/// two endpoints.
proof fn lemma_rnd_div_between(y0: int, y1: int, m: int, i: int)
    requires
        m >= 1,
        0 <= i <= m,
        0 <= y0,
        0 <= y1,
    ensures
        y0 <= y1 ==> y0 <= rnd_div(y0 * m + i * (y1 - y0), m) <= y1,
        y1 <= y0 ==> y1 <= rnd_div(y0 * m + i * (y1 - y0), m) <= y0,
{
    let lo: int = if y0 <= y1 {
        y0
    } else {
        y1
    };
    let hi: int = if y0 <= y1 {
        y1
    } else {
        y0
    };
    let p = y0 * m + i * (y1 - y0);
    assert(lo * m <= p && p <= hi * m) by (nonlinear_arith)
        requires
            m >= 1,
            0 <= i <= m,
            lo <= y0 <= hi,
            lo <= y1 <= hi,
            (lo == y0 || lo == y1) && (hi == y0 || hi == y1),
            p == y0 * m + i * (y1 - y0),
    ;
    assert(2 * lo * m + m <= 2 * p + m <= 2 * hi * m + m) by (nonlinear_arith)
        requires
            lo * m <= p <= hi * m,
    ;
    vstd::arithmetic::div_mod::lemma_div_is_ordered(2 * lo * m + m, 2 * p + m, 2 * m);
    vstd::arithmetic::div_mod::lemma_div_is_ordered(2 * p + m, 2 * hi * m + m, 2 * m);
    assert(2 * lo * m + m == lo * (2 * m) + m) by (nonlinear_arith);
    assert(2 * hi * m + m == hi * (2 * m) + m) by (nonlinear_arith);
    vstd::arithmetic::div_mod::lemma_fundamental_div_mod_converse(2 * lo * m + m, 2 * m, lo, m);
    vstd::arithmetic::div_mod::lemma_fundamental_div_mod_converse(2 * hi * m + m, 2 * m, hi, m);
}

/// Every pixel of the digital line from `a` to `b` stays inside the
/// bounding box of its two endpoints.
pub proof fn lemma_seg_pixel_in_box(a: (u32, u32), b: (u32, u32), i: int)
    requires
        0 <= i <= seg_len(a, b),
        seg_len(a, b) > 0,
    ensures
        abs_of(b.0 - a.0) > abs_of(b.1 - a.1) ==> seg_pixel(a, b, i).0 == a.0 + i * sign_of(
            b.0 - a.0,
        ),
        abs_of(b.0 - a.0) <= abs_of(b.1 - a.1) ==> seg_pixel(a, b, i).1 == a.1 + i * sign_of(
            b.1 - a.1,
        ),
        min_of(a.0 as int, b.0 as int) <= seg_pixel(a, b, i).0 <= max_of(a.0 as int, b.0 as int),
        min_of(a.1 as int, b.1 as int) <= seg_pixel(a, b, i).1 <= max_of(a.1 as int, b.1 as int),
{
    let dx = b.0 - a.0;
    let dy = b.1 - a.1;
    if abs_of(dx) > abs_of(dy) {
        let m = abs_of(dx);
        lemma_rnd_div_between(a.1 as int, b.1 as int, m, i);
        assert(a.1 * m + i * dy == a.1 as int * m + i * ((b.1 as int) - (a.1 as int)));
        assert(min_of(a.0 as int, b.0 as int) <= a.0 + i * sign_of(dx) <= max_of(
            a.0 as int,
            b.0 as int,
        )) by (nonlinear_arith)
            requires
                0 <= i <= abs_of(dx),
                dx == b.0 - a.0,
                abs_of(dx) == (if dx < 0 {
                    -dx
                } else {
                    dx
                }),
                sign_of(dx) == (if dx < 0 {
                    -1int
                } else if dx > 0 {
                    1int
                } else {
                    0int
                }),
                min_of(a.0 as int, b.0 as int) == (if a.0 <= b.0 {
                    a.0 as int
                } else {
                    b.0 as int
                }),
                max_of(a.0 as int, b.0 as int) == (if a.0 <= b.0 {
                    b.0 as int
                } else {
                    a.0 as int
                }),
        ;
    } else {
        let m = abs_of(dy);
        assert(m >= 1);
        lemma_rnd_div_between(a.0 as int, b.0 as int, m, i);
        assert(min_of(a.1 as int, b.1 as int) <= a.1 + i * sign_of(dy) <= max_of(
            a.1 as int,
            b.1 as int,
        )) by (nonlinear_arith)
            requires
                0 <= i <= abs_of(dy),
                dy == b.1 - a.1,
                abs_of(dy) == (if dy < 0 {
                    -dy
                } else {
                    dy
                }),
                sign_of(dy) == (if dy < 0 {
                    -1int
                } else if dy > 0 {
                    1int
                } else {
                    0int
                }),
                min_of(a.1 as int, b.1 as int) == (if a.1 <= b.1 {
                    a.1 as int
                } else {
                    b.1 as int
                }),
                max_of(a.1 as int, b.1 as int) == (if a.1 <= b.1 {
                    b.1 as int
                } else {
                    a.1 as int
                }),
        ;
    }
}

/// Shifting the dividend by one whole divisor shifts the quotient by one.
proof fn lemma_div_shift_one(x: int, d: int)
    requires
        d >= 1,
    ensures
        (x + d) / d == x / d + 1,
        (x - d) / d == x / d - 1,
{
    vstd::arithmetic::div_mod::lemma_fundamental_div_mod(x, d);
    vstd::arithmetic::div_mod::lemma_mod_bound(x, d);
    assert(x + d == (x / d + 1) * d + x % d) by (nonlinear_arith)
        requires
            x == d * (x / d) + x % d,
    ;
    assert(x - d == (x / d - 1) * d + x % d) by (nonlinear_arith)
        requires
            x == d * (x / d) + x % d,
    ;
    vstd::arithmetic::div_mod::lemma_fundamental_div_mod_converse(x + d, d, x / d + 1, x % d);
    vstd::arithmetic::div_mod::lemma_fundamental_div_mod_converse(x - d, d, x / d - 1, x % d);
}

/// The digital line from `a` to `b` starts at `a`, and its one-past-the-end
/// pixel is `b` itself: tracing its `seg_len` pixels and then setting `b`
/// paints an unbroken chain from `a` to `b`.
pub proof fn lemma_seg_endpoints(a: (u32, u32), b: (u32, u32))
    requires
        seg_len(a, b) > 0,
    ensures
        seg_pixel(a, b, 0) == (a.0 as int, a.1 as int),
        seg_pixel(a, b, seg_len(a, b)) == (b.0 as int, b.1 as int),
{
    let dx = b.0 - a.0;
    let dy = b.1 - a.1;
    if abs_of(dx) > abs_of(dy) {
        let m = abs_of(dx);
        assert(2 * (a.1 * m) + m == a.1 * (2 * m) + m) by (nonlinear_arith);
        vstd::arithmetic::div_mod::lemma_fundamental_div_mod_converse(
            2 * (a.1 * m) + m,
            2 * m,
            a.1 as int,
            m,
        );
        assert(m * sign_of(dx) == dx) by (nonlinear_arith)
            requires
                m == abs_of(dx),
                abs_of(dx) == (if dx < 0 {
                    -dx
                } else {
                    dx
                }),
                sign_of(dx) == (if dx < 0 {
                    -1int
                } else if dx > 0 {
                    1int
                } else {
                    0int
                }),
                dx != 0,
        ;
        assert(a.1 * m + m * dy == (a.1 + dy) * m) by (nonlinear_arith);
        assert(2 * ((a.1 + dy) * m) + m == (a.1 + dy) * (2 * m) + m) by (nonlinear_arith);
        vstd::arithmetic::div_mod::lemma_fundamental_div_mod_converse(
            2 * ((a.1 + dy) * m) + m,
            2 * m,
            a.1 + dy,
            m,
        );
    } else {
        let m = abs_of(dy);
        assert(2 * (a.0 * m) + m == a.0 * (2 * m) + m) by (nonlinear_arith);
        vstd::arithmetic::div_mod::lemma_fundamental_div_mod_converse(
            2 * (a.0 * m) + m,
            2 * m,
            a.0 as int,
            m,
        );
        assert(m * sign_of(dy) == dy) by (nonlinear_arith)
            requires
                m == abs_of(dy),
                abs_of(dy) == (if dy < 0 {
                    -dy
                } else {
                    dy
                }),
                sign_of(dy) == (if dy < 0 {
                    -1int
                } else if dy > 0 {
                    1int
                } else {
                    0int
                }),
                dy != 0,
        ;
        assert(a.0 * m + m * dx == (a.0 + dx) * m) by (nonlinear_arith);
        assert(2 * ((a.0 + dx) * m) + m == (a.0 + dx) * (2 * m) + m) by (nonlinear_arith);
        vstd::arithmetic::div_mod::lemma_fundamental_div_mod_converse(
            2 * ((a.0 + dx) * m) + m,
            2 * m,
            a.0 + dx,
            m,
        );
    }
}

/// Consecutive pixels of the digital line differ by at most one step in
/// each axis: the traced chain is connected.
pub proof fn lemma_seg_connected(a: (u32, u32), b: (u32, u32), i: int)
    requires
        0 <= i,
        i + 1 <= seg_len(a, b),
    ensures
        abs_of(seg_pixel(a, b, i + 1).0 - seg_pixel(a, b, i).0) <= 1,
        abs_of(seg_pixel(a, b, i + 1).1 - seg_pixel(a, b, i).1) <= 1,
{
    let dx = b.0 - a.0;
    let dy = b.1 - a.1;
    if abs_of(dx) > abs_of(dy) {
        let m = abs_of(dx);
        let p = a.1 * m + i * dy;
        let q = a.1 * m + (i + 1) * dy;
        assert(q == p + dy) by (nonlinear_arith)
            requires
                p == a.1 * m + i * dy,
                q == a.1 * m + (i + 1) * dy,
        ;
        assert((i + 1) * sign_of(dx) - i * sign_of(dx) == sign_of(dx)) by (nonlinear_arith);
        lemma_div_shift_one(2 * p + m, 2 * m);
        vstd::arithmetic::div_mod::lemma_div_is_ordered(2 * p + m - 2 * m, 2 * q + m, 2 * m);
        vstd::arithmetic::div_mod::lemma_div_is_ordered(2 * q + m, 2 * p + m + 2 * m, 2 * m);
    } else {
        let m = abs_of(dy);
        let p = a.0 * m + i * dx;
        let q = a.0 * m + (i + 1) * dx;
        assert(q == p + dx) by (nonlinear_arith)
            requires
                p == a.0 * m + i * dx,
                q == a.0 * m + (i + 1) * dx,
        ;
        assert((i + 1) * sign_of(dy) - i * sign_of(dy) == sign_of(dy)) by (nonlinear_arith);
        lemma_div_shift_one(2 * p + m, 2 * m);
        vstd::arithmetic::div_mod::lemma_div_is_ordered(2 * p + m - 2 * m, 2 * q + m, 2 * m);
        vstd::arithmetic::div_mod::lemma_div_is_ordered(2 * q + m, 2 * p + m + 2 * m, 2 * m);
    }
}

/// Tracing a line never unsets a pixel, and leaves the raster size alone.
pub proof fn lemma_drawn_preserves(
    pix: Seq<bool>,
    a: (u32, u32),
    b: (u32, u32),
    w: int,
    k: int,
    t: int,
)
    requires
        0 <= t < pix.len(),
        pix[t],
    ensures
        drawn(pix, a, b, w, k).len() == pix.len(),
        drawn(pix, a, b, w, k)[t],
    decreases k,
{
    if k > 0 {
        lemma_drawn_preserves(pix, a, b, w, k - 1, t);
    }
}

/// The raster size is unchanged by tracing.
pub proof fn lemma_drawn_len(pix: Seq<bool>, a: (u32, u32), b: (u32, u32), w: int, k: int)
    ensures
        drawn(pix, a, b, w, k).len() == pix.len(),
    decreases k,
{
    if k > 0 {
        lemma_drawn_len(pix, a, b, w, k - 1);
    }
}

/// After tracing the first `k` pixels of the digital line on a raster of
/// `w * h` pixels that contains both endpoints, every one of those `k`
/// pixels reads as set.
pub proof fn lemma_drawn_covers(
    pix: Seq<bool>,
    a: (u32, u32),
    b: (u32, u32),
    w: int,
    h: int,
    k: int,
    i: int,
)
    requires
        pix.len() == w * h,
        a.0 < w && b.0 < w,
        a.1 < h && b.1 < h,
        0 <= i < k,
        k <= seg_len(a, b),
    ensures
        drawn(pix, a, b, w, k).len() == pix.len(),
        ({
            let q = seg_pixel(a, b, i);
            drawn(pix, a, b, w, k)[q.1 * w + q.0]
        }),
    decreases k,
{
    lemma_drawn_len(pix, a, b, w, k);
    lemma_seg_pixel_in_box(a, b, i);
    let q = seg_pixel(a, b, i);
    assert(0 <= q.1 * w + q.0 < w * h) by (nonlinear_arith)
        requires
            0 <= q.0 < w,
            0 <= q.1 < h,
    ;
    if i == k - 1 {
        lemma_drawn_len(pix, a, b, w, k - 1);
    } else {
        lemma_drawn_covers(pix, a, b, w, h, k - 1, i);
        lemma_seg_pixel_in_box(a, b, k - 1);
        let r = seg_pixel(a, b, k - 1);
        assert(0 <= r.1 * w + r.0) by (nonlinear_arith)
            requires
                0 <= r.0,
                0 <= r.1,
                w >= 1,
        ;
    }
}

/// Processing a touching sample with an open stroke paints a connected
/// chain of pixels from the previous cursor to the new pixel: the chain
/// starts at the cursor (`lemma_seg_endpoints`), each link moves by at most
/// one pixel per axis (`lemma_seg_connected`), every link is set by the
/// stroke, and so is the new pixel itself. Without an open stroke only the
/// new pixel is painted.
pub proof fn lemma_stroke_covers(
    pix: Seq<bool>,
    last: Option<(u32, u32)>,
    p: (u32, u32),
    w: int,
    h: int,
    i: int,
)
    requires
        pix.len() == w * h,
        p.0 < w && p.1 < h,
        match last {
            Some(l) => l.0 < w && l.1 < h,
            None => true,
        },
    ensures
        stroke(pix, last, p, w).len() == pix.len(),
        stroke(pix, last, p, w)[p.1 * w + p.0],
        (match last {
            Some(l) => 0 <= i < seg_len(l, p) ==> ({
                let q = seg_pixel(l, p, i);
                stroke(pix, last, p, w)[q.1 * w + q.0]
            }),
            None => stroke(pix, last, p, w) == set_pixel(pix, w, (p.0 as int, p.1 as int)),
        }),
{
    let base = set_pixel(pix, w, (p.0 as int, p.1 as int));
    assert(0 <= p.1 * w + p.0 < w * h) by (nonlinear_arith)
        requires
            0 <= p.0 < w,
            0 <= p.1 < h,
    ;
    match last {
        None => {},
        Some(l) => {
            let k = seg_len(l, p);
            lemma_drawn_len(base, l, p, w, k);
            lemma_drawn_preserves(base, l, p, w, k, p.1 * w + p.0);
            if 0 <= i < k {
                lemma_drawn_covers(base, l, p, w, h, k, i);
            }
        },
    }
}

/// A freshly constructed canvas reads unset at every in-bounds pixel.
pub proof fn lemma_fresh_canvas_unset(w: u32, h: u32, x: u32, y: u32)
    requires
        x < w,
        y < h,
    ensures
        Seq::new((w * h) as nat, |i: int| false)[y * w + x] == false,
{
    assert(0 <= (y as int) * (w as int) + (x as int) < (w as int) * (h as int)) by (nonlinear_arith)
        requires
            x < w,
            y < h,
    ;
}

/// Setting a pixel and then unsetting it leaves the pixel unset and every
/// other pixel untouched; on a raster whose pixel was unset to begin with,
/// the whole raster is restored.
pub proof fn lemma_set_then_unset(pix: Seq<bool>, t: int)
    requires
        0 <= t < pix.len(),
    ensures
        pix.update(t, true).update(t, false) =~= pix.update(t, false),
        !pix[t] ==> pix.update(t, true).update(t, false) =~= pix,
{
}

/// Multiplying values within bounds stays within the product of the bounds.
pub proof fn lemma_mul_le(a: int, b: int, ca: int, cb: int)
    by (nonlinear_arith)
    requires
        0 <= a <= ca,
        0 <= b <= cb,
    ensures
        0 <= a * b <= ca * cb,
{
}

/// The smaller of two values.
pub open spec fn min_of(a: int, b: int) -> int {
    if a <= b {
        a
    } else {
        b
    }
}

/// The larger of two values.
pub open spec fn max_of(a: int, b: int) -> int {
    if a <= b {
        b
    } else {
        a
    }
}

/// The RGB bytes of a monochrome raster preview: row-major, three bytes
/// per pixel, pure black for a set pixel and pure white for an unset
/// one.
pub open spec fn rgb_of(pix: Seq<bool>) -> Seq<u8> {
    Seq::new(
        pix.len() * 3,
        |i: int|
            if pix[i / 3] {
                0u8
            } else {
                255u8
            },
    )
}

/// The reasons why a canvas cannot be constructed.
#[derive(Debug, Copy, Clone, PartialEq, Eq, Structural)]
pub enum CanvasError {
    /// The requested width was zero.
    ZeroWidth,
    /// The requested height was zero.
    ZeroHeight,
}

/// A structure for generating pictures from events.
///
/// The canvas owns a bit-packed monochrome buffer in row-major bit order:
/// the pixel at `(x, y)` lives at bit index `y * width + x`. Consecutive
/// touching events are joined by a traced line segment; a non-touching
/// event breaks the stroke.
#[derive(Debug, Clone, PartialEq, Eq)]
pub struct EventCanvas {
    /// A monochrome pixel data buffer.
    buffer: Vec<u8>,
    /// The width of the canvas, in pixels.
    width: u32,
    /// The height of the canvas, in pixels.
    height: u32,
    /// The last point the pen stroke.
    last: Option<(u32, u32)>,
}

impl EventCanvas {
    /// Well-formedness: positive dimensions, a buffer of exactly the packed
    /// size, and a stroke cursor that stays in bounds.
    pub closed spec fn wf(self) -> bool {
        &&& self.width >= 1
        &&& self.height >= 1
        &&& self.buffer@.len() == bytes_for((self.width * self.height) as nat)
        &&& match self.last {
            Some(p) => p.0 < self.width && p.1 < self.height,
            None => true,
        }
    }

    /// The width of the canvas, in pixels.
    pub closed spec fn spec_width(self) -> u32 {
        self.width
    }

    /// The height of the canvas, in pixels.
    pub closed spec fn spec_height(self) -> u32 {
        self.height
    }

    /// The coordinates of the last touching sample, if the current stroke
    /// is still open.
    pub closed spec fn cursor(self) -> Option<(u32, u32)> {
        self.last
    }

    /// Whether the bit at pixel index `i` is set in the packed buffer.
    spec fn bit_at(self, i: int) -> bool {
        (self.buffer@[i / 8] >> ((i % 8) as u8)) & 1u8 == 1u8
    }

    /// The pixels of the canvas as one row-major sequence: entry
    /// `y * width + x` is the pixel at `(x, y)`.
    pub closed spec fn pixels(self) -> Seq<bool> {
        Seq::new((self.width * self.height) as nat, |i: int| self.bit_at(i))
    }

    /// Creates a new, blank canvas with the given dimensions.
    ///
    /// Construction is refused, rather than coerced, when either dimension
    /// is zero.
    pub fn new(width: u32, height: u32) -> (r: Result<EventCanvas, CanvasError>)
        requires
            bytes_for((width * height) as nat) <= usize::MAX,
        ensures
            match r {
                Ok(c) => {
                    &&& width >= 1 && height >= 1
                    &&& c.wf()
                    &&& c.spec_width() == width
                    &&& c.spec_height() == height
                    &&& c.cursor() is None
                    &&& c.pixels() =~= Seq::new((width * height) as nat, |i: int| false)
                },
                Err(CanvasError::ZeroWidth) => width == 0,
                Err(CanvasError::ZeroHeight) => width >= 1 && height == 0,
            },
    {
        if width == 0 {
            return Err(CanvasError::ZeroWidth);
        }
        if height == 0 {
            return Err(CanvasError::ZeroHeight);
        }
        proof {
            assert((width as int) * (height as int) <= u64::MAX as int) by (nonlinear_arith)
                requires
                    width <= u32::MAX,
                    height <= u32::MAX,
            ;
        }
        let bits: u64 = width as u64 * height as u64;
        let bytes: u64 = bits / 8 + if bits % 8 == 0 {
            0
        } else {
            1
        };
        assert(bytes == bytes_for((width * height) as nat));
        let size: usize = bytes as usize;
        let mut buffer: Vec<u8> = Vec::new();
        while buffer.len() < size
            invariant
                buffer@.len() <= size,
                forall|i: int| 0 <= i < buffer@.len() ==> buffer@[i] == 0u8,
            decreases size - buffer@.len(),
        {
            buffer.push(0u8);
        }
        let canvas = EventCanvas { buffer, width, height, last: None };
        proof {
            assert forall|i: int| 0 <= i < (width * height) as nat implies !canvas.bit_at(
                i,
            ) by {
                assert(0 <= i / 8 < canvas.buffer@.len());
                assert(canvas.buffer@[i / 8] == 0u8);
                assert(forall|j: u8| j < 8 ==> (0u8 >> j) & 1u8 == 0u8) by (bit_vector);
                assert(0 <= i % 8 < 8);
            }
        }
        Ok(canvas)
    }

    /// The width of this canvas, in pixels.
    pub fn width(&self) -> (r: u32)
        ensures
            r == self.spec_width(),
    {
        self.width
    }

    /// The height of this canvas, in pixels.
    pub fn height(&self) -> (r: u32)
        ensures
            r == self.spec_height(),
    {
        self.height
    }

    /// Gets the index of the byte and offset of the bit corresponding to
    /// the pixel at the given coordinates.
    fn index_offset(&self, x: u32, y: u32) -> (r: Option<(usize, u8)>)
        requires
            self.wf(),
        ensures
            r is Some <==> x < self.spec_width() && y < self.spec_height(),
            r matches Some(p) ==> {
                &&& p.0 == (y * self.spec_width() + x) / 8
                &&& p.1 == (y * self.spec_width() + x) % 8
                &&& p.0 < self.buffer@.len()
            },
    {
        if x >= self.width || y >= self.height {
            return None;
        }
        let blen = self.buffer.len();
        proof {
            assert((self.width as int) * (self.height as int) <= u64::MAX as int) by (
            nonlinear_arith)
                requires
                    self.width <= u32::MAX,
                    self.height <= u32::MAX,
            ;
            assert((y as int) * (self.width as int) + (x as int) < (self.width as int) * (
            self.height as int)) by (nonlinear_arith)
                requires
                    x < self.width,
                    y < self.height,
            ;
        }
        let pixel: u64 = y as u64 * self.width as u64 + x as u64;
        let index: u64 = pixel / 8;
        let offset: u8 = (pixel % 8) as u8;
        proof {
            let b: int = (self.width as int) * (self.height as int);
            assert(index < bytes_for(b as nat));
            assert(bytes_for(b as nat) == blen as int);
        }
        Some((index as usize, offset))
    }

    /// Gets whether the pixel at the given position is set.
    ///
    /// Out-of-range coordinates read as no value.
    pub fn get(&self, x: u32, y: u32) -> (r: Option<bool>)
        requires
            self.wf(),
        ensures
            r == if x < self.spec_width() && y < self.spec_height() {
                Some(self.pixels()[y * self.spec_width() + x])
            } else {
                None::<bool>
            },
    {
        proof {
            if x < self.width && y < self.height {
                assert((y as int) * (self.width as int) + (x as int) < (self.width as int) * (
                self.height as int)) by (nonlinear_arith)
                    requires
                        x < self.width,
                        y < self.height,
                ;
            }
        }
        match self.index_offset(x, y) {
            Some((index, offset)) => {
                let byte = self.buffer[index];
                proof {
                    let i = y * self.spec_width() + x;
                    assert((byte >> offset) & 1u8 == 1u8 <==> byte & (1u8 << offset) != 0) by (
                    bit_vector)
                        requires
                            offset < 8,
                    ;
                    assert(self.pixels()[i] == self.bit_at(i));
                }
                Some(byte & (1u8 << offset) != 0)
            },
            None => None,
        }
    }

    /// Defines whether the pixel at the given position is set.
    ///
    /// Writing out of range is a caller contract violation, excluded by
    /// precondition.
    pub fn set(&mut self, x: u32, y: u32, val: bool)
        requires
            old(self).wf(),
            x < old(self).spec_width(),
            y < old(self).spec_height(),
        ensures
            final(self).wf(),
            final(self).spec_width() == old(self).spec_width(),
            final(self).spec_height() == old(self).spec_height(),
            final(self).cursor() == old(self).cursor(),
            final(self).pixels() =~= old(self).pixels().update(
                y * old(self).spec_width() + x,
                val,
            ),
    {
        let ghost t: int = y * self.spec_width() + x;
        proof {
            assert((y as int) * (self.width as int) + (x as int) < (self.width as int) * (
            self.height as int)) by (nonlinear_arith)
                requires
                    x < self.width,
                    y < self.height,
            ;
        }
        if let Some((index, offset)) = self.index_offset(x, y) {
            let byte = self.buffer[index];
            let updated = if val {
                byte | (1u8 << offset)
            } else {
                byte & !(1u8 << offset)
            };
            self.buffer[index] = updated;
            proof {
                self.lemma_bit_update(*old(self), index as int, offset, byte, updated, val, t);
            }
        }
    }

    /// After replacing byte `index`, where only bit `offset` was changed to
    /// `val`, the pixel sequence is the old one updated at `t`.
    proof fn lemma_bit_update(
        self,
        prev: EventCanvas,
        index: int,
        offset: u8,
        byte: u8,
        updated: u8,
        val: bool,
        t: int,
    )
        requires
            prev.wf(),
            self.width == prev.width,
            self.height == prev.height,
            self.last == prev.last,
            0 <= t < prev.width * prev.height,
            index == t / 8,
            offset == t % 8,
            byte == prev.buffer@[index],
            updated == if val {
                byte | (1u8 << offset)
            } else {
                byte & !(1u8 << offset)
            },
            self.buffer@ == prev.buffer@.update(index, updated),
        ensures
            self.wf(),
            self.pixels() =~= prev.pixels().update(t, val),
    {
        assert forall|i: int| 0 <= i < prev.width * prev.height implies self.bit_at(i) == (if i
            == t {
            val
        } else {
            prev.bit_at(i)
        }) by {
            if i / 8 == index {
                let j = (i % 8) as u8;
                let o = offset;
                let b = byte;
                if val {
                    assert(j < 8 && o < 8 ==> ((b | (1u8 << o)) >> j) & 1u8 == (if j == o {
                        1u8
                    } else {
                        (b >> j) & 1u8
                    })) by (bit_vector);
                } else {
                    assert(j < 8 && o < 8 ==> ((b & !(1u8 << o)) >> j) & 1u8 == (if j == o {
                        0u8
                    } else {
                        (b >> j) & 1u8
                    })) by (bit_vector);
                }
                assert(i == 8 * (i / 8) + i % 8);
                assert(t == 8 * (t / 8) + t % 8);
            }
        }
    }

    /// Process the given event, altering the canvas if needed.
    ///
    /// A touching event sets the pixel its coordinates map to; if a stroke
    /// is already open, the digital line from the cursor to that pixel is
    /// traced as well, and the cursor moves to the new pixel. A
    /// non-touching event only closes the stroke.
    pub fn process(&mut self, event: Event)
        requires
            old(self).wf(),
        ensures
            final(self).wf(),
            final(self).spec_width() == old(self).spec_width(),
            final(self).spec_height() == old(self).spec_height(),
            !event.spec_touching() ==> final(self).pixels() == old(self).pixels()
                && final(self).cursor() is None,
            event.spec_touching() ==> {
                let px = pixel_of(event.spec_x(), old(self).spec_width());
                let py = pixel_of(event.spec_y(), old(self).spec_height());
                &&& final(self).cursor() == Some((px as u32, py as u32))
                &&& final(self).pixels() == stroke(
                    old(self).pixels(),
                    old(self).cursor(),
                    (px as u32, py as u32),
                    old(self).spec_width() as int,
                )
            },
    {
        if !event.touching() {
            self.last = None;
            return ;
        }
        let w = self.width;
        let h = self.height;
        let ex = event.x();
        let ey = event.y();
        proof {
            lemma_pixel_of_bounds(ex, w);
            lemma_pixel_of_bounds(ey, h);
            lemma_mul_le(ex as int, (w - 1) as int, UNIT as int, u32::MAX as int);
            lemma_mul_le(ey as int, (h - 1) as int, UNIT as int, u32::MAX as int);
        }
        let px: u32 = (((ex as u64) * ((w - 1) as u64) + (UNIT as u64) / 2) / (UNIT as u64)) as u32;
        let py: u32 = (((ey as u64) * ((h - 1) as u64) + (UNIT as u64) / 2) / (UNIT as u64)) as u32;
        assert(px == pixel_of(ex, w) && py == pixel_of(ey, h));
        let previous = self.last;
        proof {
            assert(0 <= (py as int) * (w as int) + (px as int) < (w as int) * (h as int)) by (
            nonlinear_arith)
                requires
                    0 <= px < w,
                    0 <= py < h,
            ;
        }
        self.set(px, py, true);
        let ghost base = old(self).pixels().update((py as int) * (w as int) + px as int, true);
        assert(base == set_pixel(old(self).pixels(), w as int, (px as int, py as int)));
        if let Some((last_x, last_y)) = previous {
            let dx: i64 = px as i64 - last_x as i64;
            let dy: i64 = py as i64 - last_y as i64;
            let ghost l = (last_x, last_y);
            let ghost p = (px, py);
            if dx != 0 || dy != 0 {
                let adx: i64 = if dx < 0 {
                    -dx
                } else {
                    dx
                };
                let ady: i64 = if dy < 0 {
                    -dy
                } else {
                    dy
                };
                if adx > ady {
                    let m: i64 = adx;
                    assert(m == seg_len(l, p));
                    let mut ax: i64 = 0;
                    while ax < m
                        invariant
                            0 <= ax <= m,
                            self.wf(),
                            self.width == old(self).spec_width(),
                            self.height == old(self).spec_height(),
                            self.cursor() == old(self).cursor(),
                            w == self.width,
                            h == self.height,
                            px < w,
                            py < h,
                            last_x < w,
                            last_y < h,
                            l == (last_x, last_y),
                            p == (px, py),
                            dx == px - last_x,
                            dy == py - last_y,
                            m == abs_of(dx as int),
                            abs_of(dx as int) > abs_of(dy as int),
                            m == seg_len(l, p),
                            self.pixels() == drawn(base, l, p, w as int, ax as int),
                        decreases m - ax,
                    {
                        proof {
                            lemma_seg_pixel_in_box(l, p, ax as int);
                            lemma_drawn_len(base, l, p, w as int, ax as int);
                            lemma_mul_le(last_y as int, m - ax, u32::MAX as int, u32::MAX as int);
                            lemma_mul_le(py as int, ax as int, u32::MAX as int, u32::MAX as int);
                            assert((last_y as int) * ((m - ax) as int) + (py as int) * (ax as int)
                                == (last_y as int) * (m as int) + (ax as int) * ((py as int) - (
                            last_y as int))) by (nonlinear_arith);
                        }
                        let cx: i64 = if dx < 0 {
                            last_x as i64 - ax
                        } else {
                            last_x as i64 + ax
                        };
                        let num: u128 = 2 * ((last_y as u128) * ((m - ax) as u128) + (py as u128)
                            * (ax as u128)) + (m as u128);
                        let cy: u128 = num / (2 * (m as u128));
                        assert(cx as int == last_x + (ax as int) * sign_of(dx as int));
                        assert(cy as int == rnd_div(
                            (last_y as int) * (m as int) + (ax as int) * (dy as int),
                            m as int,
                        ));
                        assert((cx as int, cy as int) == seg_pixel(l, p, ax as int));
                        proof {
                            assert(0 <= (cy as int) * (w as int) + (cx as int) < (w as int) * (
                            h as int)) by (nonlinear_arith)
                                requires
                                    0 <= cx < w,
                                    0 <= cy < h,
                            ;
                        }
                        self.set(cx as u32, cy as u32, true);
                        ax = ax + 1;
                    }
                } else {
                    let m: i64 = ady;
                    assert(m == seg_len(l, p));
                    let mut ay: i64 = 0;
                    while ay < m
                        invariant
                            0 <= ay <= m,
                            self.wf(),
                            self.width == old(self).spec_width(),
                            self.height == old(self).spec_height(),
                            self.cursor() == old(self).cursor(),
                            w == self.width,
                            h == self.height,
                            px < w,
                            py < h,
                            last_x < w,
                            last_y < h,
                            l == (last_x, last_y),
                            p == (px, py),
                            dx == px - last_x,
                            dy == py - last_y,
                            m == abs_of(dy as int),
                            abs_of(dx as int) <= abs_of(dy as int),
                            !(dx == 0 && dy == 0),
                            m == seg_len(l, p),
                            self.pixels() == drawn(base, l, p, w as int, ay as int),
                        decreases m - ay,
                    {
                        proof {
                            lemma_seg_pixel_in_box(l, p, ay as int);
                            lemma_drawn_len(base, l, p, w as int, ay as int);
                            lemma_mul_le(last_x as int, m - ay, u32::MAX as int, u32::MAX as int);
                            lemma_mul_le(px as int, ay as int, u32::MAX as int, u32::MAX as int);
                            assert((last_x as int) * ((m - ay) as int) + (px as int) * (ay as int)
                                == (last_x as int) * (m as int) + (ay as int) * ((px as int) - (
                            last_x as int))) by (nonlinear_arith);
                        }
                        let cy: i64 = if dy < 0 {
                            last_y as i64 - ay
                        } else {
                            last_y as i64 + ay
                        };
                        let num: u128 = 2 * ((last_x as u128) * ((m - ay) as u128) + (px as u128)
                            * (ay as u128)) + (m as u128);
                        let cx: u128 = num / (2 * (m as u128));
                        assert(cy as int == last_y + (ay as int) * sign_of(dy as int));
                        assert(cx as int == rnd_div(
                            (last_x as int) * (m as int) + (ay as int) * (dx as int),
                            m as int,
                        ));
                        assert((cx as int, cy as int) == seg_pixel(l, p, ay as int));
                        proof {
                            assert(0 <= (cy as int) * (w as int) + (cx as int) < (w as int) * (
                            h as int)) by (nonlinear_arith)
                                requires
                                    0 <= cx < w,
                                    0 <= cy < h,
                            ;
                        }
                        self.set(cx as u32, cy as u32, true);
                        ay = ay + 1;
                    }
                }
            }
        }
        self.last = Some((px, py));
    }

    /// Copies the image data in this canvas into a memory blob encoded
    /// as a bitmap.
    ///
    /// The format the bitmap will be in is full color 24-bpp RGB, in
    /// which pixels marked as active will be painted black and pixels
    /// that are not will be painted white.
    pub fn to_bitmap(&self) -> (r: Vec<u8>)
        requires
            self.wf(),
            crate::bmp::bmp_fits(self.spec_width(), self.spec_height()),
        ensures
            r@ == crate::bmp::bmp_encoding(
                rgb_of(self.pixels()),
                self.spec_width(),
                self.spec_height(),
            ),
    {
        let w = self.width;
        let h = self.height;
        let mut rgb: Vec<u8> = Vec::new();
        let mut y: u32 = 0;
        while y < h
            invariant
                self.wf(),
                w == self.spec_width(),
                h == self.spec_height(),
                y <= h,
                rgb@ == rgb_of(self.pixels().take((y as int) * (w as int))),
            decreases h - y,
        {
            let mut x: u32 = 0;
            proof {
                lemma_mul_le(y as int, w as int, h as int, u32::MAX as int);
            }
            while x < w
                invariant
                    self.wf(),
                    w == self.spec_width(),
                    h == self.spec_height(),
                    y < h,
                    x <= w,
                    rgb@ == rgb_of(self.pixels().take((y as int) * (w as int) + (x as int))),
                decreases w - x,
            {
                proof {
                    assert(0 <= (y as int) * (w as int) + (x as int) < (w as int) * (h as int))
                        by (nonlinear_arith)
                        requires
                            0 <= x < w,
                            0 <= y < h,
                    ;
                }
                let bit = match self.get(x, y) {
                    Some(b) => b,
                    None => false,
                };
                let v: u8 = if bit {
                    0
                } else {
                    255
                };
                rgb.push(v);
                rgb.push(v);
                rgb.push(v);
                x = x + 1;
                assert(rgb@ =~= rgb_of(
                    self.pixels().take((y as int) * (w as int) + (x as int)),
                ));
            }
            y = y + 1;
            proof {
                assert((y as int) * (w as int) == ((y - 1) as int) * (w as int) + (w as int)) by (
                nonlinear_arith);
            }
        }
        proof {
            assert(self.pixels().take((h as int) * (w as int)) =~= self.pixels());
            assert(3 * (w as int) * (h as int) == ((w as int) * (h as int)) * 3) by (
            nonlinear_arith);
        }
        crate::bmp::encode_bmp(&rgb, w, h)
    }

    /// Clears this canvas back into an unset state.
    ///
    /// The stroke cursor is reset as well, so that a stroke begun after a
    /// clear never joins up with a pre-clear sample.
    pub fn clear(&mut self)
        requires
            old(self).wf(),
        ensures
            final(self).wf(),
            final(self).spec_width() == old(self).spec_width(),
            final(self).spec_height() == old(self).spec_height(),
            final(self).cursor() is None,
            final(self).pixels() =~= Seq::new(
                (old(self).spec_width() * old(self).spec_height()) as nat,
                |i: int| false,
            ),
    {
        let len = self.buffer.len();
        let mut i: usize = 0;
        while i < len
            invariant
                len == self.buffer@.len(),
                self.width == old(self).width,
                self.height == old(self).height,
                i <= len,
                forall|j: int| 0 <= j < i ==> self.buffer@[j] == 0u8,
            decreases len - i,
        {
            self.buffer[i] = 0u8;
            i = i + 1;
        }
        self.last = None;
        proof {
            assert forall|i: int| 0 <= i < self.width * self.height implies !self.bit_at(i) by {
                assert(0 <= i / 8 < self.buffer@.len());
                assert(self.buffer@[i / 8] == 0u8);
                assert(forall|j: u8| j < 8 ==> (0u8 >> j) & 1u8 == 0u8) by (bit_vector);
            }
        }
    }
}

} // verus!
