//! The viewport: a rectangle of the complex plane held as exact
//! rational coordinates, with aspect-ratio-correct zoom transforms.
//!
//! All four coordinates share one positive denominator, so a viewport
//! is always replaced as a whole — no torn rectangle can be observed.
//! The transforms below are exact integer arithmetic: the zoom laws
//! (fixed point at factor 1, round trip of a zoom and its inverse,
//! aspect-ratio invariance) hold with equality, not merely within a
//! floating-point tolerance.

use vstd::prelude::*;

verus! {

/// A rectangle `[x0n/den, x1n/den] x [y0n/den, y1n/den]` of the complex
/// plane.
#[derive(Clone, Copy, PartialEq, Eq, Structural, Debug)]
pub struct Bounds {
    pub x0n: i64,
    pub x1n: i64,
    pub y0n: i64,
    pub y1n: i64,
    pub den: i64,
}

/// The mathematical value of a viewport: the same rectangle with
/// unbounded integer coordinates.
pub struct QBounds {
    pub x0: int,
    pub x1: int,
    pub y0: int,
    pub y1: int,
    pub den: int,
}

impl Bounds {
    /// The rational rectangle this viewport stands for.
    pub open spec fn q(self) -> QBounds {
        QBounds {
            x0: self.x0n as int,
            x1: self.x1n as int,
            y0: self.y0n as int,
            y1: self.y1n as int,
            den: self.den as int,
        }
    }

    /// Well-formed: positive denominator and a non-empty rectangle.
    pub open spec fn wf(self) -> bool {
        q_wf(self.q())
    }

    /// The canonical symmetric start region `[-2, 2] x [-2, 2]`.
    pub fn new_default() -> (b: Bounds)
        ensures
            b == (Bounds { x0n: -2i64, x1n: 2i64, y0n: -2i64, y1n: 2i64, den: 1i64 }),
            b.wf(),
    {
        Bounds { x0n: -2, x1n: 2, y0n: -2, y1n: 2, den: 1 }
    }
}

pub open spec fn q_wf(q: QBounds) -> bool {
    q.den > 0 && q.x0 < q.x1 && q.y0 < q.y1
}

/// Two rectangles denote the same region (cross-multiplied equality of
/// all four rational coordinates).
pub open spec fn q_eq(a: QBounds, b: QBounds) -> bool {
    &&& a.x0 * b.den == b.x0 * a.den
    &&& a.x1 * b.den == b.x1 * a.den
    &&& a.y0 * b.den == b.y0 * a.den
    &&& a.y1 * b.den == b.y1 * a.den
}

/// The rectangle's aspect ratio matches the canvas: pixels are square.
pub open spec fn aspect_ok(q: QBounds, w: int, h: int) -> bool {
    (q.x1 - q.x0) * h == (q.y1 - q.y0) * w
}

/// Cursor-anchored zoom along one axis: the plane coordinate under the
/// cursor (at pixel `c` of `l`) stays fixed while the extent divides by
/// `zn / zd`. Returns numerators and denominator of the new interval.
pub open spec fn axis_zoom(n0: int, n1: int, d: int, c: int, l: int, zn: int, zd: int) -> (
    int,
    int,
    int,
) {
    let r = n1 - n0;
    let a = n0 * l + c * r;
    (a * zn - c * r * zd, a * zn + (l - c) * r * zd, d * l * zn)
}

/// The full cursor-anchored zoom-and-correct transform. Both axes zoom
/// about the cursor; then, if the canvas is wider than tall, the
/// x-extent is stretched to the y-extent times the canvas aspect ratio
/// about the rectangle's x-center, and otherwise the y-extent is
/// stretched symmetrically — so the result is aspect-correct whatever
/// shape the input had.
pub open spec fn scale_spec(
    q: QBounds,
    w: int,
    h: int,
    cx: int,
    cy: int,
    zn: int,
    zd: int,
) -> QBounds {
    let x = axis_zoom(q.x0, q.x1, q.den, cx, w, zn, zd);
    let y = axis_zoom(q.y0, q.y1, q.den, cy, h, zn, zd);
    let dd = 2 * q.den * w * h * zn;
    if w > h {
        QBounds {
            x0: (x.0 + x.1) * h - (q.y1 - q.y0) * zd * w * w,
            x1: (x.0 + x.1) * h + (q.y1 - q.y0) * zd * w * w,
            y0: 2 * w * y.0,
            y1: 2 * w * y.1,
            den: dd,
        }
    } else {
        QBounds {
            x0: 2 * h * x.0,
            x1: 2 * h * x.1,
            y0: (y.0 + y.1) * w - (q.x1 - q.x0) * zd * h * h,
            y1: (y.0 + y.1) * w + (q.x1 - q.x0) * zd * h * h,
            den: dd,
        }
    }
}

/// The two numerators an axis zoom returns differ by exactly
/// `l * (n1 - n0) * zd`: the zoomed extent over the common denominator.
proof fn lemma_axis_extent(n0: int, n1: int, d: int, c: int, l: int, zn: int, zd: int)
    ensures
        axis_zoom(n0, n1, d, c, l, zn, zd).1 - axis_zoom(n0, n1, d, c, l, zn, zd).0 == l * ((n1
            - n0) * zd),
{
    let r = n1 - n0;
    let a = n0 * l + c * r;
    assert((a * zn + (l - c) * r * zd) - (a * zn - c * r * zd) == l * (r * zd))
        by (nonlinear_arith);
}

proof fn lemma_prod_pos(a: int, b: int)
    requires
        a > 0,
        b > 0,
    ensures
        a * b > 0,
{
    assert(a * b > 0) by (nonlinear_arith)
        requires a > 0, b > 0;
}

/// The zoom transform always yields a well-formed, aspect-correct
/// rectangle: its width-to-height ratio equals the canvas's exactly.
pub proof fn lemma_scale_aspect(q: QBounds, w: int, h: int, cx: int, cy: int, zn: int, zd: int)
    requires
        q_wf(q),
        w >= 1,
        h >= 1,
        zn >= 1,
        zd >= 1,
    ensures
        q_wf(scale_spec(q, w, h, cx, cy, zn, zd)),
        aspect_ok(scale_spec(q, w, h, cx, cy, zn, zd), w, h),
{
    let xr = q.x1 - q.x0;
    let yr = q.y1 - q.y0;
    let s = scale_spec(q, w, h, cx, cy, zn, zd);
    lemma_axis_extent(q.x0, q.x1, q.den, cx, w, zn, zd);
    lemma_axis_extent(q.y0, q.y1, q.den, cy, h, zn, zd);
    lemma_prod_pos(xr, zd);
    lemma_prod_pos(yr, zd);
    lemma_prod_pos(q.den, w);
    lemma_prod_pos(q.den * w, h);
    lemma_prod_pos(q.den * w * h, zn);
    assert(s.den == 2 * (q.den * w * h * zn)) by (nonlinear_arith)
        requires s.den == 2 * q.den * w * h * zn;
    if w > h {
        let x = axis_zoom(q.x0, q.x1, q.den, cx, w, zn, zd);
        let y = axis_zoom(q.y0, q.y1, q.den, cy, h, zn, zd);
        assert(s.x1 - s.x0 == 2 * (yr * zd * w * w));
        assert(yr * zd * w * w > 0 && (2 * (yr * zd * w * w)) * h == (2 * (w * (h * (yr * zd))))
            * w) by (nonlinear_arith)
            requires yr > 0, zd >= 1, w >= 1, h >= 1;
        assert(s.y1 - s.y0 == 2 * w * y.1 - 2 * w * y.0);
        assert(2 * w * y.1 - 2 * w * y.0 == 2 * (w * (y.1 - y.0))) by (nonlinear_arith);
        assert(y.1 - y.0 == h * (yr * zd));
        assert(2 * (w * (h * (yr * zd))) > 0) by (nonlinear_arith)
            requires yr > 0, zd >= 1, w >= 1, h >= 1;
    } else {
        let x = axis_zoom(q.x0, q.x1, q.den, cx, w, zn, zd);
        let y = axis_zoom(q.y0, q.y1, q.den, cy, h, zn, zd);
        assert(s.y1 - s.y0 == 2 * (xr * zd * h * h));
        assert(xr * zd * h * h > 0 && (2 * (h * (w * (xr * zd)))) * h == (2 * (xr * zd * h * h))
            * w) by (nonlinear_arith)
            requires xr > 0, zd >= 1, w >= 1, h >= 1;
        assert(s.x1 - s.x0 == 2 * h * x.1 - 2 * h * x.0);
        assert(2 * h * x.1 - 2 * h * x.0 == 2 * (h * (x.1 - x.0))) by (nonlinear_arith);
        assert(x.1 - x.0 == w * (xr * zd));
        assert(2 * (h * (w * (xr * zd))) > 0) by (nonlinear_arith)
            requires xr > 0, zd >= 1, w >= 1, h >= 1;
    }
}

pub(crate) proof fn lemma_abs_bound(a: int, b: int, ba: int, bb: int)
    requires
        -ba <= a <= ba,
        -bb <= b <= bb,
        0 <= ba,
        0 <= bb,
    ensures
        -(ba * bb) <= a * b <= ba * bb,
{
    assert(-(ba * bb) <= a * b <= ba * bb) by (nonlinear_arith)
        requires -ba <= a <= ba, -bb <= b <= bb, 0 <= ba, 0 <= bb;
}

/// Cursor-anchored zoom with aspect correction: the complex-plane point
/// under the cursor keeps its screen position while the viewport's
/// extent divides by `zn / zd`; the rectangle is then stretched so that
/// its aspect ratio equals the canvas's. All arithmetic is exact; the
/// size preconditions are what keeps every intermediate inside 128-bit
/// and every result coordinate inside 64-bit integers.
pub fn scale_about_point(b: &Bounds, w: u32, h: u32, cx: u32, cy: u32, zn: u32, zd: u32) -> (r:
    Bounds)
    requires
        b.wf(),
        -0x200_0000 <= b.x0n <= 0x200_0000,
        -0x200_0000 <= b.x1n <= 0x200_0000,
        -0x200_0000 <= b.y0n <= 0x200_0000,
        -0x200_0000 <= b.y1n <= 0x200_0000,
        1 <= b.den <= 0x2000_0000,
        2 <= w <= 4096,
        2 <= h <= 4096,
        cx <= w,
        cy <= h,
        1 <= zn <= 256,
        1 <= zd <= 256,
    ensures
        r.q() == scale_spec(
            b.q(), w as int, h as int, cx as int, cy as int, zn as int, zd as int),
        r.wf(),
        aspect_ok(r.q(), w as int, h as int),
{
    let x0: i128 = b.x0n as i128;
    let x1: i128 = b.x1n as i128;
    let y0: i128 = b.y0n as i128;
    let y1: i128 = b.y1n as i128;
    let d: i128 = b.den as i128;
    let wi: i128 = w as i128;
    let hi: i128 = h as i128;
    let cxi: i128 = cx as i128;
    let cyi: i128 = cy as i128;
    let zni: i128 = zn as i128;
    let zdi: i128 = zd as i128;
    let xr: i128 = x1 - x0;
    let yr: i128 = y1 - y0;
    proof {
        lemma_abs_bound(x0 as int, wi as int, 0x200_0000, 4096);
        lemma_abs_bound(cxi as int, xr as int, 4096, 0x400_0000);
        lemma_abs_bound(y0 as int, hi as int, 0x200_0000, 4096);
        lemma_abs_bound(cyi as int, yr as int, 4096, 0x400_0000);
        lemma_abs_bound((wi - cxi) as int, xr as int, 4096, 0x400_0000);
        lemma_abs_bound((hi - cyi) as int, yr as int, 4096, 0x400_0000);
    }
    let ax: i128 = x0 * wi + cxi * xr;
    let ay: i128 = y0 * hi + cyi * yr;
    let cxr: i128 = cxi * xr;
    let wxr: i128 = (wi - cxi) * xr;
    let cyr: i128 = cyi * yr;
    let hyr: i128 = (hi - cyi) * yr;
    proof {
        lemma_abs_bound(ax as int, zni as int, 0x80_0000_0000, 256);
        lemma_abs_bound(ay as int, zni as int, 0x80_0000_0000, 256);
        lemma_abs_bound(cxr as int, zdi as int, 0x40_0000_0000, 256);
        lemma_abs_bound(wxr as int, zdi as int, 0x40_0000_0000, 256);
        lemma_abs_bound(cyr as int, zdi as int, 0x40_0000_0000, 256);
        lemma_abs_bound(hyr as int, zdi as int, 0x40_0000_0000, 256);
    }
    let nx0: i128 = ax * zni - cxr * zdi;
    let nx1: i128 = ax * zni + wxr * zdi;
    let ny0: i128 = ay * zni - cyr * zdi;
    let ny1: i128 = ay * zni + hyr * zdi;
    proof {
        lemma_abs_bound((2 * d) as int, wi as int, 0x4000_0000, 4096);
        lemma_abs_bound((2 * d * wi) as int, hi as int, 0x400_0000_0000, 4096);
        lemma_abs_bound((2 * d * wi * hi) as int, zni as int, 0x40_0000_0000_0000, 256);
    }
    let dd: i128 = 2 * d * wi * hi * zni;
    let rx0: i128;
    let rx1: i128;
    let ry0: i128;
    let ry1: i128;
    if w > h {
        let sx: i128 = nx0 + nx1;
        proof {
            lemma_abs_bound(sx as int, hi as int, 0x4_0000_0000_0000, 4096);
            lemma_abs_bound(yr as int, zdi as int, 0x400_0000, 256);
            lemma_abs_bound((yr * zdi) as int, wi as int, 0x4_0000_0000, 4096);
            lemma_abs_bound((yr * zdi * wi) as int, wi as int, 0x4000_0000_0000, 4096);
            lemma_abs_bound((2 * wi) as int, ny0 as int, 8192, 0x2_0000_0000_0000);
            lemma_abs_bound((2 * wi) as int, ny1 as int, 8192, 0x2_0000_0000_0000);
        }
        let corr: i128 = yr * zdi * wi * wi;
        rx0 = sx * hi - corr;
        rx1 = sx * hi + corr;
        ry0 = 2 * wi * ny0;
        ry1 = 2 * wi * ny1;
    } else {
        let sy: i128 = ny0 + ny1;
        proof {
            lemma_abs_bound(sy as int, wi as int, 0x4_0000_0000_0000, 4096);
            lemma_abs_bound(xr as int, zdi as int, 0x400_0000, 256);
            lemma_abs_bound((xr * zdi) as int, hi as int, 0x4_0000_0000, 4096);
            lemma_abs_bound((xr * zdi * hi) as int, hi as int, 0x4000_0000_0000, 4096);
            lemma_abs_bound((2 * hi) as int, nx0 as int, 8192, 0x2_0000_0000_0000);
            lemma_abs_bound((2 * hi) as int, nx1 as int, 8192, 0x2_0000_0000_0000);
        }
        let corr: i128 = xr * zdi * hi * hi;
        ry0 = sy * wi - corr;
        ry1 = sy * wi + corr;
        rx0 = 2 * hi * nx0;
        rx1 = 2 * hi * nx1;
    }
    let r = Bounds {
        x0n: rx0 as i64,
        x1n: rx1 as i64,
        y0n: ry0 as i64,
        y1n: ry1 as i64,
        den: dd as i64,
    };
    proof {
        lemma_scale_aspect(
            b.q(), w as int, h as int, cx as int, cy as int, zn as int, zd as int);
    }
    r
}

/// Aspect correction alone: whichever of the rectangle's extents is
/// too small for the canvas's shape grows, centered, so that the
/// result's aspect ratio equals the canvas's; nothing is ever cropped.
pub open spec fn correct_spec(q: QBounds, w: int, h: int) -> QBounds {
    let xr = q.x1 - q.x0;
    let yr = q.y1 - q.y0;
    if yr * w > xr * h {
        QBounds {
            x0: 2 * h * q.x0 - (yr * w - xr * h),
            x1: 2 * h * q.x1 + (yr * w - xr * h),
            y0: 2 * h * q.y0,
            y1: 2 * h * q.y1,
            den: 2 * h * q.den,
        }
    } else {
        QBounds {
            x0: 2 * w * q.x0,
            x1: 2 * w * q.x1,
            y0: 2 * w * q.y0 - (xr * h - yr * w),
            y1: 2 * w * q.y1 + (xr * h - yr * w),
            den: 2 * w * q.den,
        }
    }
}

/// The square region of half-extent `2 / (zn/zd)` around the center
/// `(cxn/cden, cyn/cden)`.
pub open spec fn center_square_spec(cxn: int, cyn: int, cden: int, zn: int, zd: int) -> QBounds {
    QBounds {
        x0: cxn * zn - 2 * cden * zd,
        x1: cxn * zn + 2 * cden * zd,
        y0: cyn * zn - 2 * cden * zd,
        y1: cyn * zn + 2 * cden * zd,
        den: cden * zn,
    }
}

/// The batch zoom transform: default half-extent divided by the zoom
/// factor around a fixed center, then aspect-corrected.
pub open spec fn center_spec(
    cxn: int,
    cyn: int,
    cden: int,
    zn: int,
    zd: int,
    w: int,
    h: int,
) -> QBounds {
    correct_spec(center_square_spec(cxn, cyn, cden, zn, zd), w, h)
}

/// Aspect correction yields a well-formed, aspect-correct rectangle.
pub proof fn lemma_correct_aspect(q: QBounds, w: int, h: int)
    requires
        q_wf(q),
        w >= 1,
        h >= 1,
    ensures
        q_wf(correct_spec(q, w, h)),
        aspect_ok(correct_spec(q, w, h), w, h),
{
    let xr = q.x1 - q.x0;
    let yr = q.y1 - q.y0;
    let s = correct_spec(q, w, h);
    lemma_prod_pos(2 * h, q.den);
    lemma_prod_pos(2 * w, q.den);
    lemma_prod_pos(xr, h);
    lemma_prod_pos(yr, w);
    lemma_prod_pos(h, yr);
    lemma_prod_pos(w, xr);
    if yr * w > xr * h {
        assert(s.x1 - s.x0 == 2 * h * q.x1 - 2 * h * q.x0 + 2 * (yr * w - xr * h));
        assert(2 * h * q.x1 - 2 * h * q.x0 == 2 * (h * xr)) by (nonlinear_arith)
            requires xr == q.x1 - q.x0;
        assert(2 * (h * xr) + 2 * (yr * w - xr * h) == 2 * (yr * w)) by (nonlinear_arith);
        assert(s.y1 - s.y0 == 2 * h * q.y1 - 2 * h * q.y0);
        assert(2 * h * q.y1 - 2 * h * q.y0 == 2 * (h * yr)) by (nonlinear_arith)
            requires yr == q.y1 - q.y0;
        assert(yr * w > 0 && (2 * (yr * w)) * h == (2 * (h * yr)) * w) by (nonlinear_arith)
            requires yr > 0, w >= 1, h >= 1;
    } else {
        assert(s.y1 - s.y0 == 2 * w * q.y1 - 2 * w * q.y0 + 2 * (xr * h - yr * w));
        assert(2 * w * q.y1 - 2 * w * q.y0 == 2 * (w * yr)) by (nonlinear_arith)
            requires yr == q.y1 - q.y0;
        assert(2 * (w * yr) + 2 * (xr * h - yr * w) == 2 * (xr * h)) by (nonlinear_arith);
        assert(s.x1 - s.x0 == 2 * w * q.x1 - 2 * w * q.x0);
        assert(2 * w * q.x1 - 2 * w * q.x0 == 2 * (w * xr)) by (nonlinear_arith)
            requires xr == q.x1 - q.x0;
        assert(xr * h > 0 && (2 * (w * xr)) * h == (2 * (xr * h)) * w) by (nonlinear_arith)
            requires xr > 0, w >= 1, h >= 1;
    }
}

/// Scripted/batch zoom: a square of half-extent `2 / (zn/zd)` around
/// the given center, aspect-corrected for the output dimensions.
pub fn scale_about_center(cxn: i64, cyn: i64, cden: i64, zn: u32, zd: u32, w: u32, h: u32) -> (r:
    Bounds)
    requires
        -0x100_0000 <= cxn <= 0x100_0000,
        -0x100_0000 <= cyn <= 0x100_0000,
        1 <= cden <= 0x100_0000,
        1 <= zn <= 4096,
        1 <= zd <= 4096,
        2 <= w <= 4096,
        2 <= h <= 4096,
    ensures
        r.q() == center_spec(
            cxn as int, cyn as int, cden as int, zn as int, zd as int, w as int, h as int),
        r.wf(),
        aspect_ok(r.q(), w as int, h as int),
        -0x20_0000_0000_0000 <= r.x0n <= 0x20_0000_0000_0000,
        -0x20_0000_0000_0000 <= r.x1n <= 0x20_0000_0000_0000,
        -0x20_0000_0000_0000 <= r.y0n <= 0x20_0000_0000_0000,
        -0x20_0000_0000_0000 <= r.y1n <= 0x20_0000_0000_0000,
        1 <= r.den <= 0x20_0000_0000_0000,
{
    let cxi: i128 = cxn as i128;
    let cyi: i128 = cyn as i128;
    let cd: i128 = cden as i128;
    let zni: i128 = zn as i128;
    let zdi: i128 = zd as i128;
    let wi: i128 = w as i128;
    let hi: i128 = h as i128;
    proof {
        lemma_abs_bound(cxi as int, zni as int, 0x100_0000, 4096);
        lemma_abs_bound(cyi as int, zni as int, 0x100_0000, 4096);
        lemma_abs_bound((2 * cd) as int, zdi as int, 0x200_0000, 4096);
        lemma_abs_bound(cd as int, zni as int, 0x100_0000, 4096);
    }
    let e: i128 = cd * zni;
    let half: i128 = 2 * cd * zdi;
    let x0: i128 = cxi * zni - half;
    let x1: i128 = cxi * zni + half;
    let y0: i128 = cyi * zni - half;
    let y1: i128 = cyi * zni + half;
    let xr: i128 = x1 - x0;
    let yr: i128 = y1 - y0;
    proof {
        lemma_abs_bound(yr as int, wi as int, 0x80_0000_0000, 4096);
        lemma_abs_bound(xr as int, hi as int, 0x80_0000_0000, 4096);
        lemma_abs_bound((2 * hi) as int, x0 as int, 8192, 0x40_0000_0000);
        lemma_abs_bound((2 * hi) as int, x1 as int, 8192, 0x40_0000_0000);
        lemma_abs_bound((2 * hi) as int, y0 as int, 8192, 0x40_0000_0000);
        lemma_abs_bound((2 * hi) as int, y1 as int, 8192, 0x40_0000_0000);
        lemma_abs_bound((2 * wi) as int, x0 as int, 8192, 0x40_0000_0000);
        lemma_abs_bound((2 * wi) as int, x1 as int, 8192, 0x40_0000_0000);
        lemma_abs_bound((2 * wi) as int, y0 as int, 8192, 0x40_0000_0000);
        lemma_abs_bound((2 * wi) as int, y1 as int, 8192, 0x40_0000_0000);
        lemma_abs_bound((2 * hi) as int, e as int, 8192, 0x10_0000_0000);
        lemma_abs_bound((2 * wi) as int, e as int, 8192, 0x10_0000_0000);
        lemma_prod_pos(2 * cd as int, zdi as int);
        lemma_prod_pos(cd as int, zni as int);
        lemma_correct_aspect(
            center_square_spec(cxn as int, cyn as int, cden as int, zn as int, zd as int),
            w as int, h as int);
    }
    let r: Bounds;
    if yr * wi > xr * hi {
        let diff: i128 = yr * wi - xr * hi;
        r = Bounds {
            x0n: (2 * hi * x0 - diff) as i64,
            x1n: (2 * hi * x1 + diff) as i64,
            y0n: (2 * hi * y0) as i64,
            y1n: (2 * hi * y1) as i64,
            den: (2 * hi * e) as i64,
        };
    } else {
        let diff: i128 = xr * hi - yr * wi;
        r = Bounds {
            x0n: (2 * wi * x0) as i64,
            x1n: (2 * wi * x1) as i64,
            y0n: (2 * wi * y0 - diff) as i64,
            y1n: (2 * wi * y1 + diff) as i64,
            den: (2 * wi * e) as i64,
        };
    }
    r
}

/// On an input that is already aspect-correct for the canvas, the
/// correction step of the transform is the identity: the result is the
/// plain cursor zoom of both axes, written over the common denominator.
proof fn lemma_scale_collapses(q: QBounds, w: int, h: int, cx: int, cy: int, zn: int, zd: int)
    requires
        q_wf(q),
        w >= 1,
        h >= 1,
        zn >= 1,
        zd >= 1,
        aspect_ok(q, w, h),
    ensures
        scale_spec(q, w, h, cx, cy, zn, zd) == (QBounds {
            x0: 2 * h * axis_zoom(q.x0, q.x1, q.den, cx, w, zn, zd).0,
            x1: 2 * h * axis_zoom(q.x0, q.x1, q.den, cx, w, zn, zd).1,
            y0: 2 * w * axis_zoom(q.y0, q.y1, q.den, cy, h, zn, zd).0,
            y1: 2 * w * axis_zoom(q.y0, q.y1, q.den, cy, h, zn, zd).1,
            den: 2 * q.den * w * h * zn,
        }),
{
    let xr = q.x1 - q.x0;
    let yr = q.y1 - q.y0;
    let x = axis_zoom(q.x0, q.x1, q.den, cx, w, zn, zd);
    let y = axis_zoom(q.y0, q.y1, q.den, cy, h, zn, zd);
    lemma_axis_extent(q.x0, q.x1, q.den, cx, w, zn, zd);
    lemma_axis_extent(q.y0, q.y1, q.den, cy, h, zn, zd);
    if w > h {
        // The correction term equals half the extent difference exactly.
        assert((x.1 - x.0) * h == yr * zd * w * w) by (nonlinear_arith)
            requires
                x.1 - x.0 == w * (xr * zd),
                xr * h == yr * w;
        assert((x.0 + x.1) * h - yr * zd * w * w == 2 * h * x.0 && (x.0 + x.1) * h + yr * zd * w
            * w == 2 * h * x.1) by (nonlinear_arith)
            requires (x.1 - x.0) * h == yr * zd * w * w;
    } else {
        assert((y.1 - y.0) * w == xr * zd * h * h) by (nonlinear_arith)
            requires
                y.1 - y.0 == h * (yr * zd),
                xr * h == yr * w;
        assert((y.0 + y.1) * w - xr * zd * h * h == 2 * w * y.0 && (y.0 + y.1) * w + xr * zd * h
            * h == 2 * w * y.1) by (nonlinear_arith)
            requires (y.1 - y.0) * w == xr * zd * h * h;
    }
}

/// Zooming by factor 1 about the canvas center leaves an
/// aspect-corrected viewport unchanged — exactly, not merely within a
/// tolerance. (The proof does not even need the cursor hypotheses: at
/// factor 1 every cursor position is a fixed point of the transform.)
pub proof fn lemma_scale_identity(q: QBounds, w: int, h: int, cx: int, cy: int, z: int)
    requires
        q_wf(q),
        w >= 1,
        h >= 1,
        z >= 1,
        2 * cx == w,
        2 * cy == h,
        aspect_ok(q, w, h),
    ensures
        q_eq(scale_spec(q, w, h, cx, cy, z, z), q),
{
    let xr = q.x1 - q.x0;
    let yr = q.y1 - q.y0;
    let x = axis_zoom(q.x0, q.x1, q.den, cx, w, z, z);
    let y = axis_zoom(q.y0, q.y1, q.den, cy, h, z, z);
    let s = scale_spec(q, w, h, cx, cy, z, z);
    lemma_scale_collapses(q, w, h, cx, cy, z, z);
    assert(x.0 == z * (q.x0 * w) && x.1 == z * (q.x1 * w)) by (nonlinear_arith)
        requires
            x.0 == (q.x0 * w + cx * xr) * z - cx * xr * z,
            x.1 == (q.x0 * w + cx * xr) * z + (w - cx) * xr * z,
            xr == q.x1 - q.x0;
    assert(y.0 == z * (q.y0 * h) && y.1 == z * (q.y1 * h)) by (nonlinear_arith)
        requires
            y.0 == (q.y0 * h + cy * yr) * z - cy * yr * z,
            y.1 == (q.y0 * h + cy * yr) * z + (h - cy) * yr * z,
            yr == q.y1 - q.y0;
    assert(2 * h * (z * (q.x0 * w)) * q.den == q.x0 * (2 * q.den * w * h * z) && 2 * h * (z
        * (q.x1 * w)) * q.den == q.x1 * (2 * q.den * w * h * z) && 2 * w * (z * (q.y0 * h))
        * q.den == q.y0 * (2 * q.den * w * h * z) && 2 * w * (z * (q.y1 * h)) * q.den == q.y1
        * (2 * q.den * w * h * z)) by (nonlinear_arith);
}

/// Cursor zoom along one axis by `zn/zd`, then by `zd/zn` at the same
/// cursor, returns each coordinate scaled by one common positive
/// factor — the same rational interval. The first zoom's output may be
/// handed over multiplied by any constant `k` (the correction step of
/// the full transform does exactly that).
proof fn lemma_axis_round_trip(n0: int, n1: int, d: int, c: int, l: int, zn: int, zd: int, k: int)
    ensures
        ({
            let u = axis_zoom(n0, n1, d, c, l, zn, zd);
            let v = axis_zoom(k * u.0, k * u.1, k * u.2, c, l, zd, zn);
            v.0 == k * (l * l) * (zn * zd) * n0 && v.1 == k * (l * l) * (zn * zd) * n1 && v.2 == k
                * (l * l) * (zn * zd) * d
        }),
{
    let r = n1 - n0;
    let a = n0 * l + c * r;
    let u = axis_zoom(n0, n1, d, c, l, zn, zd);
    let v = axis_zoom(k * u.0, k * u.1, k * u.2, c, l, zd, zn);
    let rv = k * u.1 - k * u.0;
    let av = (k * u.0) * l + c * rv;
    lemma_rt_extent(k, a * zn, l, c, r * zd);
    assert(u.1 == a * zn + (l - c) * (r * zd) && u.0 == a * zn - c * (r * zd)) by {
        lemma_assoc(l - c, r, zd);
        lemma_assoc(c, r, zd);
    }
    assert(rv == k * (l * (r * zd)));
    lemma_rt_anchor(k, a * zn, c, r * zd, l);
    assert(av == k * (l * (a * zn)));
    assert(v.0 == av * zd - c * rv * zn);
    lemma_rt_lift_zd(k, l, a * zn, zd);
    lemma_rt_lift_zn(c, k, l, r * zd, zn);
    lemma_rt_factor(k, l, (a * zn) * zd, c * ((r * zd) * zn));
    lemma_rt_inner_x0(a, r, c, zn, zd, n0, l);
    lemma_rt_regroup(k, l, n0, zn, zd);
    assert(v.0 == k * (l * l) * (zn * zd) * n0);
    assert(v.1 == av * zd + (l - c) * rv * zn);
    lemma_rt_lift_zn(l - c, k, l, r * zd, zn);
    lemma_rt_factor_add(k, l, (a * zn) * zd, (l - c) * ((r * zd) * zn));
    lemma_rt_inner_x1(a, r, c, zn, zd, n1, l);
    lemma_rt_regroup(k, l, n1, zn, zd);
    assert(v.1 == k * (l * l) * (zn * zd) * n1);
    assert(v.2 == (k * u.2) * l * zd && u.2 == d * l * zn);
    lemma_rt_den(k, d, l, zn, zd);
    assert(v.2 == k * (l * l) * (zn * zd) * d);
}

proof fn lemma_assoc(x: int, y: int, z: int)
    ensures
        x * y * z == x * (y * z),
{
    assert(x * y * z == x * (y * z)) by (nonlinear_arith);
}

proof fn lemma_rt_extent(k: int, p: int, l: int, c: int, m: int)
    ensures
        k * (p + (l - c) * m) - k * (p - c * m) == k * (l * m),
{
    assert(k * (p + (l - c) * m) - k * (p - c * m) == k * (l * m)) by (nonlinear_arith);
}

proof fn lemma_rt_anchor(k: int, p: int, c: int, m: int, l: int)
    ensures
        (k * (p - c * m)) * l + c * (k * (l * m)) == k * (l * p),
{
    assert((k * (p - c * m)) * l + c * (k * (l * m)) == k * (l * p)) by (nonlinear_arith);
}

proof fn lemma_rt_lift_zd(k: int, l: int, p: int, zd: int)
    ensures
        (k * (l * p)) * zd == k * (l * (p * zd)),
{
    assert((k * (l * p)) * zd == k * (l * (p * zd))) by (nonlinear_arith);
}

proof fn lemma_rt_lift_zn(c: int, k: int, l: int, m: int, zn: int)
    ensures
        c * (k * (l * m)) * zn == k * (l * (c * (m * zn))),
{
    assert(c * (k * (l * m)) * zn == k * (l * (c * (m * zn)))) by (nonlinear_arith);
}

proof fn lemma_rt_factor(k: int, l: int, s: int, t: int)
    ensures
        k * (l * s) - k * (l * t) == k * (l * (s - t)),
{
    assert(k * (l * s) - k * (l * t) == k * (l * (s - t))) by (nonlinear_arith);
}

proof fn lemma_rt_factor_add(k: int, l: int, s: int, t: int)
    ensures
        k * (l * s) + k * (l * t) == k * (l * (s + t)),
{
    assert(k * (l * s) + k * (l * t) == k * (l * (s + t))) by (nonlinear_arith);
}

proof fn lemma_rt_inner_x0(a: int, r: int, c: int, zn: int, zd: int, n0: int, l: int)
    requires
        a == n0 * l + c * r,
    ensures
        (a * zn) * zd - c * ((r * zd) * zn) == (n0 * l) * (zn * zd),
{
    assert((a * zn) * zd == a * (zn * zd)) by (nonlinear_arith);
    assert(c * ((r * zd) * zn) == (c * r) * (zn * zd)) by (nonlinear_arith);
    assert(a * (zn * zd) - (c * r) * (zn * zd) == (a - c * r) * (zn * zd)) by (nonlinear_arith);
    assert((a - c * r) * (zn * zd) == (n0 * l) * (zn * zd));
}

proof fn lemma_rt_inner_x1(a: int, r: int, c: int, zn: int, zd: int, n1: int, l: int)
    requires
        a == (n1 - r) * l + c * r,
    ensures
        (a * zn) * zd + (l - c) * ((r * zd) * zn) == (n1 * l) * (zn * zd),
{
    assert((a * zn) * zd == a * (zn * zd)) by (nonlinear_arith);
    assert((l - c) * ((r * zd) * zn) == ((l - c) * r) * (zn * zd)) by (nonlinear_arith);
    assert(a * (zn * zd) + ((l - c) * r) * (zn * zd) == (a + (l - c) * r) * (zn * zd))
        by (nonlinear_arith);
    assert(a + (l - c) * r == n1 * l) by (nonlinear_arith)
        requires a == (n1 - r) * l + c * r;
    assert((a + (l - c) * r) * (zn * zd) == (n1 * l) * (zn * zd));
}

proof fn lemma_rt_regroup(k: int, l: int, n: int, zn: int, zd: int)
    ensures
        k * (l * ((n * l) * (zn * zd))) == k * (l * l) * (zn * zd) * n,
{
    assert(k * (l * ((n * l) * (zn * zd))) == k * (l * l) * (zn * zd) * n) by (nonlinear_arith);
}

proof fn lemma_rt_den(k: int, d: int, l: int, zn: int, zd: int)
    ensures
        (k * (d * l * zn)) * l * zd == k * (l * l) * (zn * zd) * d,
{
    assert((k * (d * l * zn)) * l * zd == k * (l * l) * (zn * zd) * d) by (nonlinear_arith);
}

/// `a * (f * x) * d == x * (a * (f * d))`: rearranging a product of
/// four factors.
proof fn lemma_shuffle(a: int, f: int, x: int, d: int)
    ensures
        a * (f * x) * d == x * (a * (f * d)),
{
    assert(a * (f * x) * d == x * (a * (f * d))) by (nonlinear_arith);
}

/// Round trip: zooming an aspect-corrected viewport by `zn/zd` about a
/// cursor and then by `zd/zn` about the same cursor returns the original
/// viewport — exactly, as rational numbers.
pub proof fn lemma_scale_round_trip(
    q: QBounds,
    w: int,
    h: int,
    cx: int,
    cy: int,
    zn: int,
    zd: int,
)
    requires
        q_wf(q),
        w >= 1,
        h >= 1,
        zn >= 1,
        zd >= 1,
        aspect_ok(q, w, h),
    ensures
        q_eq(scale_spec(scale_spec(q, w, h, cx, cy, zn, zd), w, h, cx, cy, zd, zn), q),
{
    let s1 = scale_spec(q, w, h, cx, cy, zn, zd);
    let s2 = scale_spec(s1, w, h, cx, cy, zd, zn);
    let ux = axis_zoom(q.x0, q.x1, q.den, cx, w, zn, zd);
    let uy = axis_zoom(q.y0, q.y1, q.den, cy, h, zn, zd);
    lemma_scale_aspect(q, w, h, cx, cy, zn, zd);
    lemma_scale_collapses(q, w, h, cx, cy, zn, zd);
    lemma_scale_collapses(s1, w, h, cx, cy, zd, zn);
    // The first transform hands each axis over scaled by a constant.
    assert(s1.den == (2 * h) * ux.2) by (nonlinear_arith)
        requires
            s1.den == 2 * q.den * w * h * zn,
            ux.2 == q.den * w * zn;
    assert(s1.den == (2 * w) * uy.2) by (nonlinear_arith)
        requires
            s1.den == 2 * q.den * w * h * zn,
            uy.2 == q.den * h * zn;
    lemma_axis_round_trip(q.x0, q.x1, q.den, cx, w, zn, zd, 2 * h);
    lemma_axis_round_trip(q.y0, q.y1, q.den, cy, h, zn, zd, 2 * w);
    let vx = axis_zoom(s1.x0, s1.x1, s1.den, cx, w, zd, zn);
    let vy = axis_zoom(s1.y0, s1.y1, s1.den, cy, h, zd, zn);
    let fx = (2 * h) * (w * w) * (zn * zd);
    let fy = (2 * w) * (h * h) * (zn * zd);
    assert(vx.0 == fx * q.x0 && vx.1 == fx * q.x1 && vx.2 == fx * q.den);
    assert(vy.0 == fy * q.y0 && vy.1 == fy * q.y1 && vy.2 == fy * q.den);
    // Glue: the outer collapse writes the axes over the final common
    // denominator, which is the same multiple of the original one.
    assert(s2.x0 == 2 * h * vx.0 && s2.x1 == 2 * h * vx.1 && s2.y0 == 2 * w * vy.0 && s2.y1 == 2
        * w * vy.1 && s2.den == 2 * s1.den * w * h * zd);
    assert(2 * (2 * q.den * w * h * zn) * w * h * zd == 2 * h * (((2 * h) * (w * w) * (zn * zd))
        * q.den)) by (nonlinear_arith);
    assert(s2.den == 2 * h * (fx * q.den));
    assert(2 * (2 * q.den * w * h * zn) * w * h * zd == 2 * w * (((2 * w) * (h * h) * (zn * zd))
        * q.den)) by (nonlinear_arith);
    assert(s2.den == 2 * w * (fy * q.den));
    lemma_shuffle(2 * h, fx, q.x0, q.den);
    lemma_shuffle(2 * h, fx, q.x1, q.den);
    lemma_shuffle(2 * w, fy, q.y0, q.den);
    lemma_shuffle(2 * w, fy, q.y1, q.den);
}

} // verus!
