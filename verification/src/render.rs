//! Tile renderer: fills a row-major RGB pixel buffer by evaluating
//! every pixel's plane coordinate, smoothing, and color-mapping it.
//!
//! Rows are disjoint, and every pixel is a pure function of the
//! viewport, the dimensions and the iteration budget, so the fill is
//! dispatched one parallel task per row with no synchronization; the
//! output is pinned byte-for-byte by `render_bytes`, whatever the
//! worker count or interleaving.

use crate::color::color_spec;
use crate::color::iters_to_color;
use crate::escape::evaluate_smoothed;
use crate::escape::smooth_spec;
use crate::escape::tdiv;
use crate::escape::FP_COORD_MAX;
use crate::viewport::Bounds;
use rayon::iter::IndexedParallelIterator;
use rayon::iter::IntoParallelIterator;
use rayon::iter::ParallelIterator;
use vstd::arithmetic::div_mod::lemma_fundamental_div_mod_converse;
use vstd::prelude::*;

verus! {

/// Clamps a fixed-point coordinate into the square the evaluator
/// accepts; points outside `[-8, 8]` escape immediately either way.
pub open spec fn sat_coord(v: int) -> int {
    if v < -FP_COORD_MAX {
        -FP_COORD_MAX as int
    } else if v > FP_COORD_MAX {
        FP_COORD_MAX as int
    } else {
        v
    }
}

/// The fixed-point plane coordinate of grid index `idx` on the axis
/// `[n0/den, n1/den]` divided into `steps` equal intervals.
pub open spec fn pixel_fp(n0: int, n1: int, den: int, steps: int, idx: int) -> int {
    sat_coord(tdiv((n0 * steps + idx * (n1 - n0)) * 0x100_0000, den * steps))
}

/// What the renderer accepts: a well-formed viewport within the integer
/// ranges the exact arithmetic needs, a canvas of at least 2x2 (a
/// single row or column cannot carry a coordinate delta), and a
/// positive iteration budget.
pub open spec fn render_req(b: Bounds, w: u32, h: u32, max_iter: u32) -> bool {
    &&& b.wf()
    &&& -0x4000_0000_0000_0000 <= b.x0n <= 0x4000_0000_0000_0000
    &&& -0x4000_0000_0000_0000 <= b.x1n <= 0x4000_0000_0000_0000
    &&& -0x4000_0000_0000_0000 <= b.y0n <= 0x4000_0000_0000_0000
    &&& -0x4000_0000_0000_0000 <= b.y1n <= 0x4000_0000_0000_0000
    &&& 1 <= b.den <= 0x4000_0000_0000_0000
    &&& 2 <= w <= 4096
    &&& 2 <= h <= 4096
    &&& 1 <= max_iter <= 0xFFFF
}

/// The color of pixel `(row, col)`: its plane coordinate, smoothed
/// escape count, and gradient color.
pub open spec fn pixel_rgb(b: Bounds, w: int, h: int, max: int, row: int, col: int) -> (
    u8,
    u8,
    u8,
) {
    let cr = pixel_fp(b.x0n as int, b.x1n as int, b.den as int, w - 1, col);
    let ci = pixel_fp(b.y0n as int, b.y1n as int, b.den as int, h - 1, row);
    color_spec(smooth_spec(cr, ci, max as nat), max)
}

/// One byte of one row: three bytes per pixel, red-green-blue order.
pub open spec fn row_byte(b: Bounds, w: int, h: int, max: int, row: int, j: int) -> u8 {
    let p = pixel_rgb(b, w, h, max, row, j / 3);
    if j % 3 == 0 {
        p.0
    } else if j % 3 == 1 {
        p.1
    } else {
        p.2
    }
}

/// The bytes of row `row`.
pub open spec fn row_bytes(b: Bounds, w: int, h: int, max: int, row: int) -> Seq<u8> {
    Seq::new((3 * w) as nat, |j: int| row_byte(b, w, h, max, row, j))
}

/// The whole buffer: rows in order, row-major.
pub open spec fn render_bytes(b: Bounds, w: int, h: int, max: int) -> Seq<u8> {
    Seq::new((3 * w * h) as nat, |i: int| row_bytes(b, w, h, max, i / (3 * w))[i % (3 * w)])
}

/// Exact fixed-point conversion of one grid coordinate.
fn pixel_coord(n0: i64, n1: i64, den: i64, steps: u32, idx: u32) -> (r: i64)
    requires
        -0x4000_0000_0000_0000 <= n0 <= 0x4000_0000_0000_0000,
        -0x4000_0000_0000_0000 <= n1 <= 0x4000_0000_0000_0000,
        1 <= den <= 0x4000_0000_0000_0000,
        1 <= steps <= 4095,
        idx <= steps,
    ensures
        r == pixel_fp(n0 as int, n1 as int, den as int, steps as int, idx as int),
        -FP_COORD_MAX <= r <= FP_COORD_MAX,
{
    let n0i: i128 = n0 as i128;
    let n1i: i128 = n1 as i128;
    let di: i128 = den as i128;
    let si: i128 = steps as i128;
    let ii: i128 = idx as i128;
    proof {
        crate::viewport::lemma_abs_bound(n0i as int, si as int, 0x4000_0000_0000_0000, 4095);
        crate::viewport::lemma_abs_bound(
            ii as int, (n1i - n0i) as int, 4095, 0x8000_0000_0000_0000);
        crate::viewport::lemma_abs_bound(di as int, si as int, 0x4000_0000_0000_0000, 4095);
        assert(di as int * si as int >= 1 * 1) by (nonlinear_arith)
            requires di as int >= 1, si as int >= 1;
    }
    let num: i128 = n0i * si + ii * (n1i - n0i);
    let dd: i128 = di * si;
    let q: i128 = crate::escape::tdiv_i128(num * 0x100_0000, dd);
    if q < -FP_COORD_MAX as i128 {
        -FP_COORD_MAX
    } else if q > FP_COORD_MAX as i128 {
        FP_COORD_MAX
    } else {
        q as i64
    }
}

/// Renders one row of pixels into a fresh RGB byte vector.
pub fn fill_row(b: &Bounds, w: u32, h: u32, max_iter: u32, row: u32) -> (out: Vec<u8>)
    requires
        render_req(*b, w, h, max_iter),
        row < h,
    ensures
        out@ == row_bytes(*b, w as int, h as int, max_iter as int, row as int),
{
    let ci = pixel_coord(b.y0n, b.y1n, b.den, h - 1, row);
    let mut out: Vec<u8> = Vec::new();
    let mut col: u32 = 0;
    while col < w
        invariant
            render_req(*b, w, h, max_iter),
            row < h,
            col <= w,
            ci == pixel_fp(b.y0n as int, b.y1n as int, b.den as int, h as int - 1, row as int),
            -FP_COORD_MAX <= ci <= FP_COORD_MAX,
            out@.len() == 3 * col,
            forall|j: int| 0 <= j < 3 * col ==> out@[j] == row_byte(
                *b, w as int, h as int, max_iter as int, row as int, j),
        decreases w - col,
    {
        let cr = pixel_coord(b.x0n, b.x1n, b.den, w - 1, col);
        let s = evaluate_smoothed(cr, ci, max_iter);
        let rgb = iters_to_color(s, max_iter);
        out.push(rgb.r);
        out.push(rgb.g);
        out.push(rgb.b);
        proof {
            assert((3 * col as int) / 3 == col as int && (3 * col as int) % 3 == 0);
            assert((3 * col as int + 1) / 3 == col as int && (3 * col as int + 1) % 3 == 1);
            assert((3 * col as int + 2) / 3 == col as int && (3 * col as int + 2) % 3 == 2);
        }
        col = col + 1;
    }
    proof {
        assert(out@ =~= row_bytes(*b, w as int, h as int, max_iter as int, row as int));
    }
    out
}

/// Relies on rayon's `into_par_iter` over `0..h`, `map`, and `collect`:
/// an indexed parallel iterator's `collect` preserves index order, and
/// `map` applies the row fill to each row index exactly once, so element
/// `r` of the result is the verified `fill_row` output for row `r`.
#[verifier::external_body]
fn render_rows(b: &Bounds, w: u32, h: u32, max_iter: u32) -> (rows: Vec<Vec<u8>>)
    requires
        render_req(*b, w, h, max_iter),
    ensures
        rows@.len() == h,
        forall|r: int| 0 <= r < h ==> rows@[r]@ == row_bytes(
            *b, w as int, h as int, max_iter as int, r),
{
    (0..h).into_par_iter().map(|row| fill_row(b, w, h, max_iter, row)).collect()
}

/// Renders the full pixel buffer: `3 * w * h` bytes, row-major, three
/// bytes per pixel in red-green-blue order. The buffer is a pure
/// function of the arguments — `render_bytes` pins every byte — so the
/// parallel fill is deterministic whatever the worker count.
pub fn render(b: &Bounds, w: u32, h: u32, max_iter: u32) -> (buf: Vec<u8>)
    requires
        render_req(*b, w, h, max_iter),
    ensures
        buf@ == render_bytes(*b, w as int, h as int, max_iter as int),
        buf@.len() == 3 * w * h,
{
    let rows = render_rows(b, w, h, max_iter);
    let mut buf: Vec<u8> = Vec::new();
    let mut r: u32 = 0;
    proof {
        crate::viewport::lemma_abs_bound(3 * w as int, h as int, 3 * 4096int, 4096);
    }
    while r < h
        invariant
            render_req(*b, w, h, max_iter),
            r <= h,
            rows@.len() == h,
            forall|rr: int| 0 <= rr < h ==> rows@[rr]@ == row_bytes(
                *b, w as int, h as int, max_iter as int, rr),
            buf@.len() == 3 * (w as int) * r,
            forall|i: int| 0 <= i < buf@.len() ==> buf@[i] == render_bytes(
                *b, w as int, h as int, max_iter as int)[i],
        decreases h - r,
    {
        let row = &rows[r as usize];
        let mut k: usize = 0;
        proof {
            crate::viewport::lemma_abs_bound(3 * w as int, r as int, 3 * 4096int, 4096);
            assert(rows@[r as int]@ == row_bytes(*b, w as int, h as int, max_iter as int, r as int));
            assert(row@.len() == 3 * w as int);
        }
        while k < row.len()
            invariant
                render_req(*b, w, h, max_iter),
                r < h,
                rows@.len() == h,
                forall|rr: int| 0 <= rr < h ==> rows@[rr]@ == row_bytes(
                    *b, w as int, h as int, max_iter as int, rr),
                row@ == rows@[r as int]@,
                row@.len() == 3 * w,
                k <= row@.len(),
                buf@.len() == 3 * (w as int) * r + k,
                forall|i: int| 0 <= i < buf@.len() ==> buf@[i] == render_bytes(
                    *b, w as int, h as int, max_iter as int)[i],
            decreases row@.len() - k,
        {
            buf.push(row[k]);
            proof {
                let i = 3 * (w as int) * (r as int) + k as int;
                assert(3 * (w as int) * (r as int) == (r as int) * (3 * (w as int))) by (nonlinear_arith);
                assert(i < 3 * (w as int) * (h as int)) by (nonlinear_arith)
                    requires
                        i == 3 * (w as int) * (r as int) + k as int,
                        (r as int) < h as int,
                        0 <= k as int,
                        (k as int) < 3 * (w as int),
                        2 <= w as int;
                lemma_fundamental_div_mod_converse(i, 3 * (w as int), r as int, k as int);
                assert(render_bytes(*b, w as int, h as int, max_iter as int)[i] == row_bytes(
                    *b, w as int, h as int, max_iter as int, r as int)[k as int]);
            }
            k = k + 1;
        }
        proof {
            assert(3 * (w as int) * (r as int) + 3 * (w as int) == 3 * (w as int) * (r as int + 1)) by (nonlinear_arith);
        }
        r = r + 1;
    }
    proof {
        assert(buf@ =~= render_bytes(*b, w as int, h as int, max_iter as int));
    }
    buf
}

/// Determinism of the tile renderer: any two buffers that meet
/// `render`'s contract for the same viewport, dimensions and iteration
/// budget are byte-identical, whatever the number of parallel workers
/// that produced them.
pub proof fn lemma_render_deterministic(
    b1: Seq<u8>,
    b2: Seq<u8>,
    v: Bounds,
    w: int,
    h: int,
    max: int,
)
    requires
        b1 == render_bytes(v, w, h, max),
        b2 == render_bytes(v, w, h, max),
    ensures
        b1 == b2,
{
}

/// Expands an RGB buffer to RGBA, alpha fixed at 255, preserving the
/// order of pixels and channels.
pub fn to_rgba(buf: &Vec<u8>) -> (out: Vec<u8>)
    requires
        buf@.len() % 3 == 0,
        buf@.len() <= 0x3000_0000,
    ensures
        out@.len() * 3 == buf@.len() * 4,
        forall|p: int| 0 <= p < buf@.len() / 3 ==> #[trigger] out@[4 * p] == buf@[3 * p],
        forall|p: int| 0 <= p < buf@.len() / 3 ==> #[trigger] out@[4 * p + 1] == buf@[3 * p + 1],
        forall|p: int| 0 <= p < buf@.len() / 3 ==> #[trigger] out@[4 * p + 2] == buf@[3 * p + 2],
        forall|p: int| 0 <= p < buf@.len() / 3 ==> #[trigger] out@[4 * p + 3] == 255,
{
    let n = buf.len() / 3;
    let mut out: Vec<u8> = Vec::new();
    let mut p: usize = 0;
    while p < n
        invariant
            buf@.len() == 3 * n,
            n <= 0x1000_0000,
            p <= n,
            out@.len() == 4 * p,
            forall|q: int| 0 <= q < p ==> #[trigger] out@[4 * q] == buf@[3 * q],
            forall|q: int| 0 <= q < p ==> #[trigger] out@[4 * q + 1] == buf@[3 * q + 1],
            forall|q: int| 0 <= q < p ==> #[trigger] out@[4 * q + 2] == buf@[3 * q + 2],
            forall|q: int| 0 <= q < p ==> #[trigger] out@[4 * q + 3] == 255,
        decreases n - p,
    {
        out.push(buf[3 * p]);
        out.push(buf[3 * p + 1]);
        out.push(buf[3 * p + 2]);
        out.push(255);
        proof {
            assert(out@[4 * p as int] == buf@[3 * p as int]);
            assert(out@[4 * p as int + 1] == buf@[3 * p as int + 1]);
            assert(out@[4 * p as int + 2] == buf@[3 * p as int + 2]);
            assert(out@[4 * p as int + 3] == 255);
        }
        p = p + 1;
    }
    out
}

} // verus!
