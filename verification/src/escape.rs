//! Escape-time evaluation of the Mandelbrot iteration `z <- z^2 + c`.
//!
//! Coordinates are fixed-point numbers carrying [`FP_SHIFT`] fractional
//! bits, so every orbit is computed exactly the same way on every run:
//! the evaluator is a pure function of its integer arguments.

use vstd::arithmetic::div_mod::lemma_div_denominator;
use vstd::arithmetic::div_mod::lemma_fundamental_div_mod;
use vstd::arithmetic::power2::lemma2_to64;
use vstd::arithmetic::power2::lemma2_to64_rest;
use vstd::arithmetic::power2::lemma_pow2_pos;
use vstd::arithmetic::power2::lemma_pow2_strictly_increases;
use vstd::arithmetic::power2::lemma_pow2_unfold;
use vstd::arithmetic::power2::pow2;
use vstd::prelude::*;

verus! {

/// Number of fractional bits in a fixed-point coordinate.
pub const FP_SHIFT: u32 = 24;

/// The fixed-point representation of 1.0.
pub const FP_ONE: i64 = 0x100_0000;

/// The fixed-point representation of 8.0: evaluator inputs are confined
/// to the square `[-8, 8] x [-8, 8]` of the complex plane.
pub const FP_COORD_MAX: i64 = 8 * 0x100_0000;

/// Escape threshold `4.0` at the scale of a squared magnitude
/// (`FP_ONE * FP_ONE` stands for 1.0 there).
pub const FP_NORM_LIMIT: i64 = 0x4_0000_0000_0000;

/// Truncating division (rounding toward zero), the rounding that the
/// fixed-point multiplications below use.
pub open spec fn tdiv(n: int, d: int) -> int {
    if n >= 0 {
        n / d
    } else {
        -((-n) / d)
    }
}

/// Real part of one Mandelbrot step `z^2 + c` in fixed point.
pub open spec fn step_re(zr: int, zi: int, cr: int) -> int {
    tdiv(zr * zr - zi * zi, FP_ONE as int) + cr
}

/// Imaginary part of one Mandelbrot step `z^2 + c` in fixed point.
pub open spec fn step_im(zr: int, zi: int, ci: int) -> int {
    tdiv(2 * zr * zi, FP_ONE as int) + ci
}

/// The orbit of `c`: `orbit(c, 0) == c` and each further element applies
/// one Mandelbrot step.
pub open spec fn orbit(cr: int, ci: int, n: nat) -> (int, int)
    decreases n,
{
    if n == 0 {
        (cr, ci)
    } else {
        let z = orbit(cr, ci, (n - 1) as nat);
        (step_re(z.0, z.1, cr), step_im(z.0, z.1, ci))
    }
}

/// Squared magnitude of a fixed-point complex number.
pub open spec fn norm_sq(z: (int, int)) -> int {
    z.0 * z.0 + z.1 * z.1
}

/// Whether the orbit of `c` has left the disc of radius 2 after `n` steps.
pub open spec fn escaped_at(cr: int, ci: int, n: nat) -> bool {
    norm_sq(orbit(cr, ci, n)) > FP_NORM_LIMIT as int
}

pub open spec fn escape_count_from(cr: int, ci: int, k: nat, max: nat) -> nat
    decreases max - k,
{
    if k >= max {
        max
    } else if escaped_at(cr, ci, k) {
        k
    } else {
        escape_count_from(cr, ci, (k + 1) as nat, max)
    }
}

/// The escape count of `c`: the first index `n < max` at which the orbit
/// leaves the disc of radius 2, or `max` if it never does within `max`
/// steps (the point is then presumed interior).
pub open spec fn escape_count(cr: int, ci: int, max: nat) -> nat {
    escape_count_from(cr, ci, 0, max)
}

/// Truncating division of an `i128` by a positive divisor.
pub(crate) fn tdiv_i128(n: i128, d: i128) -> (q: i128)
    requires
        d > 0,
        n > i128::MIN,
    ensures
        q == tdiv(n as int, d as int),
{
    if n >= 0 {
        proof {
            assert((n as u128) / (d as u128) <= n as u128) by (nonlinear_arith)
                requires d as u128 >= 1;
        }
        (n as u128 / d as u128) as i128
    } else {
        let neg: u128 = (-n) as u128;
        proof {
            assert(neg / (d as u128) <= neg) by (nonlinear_arith)
                requires d as u128 >= 1;
        }
        let m: u128 = neg / (d as u128);
        -(m as i128)
    }
}

/// Fixed-point squared magnitude `zr^2 + zi^2` (at scale `FP_ONE^2`).
fn fp_norm_sq(zr: i64, zi: i64) -> (r: i64)
    requires
        -0x2000_0000 <= zr <= 0x2000_0000,
        -0x2000_0000 <= zi <= 0x2000_0000,
    ensures
        r == norm_sq((zr as int, zi as int)),
{
    proof {
        assert(0 <= (zr as int) * (zr as int) <= 0x1000_0000_0000_0000int) by (nonlinear_arith)
            requires -0x2000_0000 <= zr as int <= 0x2000_0000;
        assert(0 <= (zi as int) * (zi as int) <= 0x1000_0000_0000_0000int) by (nonlinear_arith)
            requires -0x2000_0000 <= zi as int <= 0x2000_0000;
    }
    let a: i128 = (zr as i128) * (zr as i128);
    let b: i128 = (zi as i128) * (zi as i128);
    let p: i128 = a + b;
    p as i64
}

/// One Mandelbrot step in fixed point.
fn fp_step(zr: i64, zi: i64, cr: i64, ci: i64) -> (z: (i64, i64))
    requires
        (zr as int) * (zr as int) + (zi as int) * (zi as int) <= 0x4_0000_0000_0000,
        -FP_COORD_MAX <= cr <= FP_COORD_MAX,
        -FP_COORD_MAX <= ci <= FP_COORD_MAX,
    ensures
        z.0 == step_re(zr as int, zi as int, cr as int),
        z.1 == step_im(zr as int, zi as int, ci as int),
        -12 * FP_ONE <= z.0 <= 12 * FP_ONE,
        -12 * FP_ONE <= z.1 <= 12 * FP_ONE,
{
    proof {
        // Each square is nonnegative, so each is below the norm bound, and
        // the cross term obeys `2|ab| <= a^2 + b^2`.
        assert(0 <= (zr as int) * (zr as int) && 0 <= (zi as int) * (zi as int)
            && -0x4_0000_0000_0000int <= 2 * ((zr as int) * (zi as int)) <= 0x4_0000_0000_0000int)
            by (nonlinear_arith)
            requires
                (zr as int) * (zr as int) + (zi as int) * (zi as int) <= 0x4_0000_0000_0000int;
    }
    let sq_diff: i128 = (zr as i128) * (zr as i128) - (zi as i128) * (zi as i128);
    let cross: i128 = 2 * ((zr as i128) * (zi as i128));
    proof {
        assert(0x400_0000int * 0x100_0000 == 0x4_0000_0000_0000int) by (nonlinear_arith);
        lemma_tdiv_bound(sq_diff as int, 0x100_0000, 0x400_0000);
        lemma_tdiv_bound(cross as int, 0x100_0000, 0x400_0000);
        assert(2 * ((zr as int) * (zi as int)) == 2 * (zr as int) * (zi as int))
            by (nonlinear_arith);
    }
    let re: i128 = tdiv_i128(sq_diff, 0x100_0000) + cr as i128;
    let im: i128 = tdiv_i128(cross, 0x100_0000) + ci as i128;
    (re as i64, im as i64)
}

/// `|n| <= b * d` gives `|tdiv(n, d)| <= b`.
proof fn lemma_tdiv_bound(n: int, d: int, b: int)
    requires
        d > 0,
        b >= 0,
        -(b * d) <= n <= b * d,
    ensures
        -b <= tdiv(n, d) <= b,
{
    if n >= 0 {
        assert(n / d <= b && n / d >= 0) by (nonlinear_arith)
            requires d > 0, b >= 0, 0 <= n <= b * d;
    } else {
        assert((-n) / d <= b && (-n) / d >= 0) by (nonlinear_arith)
            requires d > 0, b >= 0, 0 <= -n <= b * d;
    }
}

/// Runs the escape loop, returning the escape count together with the
/// squared magnitude of the orbit at the exit point.
fn escape_loop(cr: i64, ci: i64, max_iter: u32) -> (r: (u32, i64))
    requires
        -FP_COORD_MAX <= cr <= FP_COORD_MAX,
        -FP_COORD_MAX <= ci <= FP_COORD_MAX,
    ensures
        r.0 == escape_count(cr as int, ci as int, max_iter as nat),
        r.0 <= max_iter,
        r.1 == norm_sq(orbit(cr as int, ci as int, r.0 as nat)),
        0 <= r.1 <= 0x120_0000_0000_0000,
        r.0 < max_iter ==> r.1 > FP_NORM_LIMIT,
{
    let mut zr: i64 = cr;
    let mut zi: i64 = ci;
    let mut k: u32 = 0;
    loop
        invariant
            -FP_COORD_MAX <= cr <= FP_COORD_MAX,
            -FP_COORD_MAX <= ci <= FP_COORD_MAX,
            k <= max_iter,
            (zr as int, zi as int) == orbit(cr as int, ci as int, k as nat),
            -12 * FP_ONE <= zr <= 12 * FP_ONE,
            -12 * FP_ONE <= zi <= 12 * FP_ONE,
            forall|j: nat| j < k ==> !escaped_at(cr as int, ci as int, j),
        decreases max_iter - k,
    {
        let ns = fp_norm_sq(zr, zi);
        proof {
            assert(0 <= norm_sq((zr as int, zi as int)) <= 0x120_0000_0000_0000int)
                by (nonlinear_arith)
                requires
                    -0xC00_0000 <= zr as int <= 0xC00_0000,
                    -0xC00_0000 <= zi as int <= 0xC00_0000;
        }
        if !(ns <= FP_NORM_LIMIT && k < max_iter) {
            proof {
                lemma_escape_count_pins(cr as int, ci as int, max_iter as nat, k as nat);
            }
            return (k, ns);
        }
        let z2 = fp_step(zr, zi, cr, ci);
        zr = z2.0;
        zi = z2.1;
        k = k + 1;
    }
}

/// A point whose loop exits with `k <= max`, no earlier escape, and
/// (if `k < max`) an escape at `k`, has escape count exactly `k`.
proof fn lemma_escape_count_pins(cr: int, ci: int, max: nat, k: nat)
    requires
        k <= max,
        forall|j: nat| j < k ==> !escaped_at(cr, ci, j),
        k < max ==> escaped_at(cr, ci, k),
    ensures
        escape_count(cr, ci, max) == k,
{
    lemma_escape_count_pins_from(cr, ci, 0, max, k);
}

proof fn lemma_escape_count_pins_from(cr: int, ci: int, i: nat, max: nat, k: nat)
    requires
        i <= k <= max,
        forall|j: nat| j < k ==> !escaped_at(cr, ci, j),
        k < max ==> escaped_at(cr, ci, k),
    ensures
        escape_count_from(cr, ci, i, max) == k,
    decreases k - i,
{
    if i < k {
        assert(!escaped_at(cr, ci, i));
        lemma_escape_count_pins_from(cr, ci, (i + 1) as nat, max, k);
    }
}

/// Escape-time evaluation: the number of Mandelbrot steps after which
/// the orbit of `c` leaves the disc of radius 2, capped at `max_iter`.
/// A return value of exactly `max_iter` marks a presumed-interior point.
pub fn evaluate(cr: i64, ci: i64, max_iter: u32) -> (r: u32)
    requires
        -FP_COORD_MAX <= cr <= FP_COORD_MAX,
        -FP_COORD_MAX <= ci <= FP_COORD_MAX,
    ensures
        r == escape_count(cr as int, ci as int, max_iter as nat),
        r <= max_iter,
{
    let (k, _ns) = escape_loop(cr, ci, max_iter);
    k
}

/// The origin never escapes: its orbit is constantly zero, so its escape
/// count is the full iteration budget. Together with the color mapper's
/// contract this gives the interior color for the canonical interior
/// point `(0, 0)`.
pub proof fn lemma_origin_interior(max: nat)
    ensures
        escape_count(0, 0, max) == max,
{
    assert forall|j: nat| j < max implies !escaped_at(0, 0, j) by {
        lemma_origin_orbit(j);
        assert(norm_sq((0int, 0int)) == 0);
    }
    lemma_escape_count_pins(0, 0, max, max);
}

proof fn lemma_origin_orbit(n: nat)
    ensures
        orbit(0, 0, n) == (0int, 0int),
    decreases n,
{
    if n > 0 {
        lemma_origin_orbit((n - 1) as nat);
        let z = orbit(0, 0, (n - 1) as nat);
        assert(z.0 == 0 && z.1 == 0);
        assert(step_re(0, 0, 0) == 0) by {
            assert(0int * 0 - 0 * 0 == 0);
            assert(tdiv(0, FP_ONE as int) == 0);
        }
        assert(step_im(0, 0, 0) == 0) by {
            assert(2 * (0int * 0) == 0);
            assert(tdiv(0, FP_ONE as int) == 0);
        }
    }
}

/// Floor of the base-2 logarithm (0 below 2).
pub open spec fn ilog2(x: int) -> nat
    decreases x,
{
    if x < 2 {
        0
    } else {
        (1 + ilog2(x / 2)) as nat
    }
}

/// Base-2 logarithm scaled by 256, interpolated linearly between
/// consecutive powers of two; exact at every power of two.
pub open spec fn lg_q8_spec(x: int) -> int {
    let e = ilog2(x);
    256 * e + (x - pow2(e)) * 256 / pow2(e) as int
}

/// The continuous-coloring correction term `log2(ln |z|)` (scaled by
/// 256), derived from the squared magnitude `nsq` of the escaping orbit
/// element, with the base-2 logarithm approximated by `lg_q8_spec`:
/// `log2 nsq == lg(nsq) - 48*256` after removing the fixed-point scale,
/// and `log2 ln 2 ~ -135/256` converts from base-2 to natural logarithm.
pub open spec fn nu_q8_spec(nsq: int) -> int {
    lg_q8_spec(lg_q8_spec(nsq) - 12288) - 2439
}

/// The smoothed (continuous-coloring) iteration count, scaled by 256.
/// Interior points yield exactly `256 * max` — the sentinel the color
/// mapper tests — while escaping points yield the corrected count
/// `k + 1 - nu`, clamped into `[0, 256 * max - 1]` so that no non-finite
/// or out-of-range correction can ever collide with the sentinel.
pub open spec fn smooth_spec(cr: int, ci: int, max: nat) -> int {
    let k = escape_count(cr, ci, max);
    if k == max {
        256 * max as int
    } else {
        let raw = 256 * k + 256 - nu_q8_spec(norm_sq(orbit(cr, ci, k)));
        if raw < 0 {
            0
        } else if raw > 256 * max - 1 {
            256 * max - 1
        } else {
            raw
        }
    }
}

proof fn lemma_ilog2_unique(x: int, e: nat)
    requires
        pow2(e) <= x < 2 * pow2(e),
    ensures
        ilog2(x) == e,
    decreases e,
{
    lemma_pow2_pos(e);
    if e == 0 {
        assert(pow2(0) == 1) by { lemma2_to64(); }
        assert(x == 1);
    } else {
        lemma_pow2_unfold(e);
        assert(pow2((e - 1) as nat) <= x / 2 < 2 * pow2((e - 1) as nat));
        lemma_ilog2_unique(x / 2, (e - 1) as nat);
        lemma_pow2_pos((e - 1) as nat);
        assert(x >= 2);
    }
}

proof fn lemma_ilog2_ge(x: int, e: nat)
    requires
        pow2(e) <= x,
    ensures
        ilog2(x) >= e,
    decreases e,
{
    lemma_pow2_pos(e);
    if e > 0 {
        lemma_pow2_unfold(e);
        lemma_pow2_pos((e - 1) as nat);
        assert(pow2((e - 1) as nat) <= x / 2);
        lemma_ilog2_ge(x / 2, (e - 1) as nat);
        assert(x >= 2);
    }
}

proof fn lemma_ilog2_bounds(x: int)
    requires
        x >= 1,
    ensures
        pow2(ilog2(x)) <= x < 2 * pow2(ilog2(x)),
    decreases x,
{
    if x < 2 {
        assert(pow2(0) == 1) by { lemma2_to64(); }
    } else {
        lemma_ilog2_bounds(x / 2);
        let e = ilog2(x / 2);
        lemma_pow2_unfold((e + 1) as nat);
        lemma_fundamental_div_mod(x, 2);
    }
}

/// Piecewise-linear base-2 logarithm in fixed point: 8 fractional bits.
fn lg_q8(x: u64) -> (r: u32)
    requires
        1 <= x,
    ensures
        r == lg_q8_spec(x as int),
        r <= 256 * 63 + 255,
{
    let mut e: u32 = 0;
    let mut t: u64 = x;
    let mut p: u64 = 1;
    proof {
        lemma2_to64();
    }
    while t >= 2
        invariant
            1 <= x,
            t == x as int / pow2(e as nat) as int,
            p == pow2(e as nat),
            t >= 1,
            p <= x,
            e <= 63,
        decreases t,
    {
        proof {
            lemma_pow2_unfold((e + 1) as nat);
            lemma_pow2_pos(e as nat);
            lemma_div_denominator(x as int, pow2(e as nat) as int, 2);
            // t >= 2 means pow2(e + 1) <= x, so e + 1 stays below 64.
            assert(2 * pow2(e as nat) <= x) by {
                lemma_fundamental_div_mod(x as int, pow2(e as nat) as int);
                assert((x as int / pow2(e as nat) as int) * pow2(e as nat) as int
                    >= 2 * pow2(e as nat) as int) by (nonlinear_arith)
                    requires
                        x as int / pow2(e as nat) as int >= 2,
                        pow2(e as nat) as int >= 1;
            }
            if e + 1 >= 64 {
                if e + 1 > 64 {
                    lemma_pow2_strictly_increases(64, (e + 1) as nat);
                }
                assert(pow2(64) == 0x10000000000000000) by { lemma2_to64(); }
                assert(false);
            }
        }
        t = t / 2;
        e = e + 1;
        p = p * 2;
    }
    proof {
        lemma_pow2_pos(e as nat);
        lemma_fundamental_div_mod(x as int, p as int);
        // x / p == 1, so p <= x < 2p, making e the floor log.
        assert(p <= x < 2 * p) by {
            assert(x as int == p as int * 1 + x as int % p as int);
        }
        lemma_ilog2_unique(x as int, e as nat);
    }
    let frac: u64 = ((x - p) as u128 * 256 / (p as u128)) as u64;
    proof {
        assert(((x - p) as int * 256) / (p as int) < 256 && ((x - p) as int * 256) / (p as int)
            >= 0) by (nonlinear_arith)
            requires
                0 <= (x - p) as int,
                ((x - p) as int) < p as int,
                p as int >= 1;
    }
    256 * e + frac as u32
}

/// Escape-time evaluation with continuous coloring: the escape count in
/// units of 1/256, corrected by the smoothing term so that colors vary
/// continuously across iteration bands. Exactly `256 * max_iter` marks a
/// presumed-interior point; every escaping point lands strictly below it.
pub fn evaluate_smoothed(cr: i64, ci: i64, max_iter: u32) -> (r: u32)
    requires
        -FP_COORD_MAX <= cr <= FP_COORD_MAX,
        -FP_COORD_MAX <= ci <= FP_COORD_MAX,
        1 <= max_iter <= 0xFFFF,
    ensures
        r == smooth_spec(cr as int, ci as int, max_iter as nat),
        r <= 256 * max_iter,
        r == 256 * max_iter <==> escape_count(cr as int, ci as int, max_iter as nat)
            == max_iter,
{
    let (k, ns) = escape_loop(cr, ci, max_iter);
    if k == max_iter {
        return 256 * max_iter;
    }
    proof {
        lemma2_to64();
        lemma2_to64_rest();
        lemma_ilog2_ge(ns as int, 50);
        lemma_ilog2_bounds(ns as int);
        lemma_pow2_pos(ilog2(ns as int));
        assert((ns as int - pow2(ilog2(ns as int))) * 256 / pow2(ilog2(ns as int)) as int >= 0)
            by (nonlinear_arith)
            requires
                0 <= ns as int - pow2(ilog2(ns as int)),
                pow2(ilog2(ns as int)) as int >= 1;
    }
    let l1: u32 = lg_q8(ns as u64);
    let t: u32 = l1 - 12288;
    let nu: i64 = lg_q8(t as u64) as i64 - 2439;
    let raw: i64 = 256 * (k as i64) + 256 - nu;
    let cap: i64 = 256 * (max_iter as i64) - 1;
    let res: i64 = if raw < 0 {
        0
    } else if raw > cap {
        cap
    } else {
        raw
    };
    res as u32
}

/// A point outside the disc of radius 2 escapes immediately: its escape
/// count is 0, strictly below any positive iteration budget.
pub proof fn lemma_outside_disc_escapes(cr: int, ci: int, max: nat)
    requires
        cr * cr + ci * ci > FP_NORM_LIMIT as int,
        max >= 1,
    ensures
        escape_count(cr, ci, max) == 0,
        escape_count(cr, ci, max) < max,
{
    assert(escaped_at(cr, ci, 0));
    lemma_escape_count_pins(cr, ci, max, 0);
}

} // verus!
