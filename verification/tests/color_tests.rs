use mandelbrot::color::iters_to_color;
use mandelbrot::color::Rgb;

#[test]
fn interior_sentinel_is_black() {
    let c = iters_to_color(255 * 256, 255);
    assert_eq!(c, Rgb { r: 0, g: 0, b: 0 });
    let c = iters_to_color(200 * 256, 200);
    assert_eq!(c, Rgb { r: 0, g: 0, b: 0 });
}

#[test]
fn escaped_counts_follow_the_turbo_gradient() {
    // The mapper must sample TURBO at iter / (256 * max), i.e. at
    // rational position iter over 256 * max + 1 points.
    for iter in [0u32, 1, 100, 12_345, 255 * 256 - 1] {
        let c = iters_to_color(iter, 255);
        let e = colorous::TURBO.eval_rational(iter as usize, 255 * 256 + 1);
        assert_eq!((c.r, c.g, c.b), (e.r, e.g, e.b));
    }
}

#[test]
fn counts_above_the_sentinel_clamp_to_the_gradient_end() {
    let c = iters_to_color(255 * 256 + 77, 255);
    let e = colorous::TURBO.eval_rational(255 * 256, 255 * 256 + 1);
    assert_eq!((c.r, c.g, c.b), (e.r, e.g, e.b));
    // Clamped-high counts are colored, not confused with the interior.
    assert_ne!((c.r, c.g, c.b), (0, 0, 0));
}

#[test]
fn zero_maps_to_the_gradient_start() {
    let c = iters_to_color(0, 255);
    let e = colorous::TURBO.eval_rational(0, 255 * 256 + 1);
    assert_eq!((c.r, c.g, c.b), (e.r, e.g, e.b));
}
