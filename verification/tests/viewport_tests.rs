use mandelbrot::viewport::scale_about_center;
use mandelbrot::viewport::scale_about_point;
use mandelbrot::viewport::Bounds;

/// Cross-multiplied equality of two rational coordinates.
fn same_coord(n1: i64, d1: i64, n2: i64, d2: i64) -> bool {
    (n1 as i128) * (d2 as i128) == (n2 as i128) * (d1 as i128)
}

fn same_rect(a: &Bounds, b: &Bounds) -> bool {
    same_coord(a.x0n, a.den, b.x0n, b.den)
        && same_coord(a.x1n, a.den, b.x1n, b.den)
        && same_coord(a.y0n, a.den, b.y0n, b.den)
        && same_coord(a.y1n, a.den, b.y1n, b.den)
}

#[test]
fn default_region_is_the_symmetric_square() {
    let b = Bounds::new_default();
    assert_eq!((b.x0n, b.x1n, b.y0n, b.y1n, b.den), (-2, 2, -2, 2, 1));
}

#[test]
fn factor_one_at_center_is_identity() {
    // On a square canvas the default square region is aspect-correct,
    // so a factor-1 zoom about the canvas center returns it unchanged.
    let b = Bounds::new_default();
    let r = scale_about_point(&b, 100, 100, 50, 50, 1, 1);
    assert!(same_rect(&r, &b));
}

#[test]
fn zoom_in_then_out_round_trips() {
    // Factor 2 then factor 1/2 at the same cursor returns the original
    // viewport exactly (rational arithmetic has no rounding to lose).
    let b = Bounds::new_default();
    let zoomed = scale_about_point(&b, 100, 100, 30, 40, 2, 1);
    let back = scale_about_point(&zoomed, 100, 100, 30, 40, 1, 2);
    assert!(same_rect(&back, &b));
}

#[test]
fn result_is_aspect_correct() {
    let b = Bounds::new_default();
    let r = scale_about_point(&b, 800, 600, 123, 45, 2, 1);
    let xr = (r.x1n - r.x0n) as i128;
    let yr = (r.y1n - r.y0n) as i128;
    assert_eq!(xr * 600, yr * 800);

    let c = scale_about_center(0, 0, 1, 1, 1, 2560, 1600);
    let xr = (c.x1n - c.x0n) as i128;
    let yr = (c.y1n - c.y0n) as i128;
    assert_eq!(xr * 1600, yr * 2560);
}

#[test]
fn batch_zoom_centers_and_corrects() {
    // Center (0,0), zoom 1, 2560x1600: y spans [-2, 2] and x is
    // stretched to [-3.2, 3.2] by the 16:10 aspect ratio.
    let r = scale_about_center(0, 0, 1, 1, 1, 2560, 1600);
    assert!(same_coord(r.y0n, r.den, -2, 1));
    assert!(same_coord(r.y1n, r.den, 2, 1));
    assert!(same_coord(r.x0n, r.den, -16, 5));
    assert!(same_coord(r.x1n, r.den, 16, 5));
}

#[test]
fn batch_zoom_divides_the_extent() {
    // Center (1, -1/2), zoom 4, square canvas: half-extent 1/2.
    let r = scale_about_center(2, -1, 2, 4, 1, 400, 400);
    assert!(same_coord(r.x0n, r.den, 1, 2));
    assert!(same_coord(r.x1n, r.den, 3, 2));
    assert!(same_coord(r.y0n, r.den, -1, 1));
    assert!(same_coord(r.y1n, r.den, 0, 1));
}

#[test]
fn cursor_point_stays_fixed_under_zoom() {
    // The plane point under the cursor keeps its screen position: for
    // cursor (25, 75) on a 100x100 canvas over [-2,2]^2, that point is
    // (-1, 1), and it must stay at 1/4 of the new x-extent and 3/4 of
    // the new y-extent.
    let b = Bounds::new_default();
    let r = scale_about_point(&b, 100, 100, 25, 75, 2, 1);
    let anchor_x_offset = ((r.x0n as i128) * 4 + ((r.x1n - r.x0n) as i128)) / 4;
    assert_eq!(anchor_x_offset * 1, -(r.den as i128));
    let anchor_y = (r.y0n as i128) * 4 + 3 * ((r.y1n - r.y0n) as i128);
    assert_eq!(anchor_y, 4 * r.den as i128);
}
