use mandelbrot::render::render;
use mandelbrot::render::to_rgba;
use mandelbrot::viewport::Bounds;

#[test]
fn buffer_has_three_bytes_per_pixel_row_major() {
    let b = Bounds::new_default();
    let buf = render(&b, 8, 6, 64);
    assert_eq!(buf.len(), 3 * 8 * 6);
}

#[test]
fn render_is_deterministic() {
    let b = Bounds::new_default();
    let first = render(&b, 16, 12, 100);
    let second = render(&b, 16, 12, 100);
    assert_eq!(first, second);
}

#[test]
fn corner_escapes_and_center_is_interior() {
    // Over [-2,2]^2, pixel (0,0) maps to the plane point (-2,-2), which
    // escapes at once: its color is not the interior black. On an odd
    // grid the central pixel maps exactly to the origin, the canonical
    // interior point, and must be black.
    let b = Bounds::new_default();
    let buf = render(&b, 4, 4, 255);
    let corner = (buf[0], buf[1], buf[2]);
    assert_ne!(corner, (0, 0, 0));

    let buf5 = render(&b, 5, 5, 255);
    let mid = (2 * 5 + 2) * 3;
    assert_eq!((buf5[mid], buf5[mid + 1], buf5[mid + 2]), (0, 0, 0));
}

#[test]
fn rgba_expansion_keeps_channels_and_sets_alpha() {
    let b = Bounds::new_default();
    let rgb = render(&b, 4, 4, 32);
    let rgba = to_rgba(&rgb);
    assert_eq!(rgba.len(), 4 * 4 * 4);
    for p in 0..16 {
        assert_eq!(rgba[4 * p], rgb[3 * p]);
        assert_eq!(rgba[4 * p + 1], rgb[3 * p + 1]);
        assert_eq!(rgba[4 * p + 2], rgb[3 * p + 2]);
        assert_eq!(rgba[4 * p + 3], 255);
    }
}
