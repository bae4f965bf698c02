use mandelbrot::session::Session;
use mandelbrot::session::DEBOUNCE_MS;

#[test]
fn new_session_viewport_is_aspect_correct() {
    let s = Session::new(800, 600).expect("session");
    let b = s.bounds;
    let xr = (b.x1n - b.x0n) as i128;
    let yr = (b.y1n - b.y0n) as i128;
    // The committed viewport is quantized to the fixed session
    // denominator, so the exact aspect identity holds up to one
    // quantization step per coordinate.
    let diff = xr * 600 - yr * 800;
    assert!(diff.abs() <= 2 * 600 + 2 * 800, "aspect off by {diff}");
    assert!(s.pending.is_none());
}

#[test]
fn debounce_commits_only_the_second_event() {
    // Two zoom events 50 ms apart inside a 200 ms window: the first
    // timer is canceled, exactly one render happens, and the committed
    // viewport reflects only the second event's parameters.
    let mut s = Session::new(800, 600).expect("session");
    let initial = s.bounds;

    let e1 = s.on_wheel(0, 400, 300, true);
    assert_eq!(e1.cancel, None);
    let t1 = e1.schedule.expect("first timer");
    assert_eq!(e1.deadline_ms, DEBOUNCE_MS);
    assert_eq!(s.bounds, initial, "wheel input must not commit");

    let e2 = s.on_wheel(50, 200, 150, true);
    assert_eq!(e2.cancel, Some(t1), "the first timer is superseded");
    let t2 = e2.schedule.expect("second timer");
    assert_ne!(t1, t2);
    assert_eq!(e2.deadline_ms, 50 + DEBOUNCE_MS);
    assert_eq!(s.bounds, initial, "wheel input must not commit");

    // A stale timer must not fire anything.
    assert!(s.on_timer(t1).is_none());
    assert_eq!(s.bounds, initial);

    // The live timer commits exactly once.
    let cmd = s.on_timer(t2).expect("one render");
    assert_eq!(cmd.width, 800);
    assert_eq!(cmd.height, 600);
    assert_eq!(s.bounds, cmd.bounds);
    assert!(s.pending.is_none());
    assert!(s.on_timer(t2).is_none(), "no second render");

    // The committed viewport equals what the second event alone gives.
    let mut fresh = Session::new(800, 600).expect("session");
    let ef = fresh.on_wheel(50, 200, 150, true);
    let tf = ef.schedule.expect("timer");
    let cmd_fresh = fresh.on_timer(tf).expect("render");
    assert_eq!(cmd.bounds, cmd_fresh.bounds);
}

#[test]
fn zoom_in_narrows_the_viewport() {
    let mut s = Session::new(640, 480).expect("session");
    let before = s.bounds;
    let e = s.on_wheel(0, 320, 240, true);
    let t = e.schedule.expect("timer");
    let cmd = s.on_timer(t).expect("render");
    let old_xr = (before.x1n - before.x0n) as i128 * cmd.bounds.den as i128;
    let new_xr = (cmd.bounds.x1n - cmd.bounds.x0n) as i128 * before.den as i128;
    assert!(new_xr < old_xr, "factor 2 must narrow the rectangle");
}

#[test]
fn deep_zoom_eventually_ignores_input_instead_of_committing_wrongly() {
    // Zooming in forever must at some point hit the representation's
    // deep-zoom limit; from then on input is ignored, never committed
    // as a collapsed rectangle.
    let mut s = Session::new(800, 600).expect("session");
    let mut ignored = false;
    for i in 0..64 {
        let e = s.on_wheel(i * 1000, 400, 300, true);
        match e.schedule {
            Some(t) => {
                let cmd = s.on_timer(t).expect("render");
                assert!(cmd.bounds.x0n < cmd.bounds.x1n);
                assert!(cmd.bounds.y0n < cmd.bounds.y1n);
            }
            None => {
                ignored = true;
                break;
            }
        }
    }
    assert!(ignored, "the deep-zoom limit must be reached and refused");
}
