use mandelbrot::escape::evaluate;
use mandelbrot::escape::evaluate_smoothed;
use mandelbrot::escape::FP_ONE;

#[test]
fn origin_is_interior() {
    assert_eq!(evaluate(0, 0, 255), 255);
    assert_eq!(evaluate_smoothed(0, 0, 255), 255 * 256);
}

#[test]
fn origin_is_interior_at_other_budgets() {
    assert_eq!(evaluate(0, 0, 1), 1);
    assert_eq!(evaluate(0, 0, 200), 200);
    assert_eq!(evaluate_smoothed(0, 0, 200), 200 * 256);
}

#[test]
fn minus_one_is_interior() {
    // The orbit of -1 alternates between -1 and 0: bounded forever.
    assert_eq!(evaluate(-FP_ONE, 0, 255), 255);
    assert_eq!(evaluate_smoothed(-FP_ONE, 0, 255), 255 * 256);
}

#[test]
fn far_point_escapes_immediately() {
    // (3, 3) lies outside the disc of radius 2.
    let c = 3 * FP_ONE;
    assert_eq!(evaluate(c, c, 255), 0);
    let s = evaluate_smoothed(c, c, 255);
    assert!(s < 255 * 256);
}

#[test]
fn smoothed_stays_in_range_for_escaping_points() {
    let probes: [(i64, i64); 4] = [
        (3 * FP_ONE, 3 * FP_ONE),
        (FP_ONE, FP_ONE),
        (FP_ONE / 2, FP_ONE),
        (-2 * FP_ONE, -2 * FP_ONE),
    ];
    for (cr, ci) in probes {
        assert!(evaluate(cr, ci, 255) < 255, "probe must escape");
        let s = evaluate_smoothed(cr, ci, 255);
        assert!(s < 255 * 256, "escaping point must stay below the sentinel");
    }
}

#[test]
fn one_plus_i_escapes_after_one_step() {
    // z0 = 1+i has |z0|^2 = 2 <= 4; one step gives 1+3i with norm 10 > 4.
    assert_eq!(evaluate(FP_ONE, FP_ONE, 255), 1);
}

#[test]
fn budget_caps_the_count() {
    // Whatever the point, the count never exceeds the budget.
    let s = evaluate(FP_ONE / 3, FP_ONE / 3, 7);
    assert!(s <= 7);
}
