use mandelbrot::escape::{escape_step, evaluate, EscapeResult, TerminalPolicy};
use mandelbrot::fixed::ONE;

#[test]
fn origin_never_escapes() {
    for max in [1i64, 2, 10, 100, 1000] {
        assert_eq!(escape_step(0, 0, max), None);
        let zero = evaluate(0, 0, max, TerminalPolicy::Zero);
        assert_eq!(zero, EscapeResult { escaped: false, fraction: 0 });
        let full = evaluate(0, 0, max, TerminalPolicy::Full);
        assert_eq!(full, EscapeResult { escaped: false, fraction: ONE });
    }
}

#[test]
fn points_of_the_set_stay_bounded() {
    // -2, i, and a point inside the main cardioid all belong to the set.
    assert_eq!(escape_step(-2 * ONE, 0, 1000), None);
    assert_eq!(escape_step(0, ONE, 1000), None);
    assert_eq!(escape_step(3 * ONE / 10, ONE / 2, 1000), None);
    assert_eq!(escape_step(3 * ONE / 16, ONE / 8, 500), None);
    assert_eq!(escape_step(-3 * ONE / 16, -ONE / 8, 500), None);
}

#[test]
fn far_point_escapes_at_first_step() {
    assert_eq!(escape_step(5 * ONE, 0, 100), Some(1));
    assert_eq!(escape_step(0, -5 * ONE, 1), Some(1));
    assert_eq!(escape_step(-3 * ONE, 3 * ONE, 7), Some(1));
    assert_eq!(escape_step(i64::MAX, i64::MIN, 3), Some(1));
    let r = evaluate(5 * ONE, 0, 100, TerminalPolicy::Zero);
    assert_eq!(r, EscapeResult { escaped: true, fraction: ONE / 100 });
}

#[test]
fn point_on_the_circle_does_not_escape_at_first_step() {
    // 4 lies on the circle, not outside it; its square plus 4 does.
    assert_eq!(escape_step(4 * ONE, 0, 1), None);
    assert_eq!(escape_step(4 * ONE, 0, 2), Some(2));
    assert_eq!(escape_step(4 * ONE + 1, 0, 1), Some(1));
}

#[test]
fn escape_step_follows_the_orbit() {
    // 1 -> 2 -> 5
    assert_eq!(escape_step(ONE, 0, 100), Some(3));
    // 0.5 -> 0.75 -> 1.0625 -> 1.62890625 -> 3.1533... -> 10.44...
    assert_eq!(escape_step(ONE / 2, 0, 100), Some(6));
    assert_eq!(escape_step(26 * ONE / 100, 0, 1000), Some(31));
    assert_eq!(escape_step(-75 * ONE / 100, ONE / 10, 10000), Some(34));
}

#[test]
fn escape_step_does_not_depend_on_the_bound() {
    assert_eq!(escape_step(ONE, 0, 2), None);
    for max in [3i64, 4, 10, 1_000_000, i64::MAX] {
        assert_eq!(escape_step(ONE, 0, max), Some(3));
    }
    assert_eq!(escape_step(ONE / 2, 0, 5), None);
    for max in [6i64, 7, 500] {
        assert_eq!(escape_step(ONE / 2, 0, max), Some(6));
    }
}

#[test]
fn fraction_is_step_over_bound() {
    let r = evaluate(ONE / 2, 0, 100, TerminalPolicy::Full);
    assert_eq!(r, EscapeResult { escaped: true, fraction: 60_000_000_000 });
    let r = evaluate(ONE, 0, 7, TerminalPolicy::Zero);
    assert_eq!(r, EscapeResult { escaped: true, fraction: 428_571_428_571 });
    // the last step of the bound is the whole of it
    let r = evaluate(ONE, 0, 3, TerminalPolicy::Zero);
    assert_eq!(r, EscapeResult { escaped: true, fraction: ONE });
    // two thirds round up
    let r = evaluate(4 * ONE, 0, 3, TerminalPolicy::Zero);
    assert_eq!(r, EscapeResult { escaped: true, fraction: 666_666_666_667 });
}

#[test]
fn no_steps_means_no_escape() {
    for max in [0i64, -1, i64::MIN] {
        assert_eq!(escape_step(5 * ONE, 0, max), None);
        let r = evaluate(5 * ONE, 0, max, TerminalPolicy::Zero);
        assert_eq!(r, EscapeResult { escaped: false, fraction: 0 });
        let r = evaluate(5 * ONE, 0, max, TerminalPolicy::Full);
        assert_eq!(r, EscapeResult { escaped: false, fraction: ONE });
    }
}

#[test]
fn evaluation_is_deterministic() {
    let first = evaluate(-75 * ONE / 100, ONE / 10, 500, TerminalPolicy::Zero);
    let second = evaluate(-75 * ONE / 100, ONE / 10, 500, TerminalPolicy::Zero);
    assert_eq!(first, second);
    assert_eq!(first, EscapeResult { escaped: true, fraction: 68_000_000_000 });
}

fn reference(a: f64, b: f64, max: u32) -> Option<u32> {
    let (mut x, mut y) = (0.0f64, 0.0f64);
    for n in 1..=max {
        let xx = x * x - y * y + a;
        let yy = 2.0 * x * y + b;
        x = xx;
        y = yy;
        if x * x + y * y > 16.0 {
            return Some(n);
        }
    }
    None
}

#[test]
fn fixed_point_agrees_with_floating_point() {
    // points well away from the boundary of the set
    let points = [(1.0, 0.0), (0.5, 0.0), (0.0, 0.0), (-1.0, 0.0), (0.4, 0.4), (-1.5, 0.5), (2.5, -1.0)];
    for (a, b) in points {
        let fa = (a * ONE as f64) as i64;
        let fb = (b * ONE as f64) as i64;
        let got = escape_step(fa, fb, 200).map(|n| n as u32);
        assert_eq!(got, reference(a, b, 200));
    }
}

#[test]
fn mirror_images_evaluate_alike() {
    let points = [
        (ONE / 4, 1),
        (-75 * ONE / 100, ONE / 10),
        (3 * ONE / 10, 6 * ONE / 10),
        (-ONE, 3 * ONE / 10),
        (37 * ONE / 100, 2 * ONE / 10),
        (ONE, ONE),
        (0, 5 * ONE),
    ];
    for (a, b) in points {
        assert_eq!(escape_step(a, -b, 300), escape_step(a, b, 300));
        for policy in [TerminalPolicy::Zero, TerminalPolicy::Full] {
            assert_eq!(evaluate(a, -b, 300, policy), evaluate(a, b, 300, policy));
        }
    }
    assert_eq!(escape_step(3 * ONE / 10, 6 * ONE / 10, 300), Some(16));
    assert_eq!(escape_step(-ONE, -3 * ONE / 10, 300), Some(36));
}
