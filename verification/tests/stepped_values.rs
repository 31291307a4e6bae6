use mandelbrot::fixed::ONE;
use mandelbrot::stepped::{Stepped, CAP, FINE, UNIT_CAP};

#[test]
fn new_quantity_has_taken_no_step() {
    let q = Stepped::new(3 * ONE);
    assert_eq!(q, Stepped { start: 3 * ONE, steps: 0 });
    assert_eq!(q.to_units(), 3_000_000_000_000);
    assert_eq!(q.to_fine(), 3_000_000_000_000_000_000);
    assert_eq!(FINE, 1_000_000);
    assert_eq!(UNIT_CAP * FINE, CAP);
}

#[test]
fn steps_are_counted_not_rounded() {
    let mut q = Stepped::new(5);
    for k in 1..=1000i64 {
        q.shrink();
        assert_eq!(q, Stepped { start: 5, steps: k });
    }
    for k in 1..=2000i64 {
        q.grow();
        assert_eq!(q, Stepped { start: 5, steps: 1000 - k });
    }
    assert_eq!(q.steps, -1000);
}

#[test]
fn shrink_and_grow_cancel() {
    for start in [1i64, 5, 123_456, 3 * ONE, i64::MAX] {
        let mut q = Stepped::new(start);
        q.shrink();
        q.grow();
        assert_eq!(q, Stepped::new(start));
        q.grow();
        q.shrink();
        assert_eq!(q, Stepped::new(start));
    }
}

#[test]
fn steps_can_be_counted_up_to_the_bounds() {
    assert!(Stepped { start: 1, steps: i64::MAX - 1 }.can_shrink());
    assert!(!Stepped { start: 1, steps: i64::MAX }.can_shrink());
    assert!(Stepped { start: 1, steps: i64::MAX }.can_grow());
    assert!(Stepped { start: 1, steps: i64::MIN + 1 }.can_grow());
    assert!(!Stepped { start: 1, steps: i64::MIN }.can_grow());
    assert!(Stepped { start: 1, steps: i64::MIN }.can_shrink());
}

#[test]
fn units_follow_the_power_of_nine_tenths() {
    let units = |steps: i64| Stepped { start: 3 * ONE, steps }.to_units();
    assert_eq!(units(1), 2_700_000_000_000);
    assert_eq!(units(2), 2_430_000_000_000);
    assert_eq!(units(10), 1_046_035_320_300);
    assert_eq!(units(50), 15_461_325_622);
    assert_eq!(units(100), 79_684_197);
    assert_eq!(units(200), 2_117);
    assert_eq!(units(257), 5);
    assert_eq!(units(300), 0);
    assert_eq!(units(-1), 3_333_333_333_333);
    assert_eq!(units(-2), 3_703_703_703_704);
    assert_eq!(units(-3), 4_115_226_337_449);
    // beyond what an i64 of units holds
    assert_eq!(units(-142), 9_433_761_976_136_522_027);
    assert_eq!(units(-143), 10_481_957_751_262_802_252);
    assert_eq!(units(-150), 21_915_169_743_443_460_018);
}

#[test]
fn units_agree_with_floating_point() {
    for steps in -300i64..=200 {
        let got = Stepped { start: 3 * ONE, steps }.to_units() as f64;
        let exact = 3.0e12 * 0.9f64.powi(steps as i32);
        assert!((got - exact).abs() <= 0.51 + 1e-9 * exact, "{} steps", steps);
    }
}

#[test]
fn fine_values_keep_six_more_digits() {
    assert_eq!(Stepped { start: 3 * ONE, steps: 50 }.to_fine(), 15_461_325_621_960_341);
    assert_eq!(Stepped { start: 3 * ONE, steps: 300 }.to_fine(), 56_219);
    assert_eq!(Stepped { start: 1, steps: -4 }.to_fine(), 1_524_158);
    assert_eq!(Stepped { start: 1, steps: -4 }.to_units(), 2);
    assert_eq!(Stepped { start: 5, steps: 2 }.to_units(), 4);
}

#[test]
fn rounded_values_rest_at_the_cap_and_near_zero() {
    assert_eq!(Stepped { start: 3 * ONE, steps: -427 }.to_units(), UNIT_CAP);
    assert_eq!(Stepped { start: 3 * ONE, steps: -1_000_000 }.to_units(), UNIT_CAP);
    assert_eq!(Stepped { start: 3 * ONE, steps: i64::MIN }.to_fine(), CAP);
    assert_eq!(Stepped { start: -3 * ONE, steps: i64::MIN }.to_fine(), -CAP);
    assert_eq!(Stepped { start: 3 * ONE, steps: 1000 }.to_fine(), 5);
    assert_eq!(Stepped { start: 3 * ONE, steps: i64::MAX }.to_fine(), 5);
    assert_eq!(Stepped { start: 3 * ONE, steps: i64::MAX }.to_units(), 0);
    assert_eq!(Stepped { start: 0, steps: i64::MIN }.to_units(), 0);
    assert_eq!(Stepped { start: -3 * ONE, steps: 1 }.to_units(), -2_700_000_000_000);
}
