use mandelbrot::escape::TerminalPolicy;
use mandelbrot::fixed::ONE;
use mandelbrot::grid::{
    color_sample, generate, generate_at, generate_colored, to_plane, Rgba, Sample,
};
use mandelbrot::stepped::{Stepped, CAP, ONE_FINE, UNIT_CAP};
use mandelbrot::view::ViewState;

#[test]
fn half_steps_give_sixteen_points() {
    let h = ONE / 2;
    let points = generate(ONE, Stepped::new(h));
    let expected = vec![
        (-ONE, -ONE),
        (-h, -ONE),
        (0, -ONE),
        (h, -ONE),
        (-ONE, -h),
        (-h, -h),
        (0, -h),
        (h, -h),
        (-ONE, 0),
        (-h, 0),
        (0, 0),
        (h, 0),
        (-ONE, h),
        (-h, h),
        (0, h),
        (h, h),
    ];
    assert_eq!(points, expected);
}

#[test]
fn rows_run_along_the_first_coordinate() {
    let points = generate(ONE, Stepped::new(ONE));
    assert_eq!(points, vec![(-ONE, -ONE), (0, -ONE), (-ONE, 0), (0, 0)]);
}

#[test]
fn last_sample_lies_below_the_extent() {
    let d = 3 * ONE / 10;
    let points = generate(ONE, Stepped::new(d));
    assert_eq!(points.len(), 49);
    let row: Vec<i64> = points.iter().take(7).map(|p| p.0).collect();
    assert_eq!(
        row,
        vec![
            -1_000_000_000_000,
            -700_000_000_000,
            -400_000_000_000,
            -100_000_000_000,
            200_000_000_000,
            500_000_000_000,
            800_000_000_000
        ]
    );
    assert!(points.iter().all(|p| -ONE <= p.0 && p.0 < ONE && -ONE <= p.1 && p.1 < ONE));
    assert_eq!(points[48], (800_000_000_000, 800_000_000_000));
    assert_eq!(points[7], (-ONE, -700_000_000_000));
}

#[test]
fn coarse_density_gives_one_point() {
    assert_eq!(generate_at(ONE, 2 * ONE as i128), vec![(-ONE, -ONE)]);
    assert_eq!(generate_at(ONE, 2 * ONE as i128 - 1), vec![(-ONE, -ONE), (ONE - 1, -ONE), (-ONE, ONE - 1), (ONE - 1, ONE - 1)]);
    assert_eq!(generate_at(ONE, i64::MAX as i128), vec![(-ONE, -ONE)]);
    assert_eq!(generate_at(ONE, UNIT_CAP), vec![(-ONE, -ONE)]);
    assert_eq!(generate_at(ONE, i128::MAX), vec![(-ONE, -ONE)]);
    assert_eq!(
        generate_at(i64::MAX, i64::MAX as i128),
        vec![(-i64::MAX, -i64::MAX), (0, -i64::MAX), (-i64::MAX, 0), (0, 0)]
    );
    assert_eq!(generate_at(i64::MAX, 2 * (i64::MAX as i128)), vec![(-i64::MAX, -i64::MAX)]);
}

#[test]
fn empty_square_gives_no_points() {
    assert_eq!(generate_at(0, ONE as i128), vec![]);
    assert_eq!(generate_at(-ONE, ONE as i128), vec![]);
    assert_eq!(generate_at(i64::MIN, 1), vec![]);
}

#[test]
fn default_density_gives_two_hundred_samples_a_row() {
    let points = generate(ONE, Stepped::new(ONE / 100));
    assert_eq!(points.len(), 40_000);
    assert_eq!(points[0], (-ONE, -ONE));
    assert_eq!(points[199], (ONE - ONE / 100, -ONE));
    assert_eq!(points[200], (-ONE, -ONE + ONE / 100));
    assert_eq!(points[39_999], (ONE - ONE / 100, ONE - ONE / 100));
}

#[test]
fn plane_coordinate_is_center_plus_offset_times_scale() {
    let one = ONE_FINE;
    assert_eq!(to_plane(0, -ONE, 3 * one), -3 * ONE);
    assert_eq!(to_plane(150_000_000_000, ONE / 2, 27 * one / 10), 1_500_000_000_000);
    assert_eq!(to_plane(-ONE, 0, 3 * one), -ONE);
    assert_eq!(to_plane(0, 1, one / 2), 1);
    assert_eq!(to_plane(0, 1, one / 2 - 1), 0);
    assert_eq!(to_plane(0, -1, one / 2), 0);
    assert_eq!(to_plane(0, -1, one / 2 + 1), -1);
    assert_eq!(to_plane(7, ONE / 2, 0), 7);
    assert_eq!(to_plane(i64::MAX, ONE, one), i64::MAX);
    assert_eq!(to_plane(i64::MIN, ONE, -one), i64::MIN);
    // a scale of less than a unit still moves samples that lie far enough out
    assert_eq!(to_plane(0, ONE, 400_000), 0);
    assert_eq!(to_plane(0, ONE, 500_000), 1);
    assert_eq!(to_plane(0, 10 * ONE, 400_000), 4);
}

#[test]
fn plane_coordinate_of_a_wide_scale() {
    let one = ONE_FINE;
    // a scale beyond what an i64 of units holds
    let wide: i128 = Stepped { start: 3 * ONE, steps: -150 }.to_fine();
    assert_eq!(wide, 21_915_169_743_443_460_018_027_513);
    assert_eq!(to_plane(0, 1, wide), 21_915_170);
    assert_eq!(to_plane(-21_915_170, 1, wide), 0);
    assert_eq!(to_plane(0, -1, wide), -21_915_170);
    assert_eq!(to_plane(0, 1000, wide), 21_915_169_743);
    assert_eq!(to_plane(0, ONE, wide), i64::MAX);
    assert_eq!(to_plane(0, -ONE, wide), i64::MIN);
    assert_eq!(to_plane(i64::MIN, 1, CAP), i64::MAX);
    assert_eq!(to_plane(i64::MAX, -1, CAP), i64::MIN);
    assert_eq!(to_plane(i64::MIN, 2, CAP), i64::MAX);
    assert_eq!(to_plane(i64::MAX, -2, CAP), i64::MIN);
    assert_eq!(to_plane(i64::MAX, 2, -CAP), i64::MIN);
    assert_eq!(to_plane(i64::MIN, i64::MIN, -CAP), i64::MAX);
    assert_eq!(to_plane(5, 0, CAP), 5);
    // the whole part of the scale at the edge of what one product holds
    let edge: i128 = 9_223_372_036_854_775_808 * one;
    assert_eq!(to_plane(0, 1, edge), i64::MAX);
    assert_eq!(to_plane(i64::MIN, 1, edge), 0);
    assert_eq!(to_plane(i64::MIN, 1, edge + one), 1);
    assert_eq!(to_plane(i64::MIN, 2, edge + one), i64::MAX);
    assert_eq!(to_plane(i64::MAX, -1, edge + one), -2);
    assert_eq!(UNIT_CAP * 1_000_000, CAP);
}

#[test]
fn samples_carry_the_fraction_as_green() {
    let view = ViewState::new();
    // the corner of the view is -3 - 3i, which escapes at the first of 100 steps
    let s = color_sample(&view, TerminalPolicy::Zero, -ONE, -ONE);
    assert_eq!(
        s,
        Sample { x: -ONE, y: -ONE, color: Rgba { red: 0, green: ONE / 100, blue: 0, alpha: ONE } }
    );
    // the middle of the view is the origin, which does not escape
    let s = color_sample(&view, TerminalPolicy::Zero, 0, 0);
    assert_eq!(s, Sample { x: 0, y: 0, color: Rgba { red: 0, green: 0, blue: 0, alpha: ONE } });
    let s = color_sample(&view, TerminalPolicy::Full, 0, 0);
    assert_eq!(s, Sample { x: 0, y: 0, color: Rgba { red: 0, green: ONE, blue: 0, alpha: ONE } });
    // half way to the right edge is 1.5, which escapes at the third step
    let s = color_sample(&view, TerminalPolicy::Zero, ONE / 2, 0);
    assert_eq!(s.color, Rgba { red: 0, green: 3 * ONE / 100, blue: 0, alpha: ONE });
}

#[test]
fn coloured_samples_follow_the_lattice() {
    let view = ViewState { density: Stepped::new(ONE / 2), ..ViewState::new() };
    let samples = generate_colored(&view, ONE, TerminalPolicy::Zero);
    let points = generate(ONE, Stepped::new(ONE / 2));
    assert_eq!(samples.len(), 16);
    for (s, p) in samples.iter().zip(points.iter()) {
        assert_eq!((s.x, s.y), *p);
        assert_eq!(*s, color_sample(&view, TerminalPolicy::Zero, p.0, p.1));
    }
    let greens: Vec<i64> = samples.iter().map(|s| s.color.green).collect();
    let e = ONE / 100;
    assert_eq!(
        greens,
        vec![
            e,
            2 * e,
            2 * e,
            2 * e,
            2 * e,
            3 * e,
            3 * e,
            2 * e,
            2 * e,
            0,
            0,
            3 * e,
            2 * e,
            3 * e,
            3 * e,
            2 * e
        ]
    );
}

#[test]
fn coloured_samples_use_the_view() {
    let mut view = ViewState { density: Stepped::new(ONE), ..ViewState::new() };
    view.center_re = 5 * ONE;
    view.max_iterations = 4;
    let samples = generate_colored(&view, ONE, TerminalPolicy::Full);
    // 2 - 3i, 5 - 3i, 2, 5
    let greens: Vec<i64> = samples.iter().map(|s| s.color.green).collect();
    assert_eq!(greens, vec![ONE / 2, ONE / 4, ONE / 2, ONE / 4]);
}

#[test]
fn density_beyond_twice_the_extent_gives_the_one_corner() {
    // from 0.01, enough presses of V bring the density to two and beyond
    for steps in [-51i64, -60, -150, -196, -197, -400, -5000] {
        let density = Stepped { start: ONE / 100, steps };
        assert!(density.to_units() >= 2 * ONE as i128);
        assert_eq!(generate(ONE, density), vec![(-ONE, -ONE)]);
    }
    let density = Stepped { start: ONE / 100, steps: -50 };
    assert!(density.to_units() < 2 * ONE as i128);
    assert_eq!(generate(ONE, density).len(), 4);
}

#[test]
fn samples_follow_a_scale_beyond_the_range_of_the_centre() {
    let view = ViewState {
        center_re: -21_915_170,
        scale: Stepped { start: 3 * ONE, steps: -150 },
        ..ViewState::new()
    };
    // one unit to the right of the middle lies 21915170 units to the right
    // in the plane, which here is the origin
    let s = color_sample(&view, TerminalPolicy::Zero, 1, 0);
    assert_eq!(s.color.green, 0);
    // two units to the right lies on the far side of it, still in the set
    let s = color_sample(&view, TerminalPolicy::Full, 2, 0);
    assert_eq!(s.color.green, ONE);
    // the edge of the view lies far outside
    let s = color_sample(&view, TerminalPolicy::Zero, ONE - 1, 0);
    assert_eq!(s.color.green, ONE / 100);
}

#[test]
fn lattice_steps_by_the_density_rounded_to_the_unit() {
    // 0.5 * 0.9 = 0.45: five samples to the row
    let density = Stepped { start: ONE / 2, steps: 1 };
    let points = generate(ONE, density);
    assert_eq!(points, generate_at(ONE, 450_000_000_000));
    assert_eq!(points.len(), 25);
    assert_eq!(points[1], (-550_000_000_000, -ONE));
    // 0.01 / 0.9^2 = 0.012345679012...
    let density = Stepped { start: ONE / 100, steps: -2 };
    let points = generate(ONE, density);
    assert_eq!(points[1], (-ONE + 12_345_679_012, -ONE));
    assert_eq!(points.len(), 163 * 163);
}
