use mandelbrot::fixed::ONE;
use mandelbrot::status::{decimal_string, status_chars, status_line};
use mandelbrot::stepped::Stepped;
use mandelbrot::view::{Key, ViewState};

#[test]
fn status_of_the_defaults() {
    assert_eq!(status_line(&ViewState::new()), "0 0 3 100 0.01");
    assert_eq!(status_line(&ViewState::deep_zoom()), "0 -1.78 3 500 0.005");
}

#[test]
fn status_gives_the_imaginary_part_first() {
    let mut v = ViewState::new();
    v.apply(Key::Right);
    v.apply(Key::Enter);
    assert_eq!(status_line(&v), "0 0.15 2.7 100 0.01");
    v.apply(Key::Down);
    v.apply(Key::Z);
    v.apply(Key::C);
    assert_eq!(status_line(&v), "-0.135 0.15 2.7 101 0.009");
}

#[test]
fn status_chars_spell_the_status_line() {
    let v = ViewState::deep_zoom();
    let text: String = status_chars(&v).into_iter().collect();
    assert_eq!(text, status_line(&v));
    assert_eq!(status_chars(&v).len(), 19);
}

#[test]
fn decimals_drop_zeros_at_the_end() {
    assert_eq!(decimal_string(0), "0");
    assert_eq!(decimal_string(ONE), "1");
    assert_eq!(decimal_string(-ONE), "-1");
    assert_eq!(decimal_string(ONE / 2), "0.5");
    assert_eq!(decimal_string(-ONE / 4), "-0.25");
    assert_eq!(decimal_string(120 * ONE + ONE / 1000), "120.001");
    assert_eq!(decimal_string(10 * ONE), "10");
    assert_eq!(decimal_string(100_000_000_000), "0.1");
    assert_eq!(decimal_string(1), "0.000000000001");
    assert_eq!(decimal_string(-1), "-0.000000000001");
    assert_eq!(decimal_string(1_000_000_000_010), "1.00000000001");
    assert_eq!(decimal_string(3_333_333_333_333), "3.333333333333");
    assert_eq!(decimal_string(999_999_999_999), "0.999999999999");
}

#[test]
fn decimals_reach_the_bounds() {
    assert_eq!(decimal_string(i64::MAX), "9223372.036854775807");
    assert_eq!(decimal_string(i64::MIN), "-9223372.036854775808");
}

#[test]
fn negative_bound_on_the_steps_is_a_whole_number() {
    let v = ViewState { max_iterations: -12, ..ViewState::new() };
    assert_eq!(status_line(&v), "0 0 3 -12 0.01");
    let v = ViewState { max_iterations: i64::MIN, ..ViewState::new() };
    assert_eq!(status_line(&v), "0 0 3 -9223372036854775808 0.01");
}

#[test]
fn status_rounds_scale_and_density_to_the_unit() {
    let v = ViewState {
        scale: Stepped { start: 3 * ONE, steps: 50 },
        density: Stepped { start: ONE / 100, steps: -2 },
        ..ViewState::new()
    };
    assert_eq!(status_line(&v), "0 0 0.015461325622 100 0.012345679012");
    let v = ViewState { scale: Stepped { start: 3 * ONE, steps: 300 }, ..ViewState::new() };
    assert_eq!(status_line(&v), "0 0 0 100 0.01");
    let v = ViewState { scale: Stepped { start: 3 * ONE, steps: -150 }, ..ViewState::new() };
    assert_eq!(status_line(&v), "0 0 21915169.743443460018 100 0.01");
    let v = ViewState { scale: Stepped { start: 3 * ONE, steps: -500 }, ..ViewState::new() };
    assert_eq!(status_line(&v), "0 0 100000000000000000000 100 0.01");
}
