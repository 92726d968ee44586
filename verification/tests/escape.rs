use mandelbrot::color::Color;
use mandelbrot::escape::{escape_time, evaluate};
use num::complex::Complex64;
use num::pow::Pow;

const ESCAPE_RADIUS: f64 = 2.0;

fn outside(z: Complex64) -> bool {
    z.norm() > ESCAPE_RADIUS
}

fn escape_of(re: f64, im: f64, exponent: f64, budget: u64) -> Option<u64> {
    let c = Complex64::new(re, im);
    escape_time(Complex64::new(0.0, 0.0), budget, &outside, &|z: Complex64| z.pow(exponent) + c)
}

#[test]
fn origin_never_escapes_within_any_budget() {
    for budget in [0, 1, 2, 50, 1000] {
        assert_eq!(escape_of(0.0, 0.0, 2.0, budget), None);
    }
}

#[test]
fn origin_renders_black() {
    let c = Complex64::new(0.0, 0.0);
    let color = evaluate(Complex64::new(0.0, 0.0), 50, &outside, &|z: Complex64| z.pow(2.0) + c);
    assert_eq!(color, Color { r: 0, g: 0, b: 0, a: 255 });
}

#[test]
fn three_escapes_on_iteration_one() {
    assert_eq!(escape_of(3.0, 0.0, 2.0, 50), Some(1));
    assert_eq!(escape_of(3.0, 0.0, 2.0, 2), Some(1));
}

#[test]
fn three_renders_with_brightness_one_fiftieth() {
    let c = Complex64::new(3.0, 0.0);
    let color = evaluate(Complex64::new(0.0, 0.0), 50, &outside, &|z: Complex64| z.pow(2.0) + c);
    assert_eq!(color, Color { r: 5, g: 2, b: 0, a: 255 });
}

#[test]
fn brightness_is_normalized_by_the_constant_and_not_by_the_budget() {
    let c = Complex64::new(3.0, 0.0);
    for budget in [2, 10, 50, 400] {
        let color = evaluate(Complex64::new(0.0, 0.0), budget, &outside, &|z: Complex64| z.pow(2.0) + c);
        assert_eq!(color, Color { r: 5, g: 2, b: 0, a: 255 });
    }
}

#[test]
fn escape_past_the_budget_is_not_seen() {
    assert_eq!(escape_of(3.0, 0.0, 2.0, 1), None);
    assert_eq!(escape_of(3.0, 0.0, 2.0, 0), None);
}

#[test]
fn starting_point_is_tested_at_iteration_zero() {
    let found = escape_time(5u32, 10, &|n: u32| n > 4, &|n: u32| n);
    assert_eq!(found, Some(0));
    let none = escape_time(5u32, 0, &|n: u32| n > 4, &|n: u32| n);
    assert_eq!(none, None);
}

#[test]
fn escape_time_counts_steps_before_the_first_escape() {
    let doubling = |n: u32| n * 2;
    assert_eq!(escape_time(1u32, 50, &|n: u32| n > 100, &doubling), Some(7));
    assert_eq!(escape_time(1u32, 8, &|n: u32| n > 100, &doubling), Some(7));
    assert_eq!(escape_time(1u32, 7, &|n: u32| n > 100, &doubling), None);
}

#[test]
fn escape_time_stops_at_the_first_escape() {
    let wave = |n: u32| (n + 1) % 4;
    assert_eq!(escape_time(0u32, 50, &|n: u32| n == 3, &wave), Some(3));
    assert_eq!(escape_time(0u32, 50, &|n: u32| n == 9, &wave), None);
}

#[test]
fn non_integral_exponent_is_accepted() {
    assert_eq!(escape_of(0.0, 0.0, 2.5, 50), None);
    assert_eq!(escape_of(3.0, 0.0, 2.5, 50), Some(1));
    assert_eq!(escape_of(1.0, 1.0, 3.7, 50), Some(2));
}

#[test]
fn evaluate_is_the_ramp_of_the_escape_time() {
    let doubling = |n: u32| n * 2;
    let color = evaluate(1u32, 50, &|n: u32| n > 100, &doubling);
    assert_eq!(color, Color::from_escape(Some(7)));
    assert_eq!(color, Color { r: 35, g: 17, b: 0, a: 255 });
}

#[test]
fn escape_time_is_the_same_on_every_call() {
    for (re, im) in [(0.0, 0.0), (3.0, 0.0), (-0.75, 0.1), (0.3, 0.5), (-2.0, 0.0)] {
        assert_eq!(escape_of(re, im, 2.0, 50), escape_of(re, im, 2.0, 50));
    }
}

#[test]
fn larger_budget_never_changes_an_escape_already_found() {
    for (re, im) in [(3.0, 0.0), (1.0, 1.0), (0.5, 0.5), (-0.75, 0.3)] {
        if let Some(iteration) = escape_of(re, im, 2.0, 50) {
            assert_eq!(escape_of(re, im, 2.0, 500), Some(iteration));
        }
    }
}
