use mandelbrot::color::{Color, BASE_BLUE, BASE_GREEN, BASE_RED, MAX_ITERATIONS, OPAQUE};

fn truncated(base: u8, iteration: u64) -> u8 {
    let t = iteration as f64 / MAX_ITERATIONS as f64;
    (base as f64 * t) as u8
}

#[test]
fn constants_have_their_documented_values() {
    assert_eq!(MAX_ITERATIONS, 50);
    assert_eq!((BASE_RED, BASE_GREEN, BASE_BLUE, OPAQUE), (255, 127, 0, 255));
    assert_eq!(Color::base(), Color { r: 255, g: 127, b: 0, a: 255 });
    assert_eq!(Color::black(), Color { r: 0, g: 0, b: 0, a: 255 });
}

#[test]
fn bounded_orbit_is_black() {
    assert_eq!(Color::from_escape(None), Color::black());
    assert_eq!(Color::from_escape(None), Color { r: 0, g: 0, b: 0, a: 255 });
}

#[test]
fn escape_at_iteration_zero_is_black_too() {
    assert_eq!(Color::from_escape(Some(0)), Color::black());
}

#[test]
fn escape_at_first_iteration_is_dim_but_not_black() {
    let color = Color::from_escape(Some(1));
    assert_eq!(color, Color { r: 5, g: 2, b: 0, a: 255 });
    assert_ne!(color, Color::black());
}

#[test]
fn ramp_truncates_and_never_rounds_up() {
    assert_eq!(Color::from_escape(Some(10)), Color { r: 51, g: 25, b: 0, a: 255 });
    assert_eq!(Color::from_escape(Some(25)), Color { r: 127, g: 63, b: 0, a: 255 });
    assert_eq!(Color::from_escape(Some(30)), Color { r: 153, g: 76, b: 0, a: 255 });
    assert_eq!(Color::from_escape(Some(49)), Color { r: 249, g: 124, b: 0, a: 255 });
}

#[test]
fn ramp_reaches_the_base_color_at_the_iteration_constant() {
    assert_eq!(Color::from_escape(Some(MAX_ITERATIONS)), Color::base());
}

#[test]
fn ramp_saturates_past_the_iteration_constant() {
    assert_eq!(Color::from_escape(Some(51)), Color { r: 255, g: 129, b: 0, a: 255 });
    assert_eq!(Color::from_escape(Some(100)), Color { r: 255, g: 254, b: 0, a: 255 });
    assert_eq!(Color::from_escape(Some(101)), Color { r: 255, g: 255, b: 0, a: 255 });
    assert_eq!(Color::from_escape(Some(12_749)), Color { r: 255, g: 255, b: 0, a: 255 });
    assert_eq!(Color::from_escape(Some(12_750)), Color { r: 255, g: 255, b: 0, a: 255 });
    assert_eq!(Color::from_escape(Some(u64::MAX)), Color { r: 255, g: 255, b: 0, a: 255 });
}

#[test]
fn ramp_agrees_with_truncated_floating_point_products() {
    let mut iterations: Vec<u64> = (0..=20_000).collect();
    iterations.extend([1 << 32, (1 << 53) + 1, u64::MAX - 1, u64::MAX]);
    for iteration in iterations {
        let expected = Color {
            r: truncated(BASE_RED, iteration),
            g: truncated(BASE_GREEN, iteration),
            b: truncated(BASE_BLUE, iteration),
            a: 255,
        };
        assert_eq!(Color::from_escape(Some(iteration)), expected, "iteration {}", iteration);
    }
}

#[test]
fn alpha_is_always_opaque() {
    for iteration in [0, 1, 7, 50, 51, 1000] {
        assert_eq!(Color::from_escape(Some(iteration)).a, 255);
    }
    assert_eq!(Color::from_escape(None).a, 255);
}

#[test]
fn ramp_never_dims_as_the_iteration_grows() {
    let mut previous = Color::from_escape(Some(0));
    for iteration in 1..=300 {
        let color = Color::from_escape(Some(iteration));
        assert!(previous.r <= color.r && previous.g <= color.g && previous.b <= color.b);
        previous = color;
    }
}

#[test]
fn every_escape_after_iteration_zero_has_some_red() {
    for iteration in 1..=300 {
        assert!(Color::from_escape(Some(iteration)).r > 0);
    }
    assert!(Color::from_escape(Some(u64::MAX)).r > 0);
}
