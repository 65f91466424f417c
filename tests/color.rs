use raytracer::color;
use raytracer::fixed::{approx_eq, SCALE};
use raytracer::pixel;

fn fx(v: f64) -> i64 {
    (v * SCALE as f64).round() as i64
}

#[test]
fn new_color() {
    let red = color::new(fx(1.0), fx(0.0), fx(0.0));
    let c1 = color::new(fx(-0.4), fx(0.5), fx(1.7));

    assert!(approx_eq(red.r, fx(1.0)));
    assert!(approx_eq(c1.r, fx(-0.4)));
    assert!(approx_eq(c1.g, fx(0.5)));
    assert!(approx_eq(c1.b, fx(1.7)));
}

#[test]
fn add_colors() {
    let red = color::new(fx(1.0), fx(0.0), fx(0.0));
    let green = color::new(fx(0.0), fx(1.0), fx(0.0));
    let blue = color::new(fx(0.0), fx(0.0), fx(1.0));
    let c1 = red.add(blue);
    let c2 = green.add(blue);
    let c3 = red.add(green);
    let c4 = color::new(fx(3.4), fx(7.1), fx(0.2)).add(color::new(fx(1.2), fx(0.1), fx(0.05)));

    assert_eq!(c1, color::new(fx(1.0), fx(0.0), fx(1.0)));
    assert_eq!(c2, color::new(fx(0.0), fx(1.0), fx(1.0)));
    assert_eq!(c3, color::new(fx(1.0), fx(1.0), fx(0.0)));
    assert_eq!(c4, color::new(fx(4.6), fx(7.2), fx(0.25)));
}

#[test]
fn subtract_colors() {
    let red = color::new(fx(1.0), fx(0.0), fx(0.0));
    let green = color::new(fx(0.0), fx(1.0), fx(0.0));
    let blue = color::new(fx(0.0), fx(0.0), fx(1.0));
    let c1 = red.subtract(blue);
    let c2 = green.subtract(blue);
    let c3 = red.subtract(green);
    let c4 = color::new(fx(4.5), fx(0.21), fx(0.71)).subtract(color::new(fx(0.8), fx(0.02), fx(0.17)));

    assert_eq!(c1, color::new(fx(1.0), fx(0.0), fx(-1.0)));
    assert_eq!(c2, color::new(fx(0.0), fx(1.0), fx(-1.0)));
    assert_eq!(c3, color::new(fx(1.0), fx(-1.0), fx(0.0)));
    assert_eq!(c4, color::new(fx(3.7), fx(0.19), fx(0.54)));
}

#[test]
fn scalar_multiplication() {
    let red = color::new(fx(1.0), fx(0.0), fx(0.0));
    let green = color::new(fx(0.0), fx(1.0), fx(0.0));
    let blue = color::new(fx(0.0), fx(0.0), fx(1.0));
    let c1 = red.scale(fx(0.7));
    let c2 = green.scale(fx(0.2));
    let c3 = blue.scale(fx(1.5));
    let c4 = color::new(fx(0.5), fx(0.8), fx(0.16)).scale(fx(2.0));

    assert_eq!(c1, color::new(fx(0.7), fx(0.0), fx(0.0)));
    assert_eq!(c2, color::new(fx(0.0), fx(0.2), fx(0.0)));
    assert_eq!(c3, color::new(fx(0.0), fx(0.0), fx(1.5)));
    assert_eq!(c4, color::new(fx(1.0), fx(1.6), fx(0.32)));
}

#[test]
fn color_color_multiplication() {
    let red = color::new(fx(1.0), fx(0.0), fx(0.0));
    let green = color::new(fx(0.0), fx(1.0), fx(0.0));
    let blue = color::new(fx(0.0), fx(0.0), fx(1.0));
    let c1 = red.multiply(green);
    let c2 = green.multiply(blue);
    let c3 = color::new(fx(2.0), fx(1.0), fx(0.5)).multiply(color::new(fx(0.72), fx(0.69), fx(0.17)));
    let c4 = color::new(fx(0.46), fx(0.71), fx(0.84)).multiply(color::new(fx(1.0), fx(1.0), fx(1.0)));

    assert_eq!(c1, color::new(fx(0.0), fx(0.0), fx(0.0)));
    assert_eq!(c2, color::new(fx(0.0), fx(0.0), fx(0.0)));
    assert_eq!(c3, color::new(fx(1.44), fx(0.69), fx(0.085)));
    assert_eq!(c4, color::new(fx(0.46), fx(0.71), fx(0.84)));
}

#[test]
fn color_scaling_scenario() {
    let c = color::new(fx(0.2), fx(0.3), fx(0.4)).scale(fx(2.0));
    assert_eq!(c, color::new(fx(0.4), fx(0.6), fx(0.8)));
    assert_eq!((c.r, c.g, c.b), (fx(0.4), fx(0.6), fx(0.8)));
}

#[test]
fn colors_differing_beyond_tolerance_are_unequal() {
    let a = color::new(fx(0.5), fx(0.5), fx(0.5));
    assert_ne!(a, color::new(fx(0.5), fx(0.5), fx(0.5001)));
    assert_eq!(a, color::new(fx(0.5), fx(0.5), fx(0.500001)));
}

#[test]
fn color_text_is_clamped_and_truncated() {
    assert_eq!(color::new(fx(0.1), fx(0.7), fx(0.7)).to_string(), "25 178 178");
    assert_eq!(color::new(fx(-0.5), fx(0.5), fx(1.1)).to_string(), "0 127 255");
    assert_eq!(color::new(fx(1.0), fx(0.0), fx(-3.0)).to_string(), "255 0 0");
    assert_eq!(color::new(fx(0.999), fx(0.004), fx(100.0)).to_string(), "254 1 255");
}

#[test]
fn channel_levels() {
    assert_eq!(color::level(fx(0.5)), 127);
    assert_eq!(color::level(fx(-0.001)), 0);
    assert_eq!(color::level(fx(2.0)), 255);
    assert_eq!(color::level(i64::MAX), 255);
    assert_eq!(color::level(i64::MIN), 0);
}

#[test]
fn pixel_holds_its_color() {
    let p = pixel::new(fx(0.1), fx(0.2), fx(0.3));
    assert_eq!(p.color, color::new(fx(0.1), fx(0.2), fx(0.3)));
}
