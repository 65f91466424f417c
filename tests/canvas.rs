use raytracer::canvas;
use raytracer::color;
use raytracer::fixed::SCALE;
use raytracer::pixel::Pixel;

fn fx(v: f64) -> i64 {
    (v * SCALE as f64).round() as i64
}

#[test]
fn init_correctly() {
    let canvas = canvas::new(20, 20);

    assert_eq!(canvas.width(), 20);
    assert_eq!(canvas.height(), 20);
    for i in 0..canvas.height() {
        for j in 0..canvas.width() {
            assert_eq!(canvas.pixel(i, j).color, color::new(fx(0.0), fx(0.0), fx(0.0)));
        }
    }
}

#[test]
fn writing_pixels() {
    let mut canvas = canvas::new(10, 10);
    let red = color::new(fx(1.0), fx(0.0), fx(0.0));
    let c1 = color::new(fx(0.25), fx(0.5), fx(0.75));
    canvas.set_pixel(0, 5, Pixel { color: red });
    canvas.set_pixel(0, 0, Pixel { color: red });
    canvas.set_pixel(3, 4, Pixel { color: c1 });
    canvas.set_pixel(9, 9, Pixel { color: c1 });

    assert_eq!(canvas.pixel(0, 5).color, red);
    assert_eq!(canvas.pixel(3, 4).color, c1);
    assert_eq!(canvas.pixel(9, 9).color, c1);
    assert_eq!(canvas.pixel(0, 0).color, red);
}

#[test]
fn canvas_to_ppm() {
    let mut canvas = canvas::new(3, 3);
    let c1 = color::new(fx(0.1), fx(0.7), fx(0.7));
    let c2 = color::new(fx(-0.5), fx(0.5), fx(1.1));
    let c3 = color::new(fx(0.0), fx(0.0), fx(0.7));
    canvas.set_pixel(0, 1, Pixel { color: c1 });
    canvas.set_pixel(1, 1, Pixel { color: c2 });
    canvas.set_pixel(2, 2, Pixel { color: c3 });

    let ppm = canvas.to_ppm();
    let correct_ppm = "P3\n3 3\n255\n\
                       0 0 0 25 178 178 0 0 0\n\
                       0 0 0 0 127 255 0 0 0\n\
                       0 0 0 0 0 0 0 0 178\n"
        .to_string();
    let mut ppm_lines = ppm.lines();

    assert_eq!(ppm_lines.next(), Some("P3"));
    assert_eq!(ppm_lines.next(), Some("3 3"));
    assert_eq!(ppm_lines.next(), Some("255"));
    assert_eq!(ppm, correct_ppm);
}

#[test]
fn ppm_of_wide_canvas_gives_width_before_height() {
    let canvas = canvas::new(2, 5);
    let ppm = canvas.to_ppm();
    assert_eq!(ppm, "P3\n5 2\n255\n0 0 0 0 0 0 0 0 0 0 0 0 0 0 0\n0 0 0 0 0 0 0 0 0 0 0 0 0 0 0\n");
}

#[test]
fn ppm_of_empty_canvas_is_header_only() {
    let canvas = canvas::new(0, 0);
    assert_eq!(canvas.to_ppm(), "P3\n0 0\n255\n");
}

#[test]
fn ppm_ends_with_single_newline() {
    let mut canvas = canvas::new(1, 2);
    canvas.set_pixel(0, 0, Pixel { color: color::new(fx(1.0), fx(0.5), fx(2.0)) });
    let ppm = canvas.to_ppm();
    assert_eq!(ppm, "P3\n2 1\n255\n255 127 255 0 0 0\n");
    assert!(ppm.ends_with("0\n"));
    assert!(!ppm.ends_with("\n\n"));
}

#[test]
fn setting_a_pixel_keeps_the_others() {
    let mut canvas = canvas::new(2, 2);
    let c = color::new(fx(0.3), fx(0.2), fx(0.1));
    canvas.set_pixel(1, 0, Pixel { color: c });
    assert_eq!(canvas.pixel(1, 0).color, c);
    assert_eq!(canvas.pixel(0, 0).color, color::new(0, 0, 0));
    assert_eq!(canvas.pixel(0, 1).color, color::new(0, 0, 0));
    assert_eq!(canvas.pixel(1, 1).color, color::new(0, 0, 0));
}
