use raytrace_rs::{Canvas, Color, Scalar};

fn fx(v: f64) -> Scalar {
    Scalar::from_raw((v * 1e9).round() as i64)
}

fn fl(s: Scalar) -> f64 {
    s.raw as f64 / 1e9
}

fn col(r: f64, g: f64, b: f64) -> Color {
    Color::new(fx(r), fx(g), fx(b))
}

fn almost_eq(a: f64, b: f64) -> bool {
    (a - b).abs() <= f32::EPSILON as f64
}

fn assert_almost_eq_color(lhs: Color, rhs: Color) {
    let eq1 = almost_eq(fl(lhs.red), fl(rhs.red));
    let eq2 = almost_eq(fl(lhs.green), fl(rhs.green));
    let eq3 = almost_eq(fl(lhs.blue), fl(rhs.blue));
    assert!(eq1 && eq2 && eq3, "{:?} is not equal to {:?}", lhs, rhs);
}

#[test]
fn canvas_create() {
    let canvas = Canvas::new(100, 100, None);
    for x in 0..100 {
        for y in 0..100 {
            let c = canvas.pixel_at(x, y);
            assert_almost_eq_color(c, col(0.0, 0.0, 0.0));
        }
    }
}

#[test]
fn write_pixel_to_canvas() {
    let mut canvas = Canvas::new(10, 20, None);
    let red = col(1.0, 0.0, 0.0);
    canvas.write_pixel(2, 3, red);
    assert_almost_eq_color(canvas.pixel_at(2, 3), red);
}

#[test]
fn color_create() {
    let c = col(-0.5, 0.4, 1.7);
    assert_eq!(c.red, fx(-0.5));
    assert_eq!(c.green, fx(0.4));
    assert_eq!(c.blue, fx(1.7));
}

#[test]
fn add_colors() {
    let c1 = col(0.9, 0.6, 0.75);
    let c2 = col(0.7, 0.1, 0.25);
    assert_almost_eq_color(c1 + c2, col(1.6, 0.7, 1.0));
}

#[test]
fn sub_colors() {
    let c1 = col(0.9, 0.6, 0.75);
    let c2 = col(0.7, 0.1, 0.25);
    assert_almost_eq_color(c1 - c2, col(0.2, 0.5, 0.5));
}

#[test]
fn mul_color_by_scalar() {
    let c = col(0.2, 0.3, 0.4);
    assert_almost_eq_color(c * fx(2.0), col(0.4, 0.6, 0.8));
    assert_almost_eq_color(fx(2.0) * c, col(0.4, 0.6, 0.8));
}

#[test]
fn mul_colors() {
    let c1 = col(1.0, 0.2, 0.4);
    let c2 = col(0.9, 1.0, 0.1);
    assert_almost_eq_color(c1 * c2, col(0.9, 0.2, 0.04));
}

#[test]
fn black_and_white() {
    assert_eq!(Color::black(), col(0.0, 0.0, 0.0));
    assert_eq!(Color::white(), col(1.0, 1.0, 1.0));
}

#[test]
fn canvas_size_and_gamma() {
    let canvas = Canvas::new(10, 20, None);
    assert_eq!(canvas.get_size(), (10, 20));
    assert_eq!(canvas.gamma(), fx(2.2));
    let canvas = Canvas::new(3, 2, Some(fx(1.8)));
    assert_eq!(canvas.gamma(), fx(1.8));
    let empty = Canvas::new(0, 7, None);
    assert_eq!(empty.get_size(), (0, 7));
}

#[test]
fn canvas_write_changes_one_pixel_only() {
    let mut canvas = Canvas::new(4, 3, None);
    let red = col(1.0, 0.0, 0.0);
    canvas.write_pixel(3, 2, red);
    for x in 0..4 {
        for y in 0..3 {
            if (x, y) == (3, 2) {
                assert_eq!(canvas.pixel_at(x, y), red);
            } else {
                assert_eq!(canvas.pixel_at(x, y), Color::black());
            }
        }
    }
}

#[test]
fn canvas_rows_follow_one_another() {
    // the pixel one past the end of a row is the first of the next row
    let mut canvas = Canvas::new(4, 3, None);
    let red = col(1.0, 0.0, 0.0);
    canvas.write_pixel(4, 0, red);
    assert_eq!(canvas.pixel_at(0, 1), red);
}

#[test]
fn canvas_place_to_pixel() {
    assert_eq!(Canvas::get_xy(10, 0), (0, 0));
    assert_eq!(Canvas::get_xy(10, 9), (9, 0));
    assert_eq!(Canvas::get_xy(10, 10), (0, 1));
    assert_eq!(Canvas::get_xy(10, 32), (2, 3));
    assert_eq!(Canvas::get_xy(1, 5), (0, 5));
}
