use raytrace_rs::{point, vector, view_transform, Camera, Matrix, Matrix4, Scalar, Tuple};

fn fx(v: f64) -> Scalar {
    Scalar::from_raw((v * 1e9).round() as i64)
}

fn fl(s: Scalar) -> f64 {
    s.raw as f64 / 1e9
}

fn pt(x: f64, y: f64, z: f64) -> Tuple<4> {
    point(fx(x), fx(y), fx(z))
}

fn vc(x: f64, y: f64, z: f64) -> Tuple<4> {
    vector(fx(x), fx(y), fx(z))
}

fn assert_almost_eq_mat<const R: usize, const C: usize>(lhs: Matrix<R, C>, rhs: Matrix<R, C>) {
    let eq = Matrix::<R, C>::almost_eq(lhs, rhs);
    assert!(eq, "{:?} it not equal to {:?}", lhs, rhs);
}

fn assert_tuple_within(lhs: Tuple<4>, rhs: [f64; 4], tolerance: f64) {
    for n in 0..4 {
        assert!((fl(lhs[n]) - rhs[n]).abs() <= tolerance, "{:?} is not equal to {:?}", lhs, rhs);
    }
}

#[test]
fn identity_view_transform() {
    let view_transform = view_transform(pt(0.0, 0.0, 0.0), pt(0.0, 0.0, 1.0), vc(0.0, 1.0, 0.0));
    assert_almost_eq_mat(view_transform, Matrix4::identity());
}

#[test]
fn view_transform_move_world() {
    let view_transform = view_transform(pt(0.0, 0.0, 8.0), pt(0.0, 0.0, 9.0), vc(0.0, 1.0, 0.0));
    assert_almost_eq_mat(view_transform, Matrix4::translate(pt(0.0, 0.0, -8.0)));
}

#[test]
fn view_transform_looking_backward_turns_x_and_z() {
    let m = view_transform(pt(0.0, 0.0, 0.0), pt(0.0, 0.0, -1.0), vc(0.0, 1.0, 0.0));
    let expected: Matrix4 = Matrix::new(&[
        fx(-1.0), fx(0.0), fx(0.0), fx(0.0),
        fx(0.0), fx(1.0), fx(0.0), fx(0.0),
        fx(0.0), fx(0.0), fx(-1.0), fx(0.0),
        fx(0.0), fx(0.0), fx(0.0), fx(1.0),
    ]);
    assert_eq!(m, expected);
}

#[test]
fn view_transform_puts_the_target_on_the_z_axis() {
    let from = pt(-3.0, 2.0, 5.5);
    let to = pt(2.0, 0.0, 12.0);
    let m = view_transform(from, to, vc(0.0, 1.0, 0.0));
    let dist = f64::sqrt(25.0 + 4.0 + 42.25);
    assert_tuple_within(m * to, [0.0, 0.0, dist, 1.0], 0.0000001);
    assert_tuple_within(m * from, [0.0, 0.0, 0.0, 1.0], 0.0000001);
}

#[test]
fn ray_through_the_center_of_the_image() {
    let cam = Camera::new(201, 101, fx(1.0), fx(2.0), Matrix4::identity());
    let ray = cam.get_ray(100, 50);
    assert_eq!(ray.origin, pt(0.0, 0.0, 0.0));
    assert_eq!(ray.dir, vc(0.0, 0.0, 1.0));
    assert_eq!(cam.dir(), vc(0.0, 0.0, 1.0));
}

#[test]
fn ray_through_the_corners_of_the_image() {
    let cam = Camera::new(201, 101, fx(1.0), fx(2.0), Matrix4::identity());
    let s = f64::sqrt(6.0);
    assert_tuple_within(cam.get_ray(0, 0).dir, [-2.0 / s, 1.0 / s, 1.0 / s, 0.0], 0.00000001);
    assert_tuple_within(cam.get_ray(200, 100).dir, [2.0 / s, -1.0 / s, 1.0 / s, 0.0], 0.00000001);
    assert_tuple_within(cam.get_ray(200, 0).dir, [2.0 / s, 1.0 / s, 1.0 / s, 0.0], 0.00000001);
}

#[test]
fn ray_of_a_moved_camera() {
    let view = view_transform(pt(0.0, 0.0, 8.0), pt(0.0, 0.0, 9.0), vc(0.0, 1.0, 0.0));
    let cam = Camera::new(201, 101, fx(1.0), fx(2.0), view);
    let ray = cam.get_ray(100, 50);
    assert_eq!(ray.origin, pt(0.0, 0.0, 8.0));
    assert_eq!(ray.dir, vc(0.0, 0.0, 1.0));
}

#[test]
fn camera_keeps_the_inverse_of_its_transform() {
    let view = Matrix4::translate(pt(1.0, 2.0, 3.0));
    let cam = Camera::new(4, 3, fx(0.5), fx(1.5), view);
    assert_eq!(cam.hsize, 4);
    assert_eq!(cam.vsize, 3);
    assert_eq!(cam.fov_tangent, fx(0.5));
    assert_eq!(cam.aspect, fx(1.5));
    assert_eq!(cam.inv_transform, Matrix4::translate(pt(-1.0, -2.0, -3.0)));
}

#[test]
fn camera_of_a_singular_transform() {
    let flat: Matrix4 = Matrix::default();
    assert!(Camera::try_new(4, 3, fx(1.0), fx(1.0), flat).is_none());
    assert!(Camera::try_new(4, 3, fx(1.0), fx(1.0), Matrix4::identity()).is_some());
}
