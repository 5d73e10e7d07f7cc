use raytrace_rs::{point, Matrix, Matrix2, Matrix3, Matrix4, Scalar, SingularMatrixError, Tuple};

fn fx(v: f64) -> Scalar {
    Scalar::from_raw((v * 1e9).round() as i64)
}

fn fl(s: Scalar) -> f64 {
    s.raw as f64 / 1e9
}

fn mat<const R: usize, const C: usize>(values: &[f64]) -> Matrix<R, C> {
    let mut v = Vec::new();
    for x in values {
        v.push(fx(*x));
    }
    Matrix::new(&v)
}

fn almost_eq(a: f64, b: f64) -> bool {
    (a - b).abs() <= f32::EPSILON as f64
}

fn assert_almost_eq_tuple<const N: usize>(lhs: Tuple<N>, rhs: Tuple<N>) {
    for n in 0..N {
        assert!(almost_eq(fl(lhs[n]), fl(rhs[n])), "{:?} is not equal to {:?}", lhs, rhs);
    }
}

fn assert_almost_eq_mat<const R: usize, const C: usize>(lhs: Matrix<R, C>, rhs: Matrix<R, C>) {
    let eq = Matrix::<R, C>::almost_eq(lhs, rhs);
    assert!(eq, "{:?} it not equal to {:?}", lhs, rhs);
}

fn assert_mat_within<const R: usize, const C: usize>(
    lhs: Matrix<R, C>,
    rhs: Matrix<R, C>,
    tolerance: f64,
) {
    for r in 0..R {
        for c in 0..C {
            assert!(
                (fl(lhs[(r, c)]) - fl(rhs[(r, c)])).abs() <= tolerance,
                "{:?} it not equal to {:?}",
                lhs,
                rhs
            );
        }
    }
}

#[test]
fn create_4x4_matrix() {
    let m: Matrix4 = mat(&[
        1.0, 2.0, 3.0, 4.0, //
        5.5, 6.5, 7.5, 8.5, //
        9.0, 10.0, 11.0, 12.0, //
        13.5, 14.5, 15.5, 16.5,
    ]);

    assert_eq!(m[(0, 0)], fx(1.0));
    assert_eq!(m[(1, 0)], fx(5.5));
    assert_eq!(m[(1, 2)], fx(7.5));
    assert_eq!(m[(2, 2)], fx(11.0));
    assert_eq!(m[(3, 0)], fx(13.5));
    assert_eq!(m[(3, 2)], fx(15.5));
}

#[test]
fn access_2x3_matrix() {
    let m: Matrix<2, 3> = mat(&[
        1.0, 2.0, 3.0, //
        4.0, 5.0, 6.0,
    ]);

    assert_eq!(m[(0, 0)], fx(1.0));
    assert_eq!(m[(0, 1)], fx(2.0));
    assert_eq!(m[(0, 2)], fx(3.0));
    assert_eq!(m[(1, 0)], fx(4.0));
    assert_eq!(m[(1, 1)], fx(5.0));
    assert_eq!(m[(1, 2)], fx(6.0));
}

#[test]
fn matrix_equal() {
    let m1: Matrix<2, 2> = mat(&[1.0, 2.0, 3.0, 4.0]);
    let m2: Matrix<2, 2> = mat(&[1.0, 2.0, 3.0, 4.0]);

    assert_almost_eq_mat(m1, m2);
}

#[test]
fn matrix_not_equal() {
    let m1: Matrix<2, 2> = mat(&[1.0, 2.0, 3.0, 4.0]);
    let m2: Matrix<2, 2> = mat(&[4.0, 3.0, 2.0, 1.0]);

    assert!(!Matrix::almost_eq(m1, m2));
}

#[test]
fn mul_two_matrix_diff_size() {
    let m1: Matrix<2, 3> = mat(&[1.0, 2.0, 3.0, 4.0, 5.0, 6.0]);
    let m2: Matrix<3, 2> = mat(&[1.0, 2.0, 3.0, 4.0, 5.0, 6.0]);

    let expected: Matrix2 = mat(&[22.0, 28.0, 49.0, 64.0]);
    assert_almost_eq_mat(m1 * m2, expected);
}

#[test]
fn mul_two_matrices() {
    let m1: Matrix4 = mat(&[
        1.0, 2.0, 3.0, 4.0, //
        5.0, 6.0, 7.0, 8.0, //
        9.0, 8.0, 7.0, 6.0, //
        5.0, 4.0, 3.0, 2.0,
    ]);

    let m2: Matrix4 = mat(&[
        -2.0, 1.0, 2.0, 3.0, //
        3.0, 2.0, 1.0, -1.0, //
        4.0, 3.0, 6.0, 5.0, //
        1.0, 2.0, 7.0, 8.0,
    ]);

    let result: Matrix4 = mat(&[
        20.0, 22.0, 50.0, 48.0, //
        44.0, 54.0, 114.0, 108.0, //
        40.0, 58.0, 110.0, 102.0, //
        16.0, 26.0, 46.0, 42.0,
    ]);

    assert_almost_eq_mat(m1 * m2, result);
}

#[test]
fn matrix_multiply_by_tuple() {
    let m: Matrix4 = mat(&[
        1.0, 2.0, 3.0, 4.0, //
        2.0, 4.0, 4.0, 2.0, //
        8.0, 6.0, 4.0, 1.0, //
        0.0, 0.0, 0.0, 1.0,
    ]);

    let v = point(fx(1.0), fx(2.0), fx(3.0));
    assert_almost_eq_tuple(m * v, point(fx(18.0), fx(24.0), fx(33.0)));
}

#[test]
fn multiply_matrix_by_identity_matrix() {
    let m1: Matrix4 = mat(&[
        1.0, 2.0, 3.0, 4.0, 2.0, 4.0, 4.0, 2.0, 8.0, 6.0, 4.0, 1.0, 0.0, 0.0, 0.0, 1.0,
    ]);

    let m2: Matrix4 = Matrix::identity();

    assert!(m1 * m2 == m1);
}

#[test]
fn transpose_matrix() {
    let m: Matrix<2, 3> = mat(&[1.0, 2.0, 3.0, 4.0, 5.0, 6.0]);
    let expected: Matrix<3, 2> = mat(&[1.0, 4.0, 2.0, 5.0, 3.0, 6.0]);

    assert!(m.transpose() == expected);
}

#[test]
fn submatrix() {
    let m: Matrix3 = mat(&[
        1.0, 5.0, 0.0, //
        -3.0, 2.0, 7.0, //
        0.0, 6.0, -3.0,
    ]);

    let expected: Matrix2 = mat(&[
        -3.0, 2.0, //
        0.0, 6.0,
    ]);

    assert_almost_eq_mat(m.submatrix(0, 2), expected);

    let m: Matrix4 = mat(&[
        -6.0, 1.0, 1.0, 6.0, //
        -8.0, 5.0, 8.0, 6.0, //
        -1.0, 0.0, 8.0, 2.0, //
        -7.0, 1.0, -1.0, 1.0,
    ]);

    let expected: Matrix3 = mat(&[
        -6.0, 1.0, 6.0, //
        -8.0, 8.0, 6.0, //
        -7.0, -1.0, 1.0,
    ]);

    assert_almost_eq_mat(m.submatrix(2, 1), expected);
}

#[test]
fn minor_of_matrix3() {
    let m: Matrix3 = mat(&[
        3.0, 5.0, 0.0, //
        2.0, -1.0, -7.0, //
        6.0, -1.0, 5.0,
    ]);

    assert_eq!(m.minor(0, 0), fx(-12.0));
    assert_eq!(m.cofactor(0, 0), fx(-12.0));
    assert_eq!(m.minor(1, 0), fx(25.0));
    assert_eq!(m.cofactor(1, 0), fx(-25.0));
}

#[test]
fn determinant_of_matrix3() {
    let m: Matrix3 = mat(&[
        1.0, 2.0, 6.0, //
        -5.0, 8.0, -4.0, //
        2.0, 6.0, 4.0,
    ]);

    assert_eq!(m.determinant(), fx(-196.0));
}

#[test]
fn determinant_of_matrix4() {
    let m: Matrix4 = mat(&[
        -2.0, -8.0, 3.0, 5.0, //
        -3.0, 1.0, 7.0, 3.0, //
        1.0, 2.0, -9.0, 6.0, //
        -6.0, 7.0, 7.0, -9.0,
    ]);

    assert_eq!(m.cofactor(0, 0), fx(690.0));
    assert_eq!(m.cofactor(0, 1), fx(447.0));
    assert_eq!(m.cofactor(0, 2), fx(210.0));
    assert_eq!(m.cofactor(0, 3), fx(51.0));
    assert_eq!(m.determinant(), fx(-4071.0));
}

#[test]
fn inverse_of_matrix4() {
    let m: Matrix4 = mat(&[
        -5.0, 2.0, 6.0, -8.0, //
        1.0, -5.0, 1.0, 8.0, //
        7.0, 7.0, -6.0, -7.0, //
        1.0, -3.0, 7.0, 4.0,
    ]);

    assert_eq!(m.determinant(), fx(532.0));
    assert_eq!(m.cofactor(2, 3), fx(-160.0));
    assert_eq!(m.cofactor(3, 2), fx(105.0));

    let expected: Matrix4 = mat(&[
        0.21805, 0.45113, 0.24060, -0.04511, //
        -0.80827, -1.45677, -0.44361, 0.52068, //
        -0.07895, -0.22368, -0.05263, 0.19737, //
        -0.52256, -0.81391, -0.30075, 0.30639,
    ]);

    // the expected entries are given to five decimal places
    assert_mat_within(m.inverse().unwrap(), expected, 0.00001);
}

#[test]
fn inverse_of_matrix4_exact_entries() {
    let m: Matrix4 = mat(&[
        -5.0, 2.0, 6.0, -8.0, //
        1.0, -5.0, 1.0, 8.0, //
        7.0, 7.0, -6.0, -7.0, //
        1.0, -3.0, 7.0, 4.0,
    ]);
    let inv = m.inverse().unwrap();
    // entry (3, 2) is cofactor(2, 3) / det = -160 / 532, entry (2, 3) is 105 / 532
    assert_eq!(inv[(3, 2)].raw, -300_751_879);
    assert_eq!(inv[(2, 3)].raw, 197_368_421);
    // entry (0, 0) is 116 / 532
    assert_eq!(inv[(0, 0)].raw, 218_045_112);
}

#[test]
fn inverse_of_a_singular_matrix_fails() {
    let m: Matrix4 = mat(&[
        -4.0, 2.0, -2.0, -3.0, //
        9.0, 6.0, 2.0, 6.0, //
        0.0, -5.0, 1.0, -5.0, //
        0.0, 0.0, 0.0, 0.0,
    ]);
    assert_eq!(m.determinant(), fx(0.0));
    assert_eq!(m.inverse(), Err(SingularMatrixError));

    let z3: Matrix3 = Matrix::default();
    assert_eq!(z3.inverse(), Err(SingularMatrixError));
    let z2: Matrix2 = Matrix::default();
    assert_eq!(z2.inverse(), Err(SingularMatrixError));
}

#[test]
fn a_determinant_within_epsilon_counts_as_zero() {
    // the determinant is 119 raw units: singular
    let m: Matrix2 = Matrix::new(&[
        Scalar::from_raw(119),
        Scalar::from_raw(0),
        Scalar::from_raw(0),
        Scalar::from_raw(1_000_000_000),
    ]);
    assert_eq!(m.determinant().raw, 119);
    assert!(m.inverse().is_err());
    // 120 raw units: not singular
    let m: Matrix2 = Matrix::new(&[
        Scalar::from_raw(120),
        Scalar::from_raw(0),
        Scalar::from_raw(0),
        Scalar::from_raw(1_000_000_000),
    ]);
    assert!(m.inverse().is_ok());
    let m: Matrix2 = Matrix::new(&[
        Scalar::from_raw(-120),
        Scalar::from_raw(0),
        Scalar::from_raw(0),
        Scalar::from_raw(1_000_000_000),
    ]);
    assert!(m.inverse().is_ok());
}

#[test]
fn inverse_of_matrix2_and_matrix3() {
    let m: Matrix2 = mat(&[4.0, 7.0, 2.0, 6.0]);
    assert_eq!(m.determinant(), fx(10.0));
    let inv = m.inverse().unwrap();
    let expected: Matrix2 = mat(&[0.6, -0.7, -0.2, 0.4]);
    assert_eq!(inv, expected);

    let m: Matrix3 = mat(&[
        2.0, 0.0, 0.0, //
        0.0, 4.0, 0.0, //
        0.0, 0.0, 5.0,
    ]);
    assert_eq!(m.determinant(), fx(40.0));
    let expected: Matrix3 = mat(&[
        0.5, 0.0, 0.0, //
        0.0, 0.25, 0.0, //
        0.0, 0.0, 0.2,
    ]);
    assert_eq!(m.inverse().unwrap(), expected);
}

#[test]
fn cofactor_of_matrix2() {
    let m: Matrix2 = mat(&[1.0, 2.0, 3.0, 4.0]);
    assert_eq!(m.cofactor(0, 0), fx(4.0));
    assert_eq!(m.cofactor(0, 1), fx(-3.0));
    assert_eq!(m.cofactor(1, 0), fx(-2.0));
    assert_eq!(m.cofactor(1, 1), fx(1.0));
    // any other row or column counts as the second
    assert_eq!(m.cofactor(5, 0), fx(-2.0));
    assert_eq!(m.cofactor(5, 7), fx(1.0));
}

#[test]
fn inverting_twice_gives_the_matrix_back() {
    let m: Matrix4 = mat(&[
        8.0, -5.0, 9.0, 2.0, //
        7.0, 5.0, 6.0, 1.0, //
        -6.0, 0.0, 9.0, 6.0, //
        -3.0, 0.0, -9.0, -4.0,
    ]);
    let back = m.inverse().unwrap().inverse().unwrap();
    assert_mat_within(back, m, 0.00001);

    let t = Matrix4::translate(point(fx(5.0), fx(-3.0), fx(2.0)));
    assert_eq!(t.inverse().unwrap(), Matrix4::translate(point(fx(-5.0), fx(3.0), fx(-2.0))));
    assert_eq!(t.inverse().unwrap().inverse().unwrap(), t);
}

#[test]
fn multiplying_a_product_by_the_inverse() {
    let a: Matrix4 = mat(&[
        3.0, -9.0, 7.0, 3.0, //
        3.0, -8.0, 2.0, -9.0, //
        -4.0, 4.0, 4.0, 1.0, //
        -6.0, 5.0, -1.0, 1.0,
    ]);
    let b: Matrix4 = mat(&[
        8.0, 2.0, 2.0, 2.0, //
        3.0, -1.0, 7.0, 0.0, //
        7.0, 0.0, 5.0, 4.0, //
        6.0, -2.0, 0.0, 5.0,
    ]);
    let c = a * b;
    assert_mat_within(c * b.inverse().unwrap(), a, 0.000001);
}

#[test]
fn identity_and_default() {
    let i: Matrix3 = Matrix::identity();
    let expected: Matrix3 = mat(&[1.0, 0.0, 0.0, 0.0, 1.0, 0.0, 0.0, 0.0, 1.0]);
    assert_eq!(i, expected);
    let z: Matrix<2, 3> = Matrix::default();
    let expected: Matrix<2, 3> = mat(&[0.0, 0.0, 0.0, 0.0, 0.0, 0.0]);
    assert_eq!(z, expected);
}

#[test]
fn translate_moves_a_point_and_keeps_a_direction() {
    let t = Matrix4::translate(point(fx(5.0), fx(-3.0), fx(2.0)));
    let p = point(fx(-3.0), fx(4.0), fx(5.0));
    assert_eq!(t * p, point(fx(2.0), fx(1.0), fx(7.0)));
    let v = raytrace_rs::vector(fx(-3.0), fx(4.0), fx(5.0));
    assert_eq!(t * v, v);
}

#[test]
fn get_and_set_entries() {
    let mut m: Matrix<2, 3> = mat(&[1.0, 2.0, 3.0, 4.0, 5.0, 6.0]);
    assert_eq!(m.get(1, 2), fx(6.0));
    m.set(1, 2, fx(9.0));
    let expected: Matrix<2, 3> = mat(&[1.0, 2.0, 3.0, 4.0, 5.0, 9.0]);
    assert_eq!(m, expected);
}

#[test]
fn almost_eq_allows_the_epsilon_and_no_more() {
    let a: Matrix2 = Matrix::new(&[fx(1.0), fx(2.0), fx(3.0), fx(4.0)]);
    let b: Matrix2 =
        Matrix::new(&[fx(1.0), fx(2.0), fx(3.0), Scalar::from_raw(4_000_000_119)]);
    let c: Matrix2 =
        Matrix::new(&[fx(1.0), fx(2.0), fx(3.0), Scalar::from_raw(4_000_000_120)]);
    assert!(Matrix::almost_eq(a, b));
    assert!(!Matrix::almost_eq(a, c));
}

#[test]
fn inverting_twice_rounds_where_an_entry_has_no_exact_reciprocal() {
    let m: Matrix4 = mat(&[
        30000.0, 0.0, 0.0, 0.0, //
        0.0, 1.0, 0.0, 0.0, //
        0.0, 0.0, 1.0, 0.0, //
        0.0, 0.0, 0.0, 1.0,
    ]);
    let inv = m.inverse().unwrap();
    // 1 / 30000 rounds to 0.000033333
    assert_eq!(inv[(0, 0)].raw, 33_333);
    let back = inv.inverse().unwrap();
    // and 1 / 0.000033333 is 30000.300003
    assert_eq!(back[(0, 0)].raw, 30_000_300_003_000);
    assert_eq!(back[(1, 1)], fx(1.0));
}

#[test]
fn inverse_of_a_matrix_with_a_determinant_beyond_the_range() {
    let m: Matrix4 = mat(&[
        3000.0, 0.0, 0.0, 0.0, //
        0.0, 3000.0, 0.0, 0.0, //
        0.0, 0.0, 3000.0, 0.0, //
        0.0, 0.0, 0.0, 1.0,
    ]);
    // the determinant, 2.7e10, stops at the end of the range
    assert_eq!(m.determinant().raw, i64::MAX);
    let inv = m.inverse().unwrap();
    let third = Scalar::from_raw(333_333);
    let expected: Matrix4 = Matrix::new(&[
        third, fx(0.0), fx(0.0), fx(0.0), //
        fx(0.0), third, fx(0.0), fx(0.0), //
        fx(0.0), fx(0.0), third, fx(0.0), //
        fx(0.0), fx(0.0), fx(0.0), fx(1.0),
    ]);
    assert_eq!(inv, expected);
    // 0.000333333 is 1 / 3000 to nine places, so the product has 0.999999
    let almost = fx(0.999999);
    let product: Matrix4 = Matrix::new(&[
        almost, fx(0.0), fx(0.0), fx(0.0), //
        fx(0.0), almost, fx(0.0), fx(0.0), //
        fx(0.0), fx(0.0), almost, fx(0.0), //
        fx(0.0), fx(0.0), fx(0.0), fx(1.0),
    ]);
    assert_eq!(m * inv, product);
    assert_eq!(inv * m, product);
}

#[test]
fn inverse_of_matrices_of_mixed_scale() {
    let t = Matrix4::translate(point(fx(1_000_000.0), fx(-2_000_000.0), fx(0.000001)));
    let expected = Matrix4::translate(point(fx(-1_000_000.0), fx(2_000_000.0), fx(-0.000001)));
    assert_eq!(t.inverse().unwrap(), expected);
    assert_eq!(t.determinant(), fx(1.0));

    let m: Matrix4 = mat(&[
        1_000_000.0, 0.0, 0.0, 7.0, //
        0.0, 0.001, 0.0, 0.0, //
        0.0, 0.0, 2.0, 0.0, //
        0.0, 0.0, 0.0, 1.0,
    ]);
    assert_eq!(m.determinant(), fx(2000.0));
    let expected: Matrix4 = mat(&[
        0.000001, 0.0, 0.0, -0.000007, //
        0.0, 1000.0, 0.0, 0.0, //
        0.0, 0.0, 0.5, 0.0, //
        0.0, 0.0, 0.0, 1.0,
    ]);
    assert_eq!(m.inverse().unwrap(), expected);
}

#[test]
fn inverse_of_a_matrix_with_small_entries() {
    let m: Matrix2 = mat(&[0.001, 0.0, 0.0, 0.001]);
    // the determinant is a millionth: beyond epsilon
    assert_eq!(m.determinant(), fx(0.000001));
    let expected: Matrix2 = mat(&[1000.0, 0.0, 0.0, 1000.0]);
    assert_eq!(m.inverse().unwrap(), expected);
    // a determinant of 1e-8 is within epsilon
    let m: Matrix2 = mat(&[0.0001, 0.0, 0.0, 0.0001]);
    assert_eq!(m.determinant(), fx(0.00000001));
    assert!(m.inverse().is_err());
}

#[test]
fn inverse_of_a_matrix_near_the_end_of_the_range() {
    let m: Matrix4 = mat(&[
        3e9, 0.0, 0.0, 0.0, //
        0.0, 1.0, 0.0, 0.0, //
        0.0, 0.0, 1.0, 0.0, //
        0.0, 0.0, 0.0, 1.0,
    ]);
    assert_eq!(m.determinant(), fx(3e9));
    let inv = m.inverse().unwrap();
    assert_eq!(inv[(0, 0)].raw, 0);
    assert_eq!(inv[(1, 1)], fx(1.0));
    assert_eq!(inv[(3, 3)], fx(1.0));
    let m: Matrix3 = mat(&[
        4e9, 0.0, 0.0, //
        0.0, 0.5, 0.0, //
        0.0, 0.0, 0.5,
    ]);
    assert_eq!(m.determinant(), fx(1e9));
    assert_eq!(m.inverse().unwrap()[(1, 1)], fx(2.0));
}

#[test]
fn determinant_is_rounded_once() {
    // 100000 * 100000 is beyond the range, the difference is not
    let m: Matrix2 = mat(&[100000.0, 100000.0, 90000.0, 100000.0]);
    assert_eq!(m.determinant(), fx(1e9));
    let expected: Matrix2 = mat(&[0.0001, -0.0001, -0.00009, 0.0001]);
    assert_eq!(m.inverse().unwrap(), expected);
}

#[test]
fn product_is_rounded_once() {
    let a: Matrix2 = mat(&[100000.0, 100000.0, 0.0, 1.0]);
    let b: Matrix2 = mat(&[100000.0, 0.0, -90000.0, 1.0]);
    let expected: Matrix2 = mat(&[1e9, 100000.0, -90000.0, 1.0]);
    assert_eq!(a * b, expected);
}
