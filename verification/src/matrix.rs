//! Small matrices of scalars: products, transposes, determinants by cofactor
//! expansion along the first row, and inverses by cofactors.

use crate::scalar::{fx_abs, fx_neg, fx_sub, Scalar, ONE_RAW};
use crate::wide::{
    bounded_quotient, is_large, is_large_raw, lemma_count_fits, reduce, two_128, two_256,
    SignedWide, LARGE_RAW,
};
use crate::tuple::{Tuple, Vec4};
use vstd::prelude::*;
use vstd::std_specs::ops::MulSpecImpl;

verus! {

/// A determinant of at most this magnitude counts as zero, in raw units.
pub const SINGULAR_EPSILON_RAW: i64 = 119;

/// The failure of an inverse: the matrix has no inverse.
#[derive(Copy, Clone, Debug, PartialEq, Eq)]
pub struct SingularMatrixError;

/// A matrix of `R` rows and `C` columns, held column by column.
#[derive(Copy, Clone, Debug, PartialEq)]
pub struct Matrix<const R: usize, const C: usize> {
    pub columns: [Tuple<R>; C],
}

pub type Matrix2 = Matrix<2, 2>;

pub type Matrix3 = Matrix<3, 3>;

pub type Matrix4 = Matrix<4, 4>;

impl<const R: usize, const C: usize> View for Matrix<R, C> {
    type V = Seq<Seq<int>>;

    /// The entries row by row.
    open spec fn view(&self) -> Seq<Seq<int>> {
        Seq::new(R as nat, |r: int| Seq::new(C as nat, |c: int| self.columns[c].values[r]@))
    }
}

/// The matrix of `rows` rows and `cols` columns with the entry `f(r, c)` in
/// row `r` and column `c`.
pub open spec fn mat_new(rows: nat, cols: nat, f: spec_fn(int, int) -> int) -> Seq<Seq<int>> {
    Seq::new(rows, |r: int| Seq::new(cols, |c: int| f(r, c)))
}

pub open spec fn mat_zero(rows: nat, cols: nat) -> Seq<Seq<int>> {
    mat_new(rows, cols, |r: int, c: int| 0int)
}

pub open spec fn mat_identity(n: nat) -> Seq<Seq<int>> {
    mat_new(
        n,
        n,
        |r: int, c: int|
            if r == c {
                ONE_RAW as int
            } else {
                0int
            },
    )
}

/// The matrix whose rows are `values` cut into pieces of `cols`.
pub open spec fn mat_from_rows(values: Seq<int>, rows: nat, cols: nat) -> Seq<Seq<int>> {
    mat_new(rows, cols, |r: int, c: int| values[r * cols + c])
}

/// The transpose of a matrix of `rows` rows and `cols` columns.
pub open spec fn mat_transpose(m: Seq<Seq<int>>, rows: nat, cols: nat) -> Seq<Seq<int>> {
    mat_new(cols, rows, |r: int, c: int| m[c][r])
}

/// The index in the full matrix of the index `i` of a matrix that lacks the
/// row or column `removed`.
pub open spec fn skip_index(i: int, removed: int) -> int {
    if i < removed {
        i
    } else {
        i + 1
    }
}

/// The square matrix `m` without the row `row` and the column `col`.
pub open spec fn mat_submatrix(m: Seq<Seq<int>>, row: int, col: int) -> Seq<Seq<int>> {
    mat_new(
        (m.len() - 1) as nat,
        (m.len() - 1) as nat,
        |r: int, c: int| m[skip_index(r, row)][skip_index(c, col)],
    )
}

/// `v` with the sign of the place `(row, col)`: kept where `row + col` is
/// even, negated where it is odd.
pub open spec fn signed_at(v: int, row: int, col: int) -> int {
    if (row + col) % 2 == 0 {
        v
    } else {
        fx_neg(v)
    }
}

/// Whether one of the entries of the square matrix `m` of `n` rows is large.
pub open spec fn mat_large(m: Seq<Seq<int>>, n: nat) -> bool {
    exists|r: int, c: int| 0 <= r < n && 0 <= c < n && is_large(#[trigger] m[r][c])
}

/// The entries of `m`, or their eighths.
pub open spec fn mat_reduced(m: Seq<Seq<int>>, n: nat, large: bool) -> Seq<Seq<int>> {
    mat_new(n, n, |r: int, c: int| reduce(m[r][c], large))
}

/// The entries that determinants are built on: those of `m`, and their
/// eighths where one of them is large.
pub open spec fn mat_core(m: Seq<Seq<int>>, n: nat) -> Seq<Seq<int>> {
    mat_reduced(m, n, mat_large(m, n))
}

/// What the entries of `mat_core` must be multiplied by to give those of
/// `m`: eight where they are eighths, else one.
pub open spec fn mat_factor(m: Seq<Seq<int>>, n: nat) -> int {
    if mat_large(m, n) {
        8
    } else {
        1
    }
}

/// The sign of the place `(row, col)`: one where `row + col` is even, minus
/// one where it is odd.
pub open spec fn place_sign(row: int, col: int) -> int {
    if (row + col) % 2 == 0 {
        1
    } else {
        -1
    }
}

/// The determinant of a 2 x 2 matrix of integers, in full.
pub open spec fn idet2(k: Seq<Seq<int>>) -> int {
    k[0][0] * k[1][1] - k[0][1] * k[1][0]
}

/// The determinant of a 3 x 3 matrix of integers, in full, along row 0.
pub open spec fn idet3(k: Seq<Seq<int>>) -> int {
    k[0][0] * idet2(mat_submatrix(k, 0, 0)) - k[0][1] * idet2(mat_submatrix(k, 0, 1)) + k[0][2]
        * idet2(mat_submatrix(k, 0, 2))
}

/// The determinant of a 4 x 4 matrix of integers, in full, along row 0.
pub open spec fn idet4(k: Seq<Seq<int>>) -> int {
    k[0][0] * idet3(mat_submatrix(k, 0, 0)) - k[0][1] * idet3(mat_submatrix(k, 0, 1)) + k[0][2]
        * idet3(mat_submatrix(k, 0, 2)) - k[0][3] * idet3(mat_submatrix(k, 0, 3))
}

/// The cofactor of a 2 x 2 matrix of integers: the entry opposite
/// `(row, col)`, signed.
pub open spec fn icof2(k: Seq<Seq<int>>, row: int, col: int) -> int {
    let r = if row == 0 {
        1int
    } else {
        0int
    };
    let c = if col == 0 {
        1int
    } else {
        0int
    };
    place_sign(r, c) * k[r][c]
}

pub open spec fn icof3(k: Seq<Seq<int>>, row: int, col: int) -> int {
    place_sign(row, col) * idet2(mat_submatrix(k, row, col))
}

pub open spec fn icof4(k: Seq<Seq<int>>, row: int, col: int) -> int {
    place_sign(row, col) * idet3(mat_submatrix(k, row, col))
}

/// The determinant of a 2 x 2 matrix: the determinant of its raw entries in
/// full, brought to raw units and rounded once.
pub open spec fn det2(m: Seq<Seq<int>>) -> int {
    bounded_quotient(
        idet2(mat_core(m, 2)) * (mat_factor(m, 2) * mat_factor(m, 2)),
        ONE_RAW as int,
    )
}

/// The cofactor of a 2 x 2 matrix: the entry opposite `(row, col)`, signed.
pub open spec fn cofactor2(m: Seq<Seq<int>>, row: int, col: int) -> int {
    let r = if row == 0 {
        1int
    } else {
        0int
    };
    let c = if col == 0 {
        1int
    } else {
        0int
    };
    signed_at(m[r][c], r, c)
}

pub open spec fn minor3(m: Seq<Seq<int>>, row: int, col: int) -> int {
    det2(mat_submatrix(m, row, col))
}

pub open spec fn cofactor3(m: Seq<Seq<int>>, row: int, col: int) -> int {
    signed_at(minor3(m, row, col), row, col)
}

/// The determinant of a 3 x 3 matrix: the determinant of its raw entries in
/// full, brought to raw units and rounded once.
pub open spec fn det3(m: Seq<Seq<int>>) -> int {
    bounded_quotient(
        idet3(mat_core(m, 3)) * (mat_factor(m, 3) * mat_factor(m, 3) * mat_factor(m, 3)),
        ONE_RAW * ONE_RAW,
    )
}

pub open spec fn minor4(m: Seq<Seq<int>>, row: int, col: int) -> int {
    det3(mat_submatrix(m, row, col))
}

pub open spec fn cofactor4(m: Seq<Seq<int>>, row: int, col: int) -> int {
    signed_at(minor4(m, row, col), row, col)
}

/// The determinant of a 4 x 4 matrix: the determinant of its raw entries in
/// full, brought to raw units and rounded once.
pub open spec fn det4(m: Seq<Seq<int>>) -> int {
    bounded_quotient(
        idet4(mat_core(m, 4)) * (mat_factor(m, 4) * mat_factor(m, 4) * mat_factor(m, 4)
            * mat_factor(m, 4)),
        ONE_RAW * ONE_RAW * ONE_RAW,
    )
}

/// Whether a determinant counts as zero.
pub open spec fn is_singular(det: int) -> bool {
    fx_abs(det) <= SINGULAR_EPSILON_RAW
}

/// The entry in row `col` and column `row` of the inverse of a 2 x 2 matrix:
/// the cofactor of `(row, col)` over the determinant, both in full, rounded
/// once.
pub open spec fn inverse_entry2(m: Seq<Seq<int>>, row: int, col: int) -> int {
    bounded_quotient(
        icof2(mat_core(m, 2), row, col) * (ONE_RAW * ONE_RAW),
        idet2(mat_core(m, 2)) * mat_factor(m, 2),
    )
}

pub open spec fn inverse_entry3(m: Seq<Seq<int>>, row: int, col: int) -> int {
    bounded_quotient(
        icof3(mat_core(m, 3), row, col) * (ONE_RAW * ONE_RAW),
        idet3(mat_core(m, 3)) * mat_factor(m, 3),
    )
}

pub open spec fn inverse_entry4(m: Seq<Seq<int>>, row: int, col: int) -> int {
    bounded_quotient(
        icof4(mat_core(m, 4), row, col) * (ONE_RAW * ONE_RAW),
        idet4(mat_core(m, 4)) * mat_factor(m, 4),
    )
}

/// The inverse by cofactors: the entry `(r, c)` is the cofactor of `(c, r)`
/// over the determinant.
pub open spec fn inverse2(m: Seq<Seq<int>>) -> Seq<Seq<int>> {
    mat_new(2, 2, |r: int, c: int| inverse_entry2(m, c, r))
}

pub open spec fn inverse3(m: Seq<Seq<int>>) -> Seq<Seq<int>> {
    mat_new(3, 3, |r: int, c: int| inverse_entry3(m, c, r))
}

pub open spec fn inverse4(m: Seq<Seq<int>>) -> Seq<Seq<int>> {
    mat_new(4, 4, |r: int, c: int| inverse_entry4(m, c, r))
}

/// The first `n` terms of row `r` of `a` times column `c` of `b`, in full.
pub open spec fn mat_mul_prefix(a: Seq<Seq<int>>, b: Seq<Seq<int>>, r: int, c: int, n: nat) -> int
    decreases n,
{
    if n == 0 {
        0
    } else {
        mat_mul_prefix(a, b, r, c, (n - 1) as nat) + a[r][n - 1] * b[n - 1][c]
    }
}

/// The product of `a`, of `rows` rows and `inner` columns, and `b`, of
/// `inner` rows and `cols` columns: each entry summed in full and rounded
/// once.
pub open spec fn mat_mul(a: Seq<Seq<int>>, b: Seq<Seq<int>>, rows: nat, inner: nat, cols: nat) -> Seq<
    Seq<int>,
> {
    mat_new(
        rows,
        cols,
        |r: int, c: int| bounded_quotient(mat_mul_prefix(a, b, r, c, inner), ONE_RAW as int),
    )
}

/// The first `n` terms of row `r` of `a` times the tuple `v`, in full.
pub open spec fn mat_apply_prefix(a: Seq<Seq<int>>, v: Seq<int>, r: int, n: nat) -> int
    decreases n,
{
    if n == 0 {
        0
    } else {
        mat_apply_prefix(a, v, r, (n - 1) as nat) + a[r][n - 1] * v[n - 1]
    }
}

/// The matrix `a`, of `rows` rows and `cols` columns, applied to the tuple
/// `v`, each component summed in full and rounded once; components beyond
/// the rows are zero.
pub open spec fn mat_apply(a: Seq<Seq<int>>, v: Seq<int>, rows: nat, cols: nat) -> Seq<int> {
    Seq::new(
        cols,
        |r: int|
            if r < rows {
                bounded_quotient(mat_apply_prefix(a, v, r, cols), ONE_RAW as int)
            } else {
                0int
            },
    )
}

/// The matrix that moves a point by `(x, y, z)`.
pub open spec fn mat_translate(x: int, y: int, z: int) -> Seq<Seq<int>> {
    seq![
        seq![ONE_RAW as int, 0int, 0int, x],
        seq![0int, ONE_RAW as int, 0int, y],
        seq![0int, 0int, ONE_RAW as int, z],
        seq![0int, 0int, 0int, ONE_RAW as int],
    ]
}

/// Whether every entry of `a` is within the singular epsilon of that of `b`.
pub open spec fn mat_almost_eq(a: Seq<Seq<int>>, b: Seq<Seq<int>>, rows: nat, cols: nat) -> bool {
    forall|r: int, c: int|
        0 <= r < rows && 0 <= c < cols ==> fx_abs(fx_sub(#[trigger] a[r][c], b[r][c]))
            <= SINGULAR_EPSILON_RAW
}


/// A submatrix of a matrix without large entries has none.
pub proof fn lemma_submatrix_not_large(m: Seq<Seq<int>>, n: nat, row: int, col: int)
    requires
        n >= 1,
        m.len() == n,
        !mat_large(m, n),
        0 <= row < n,
        0 <= col < n,
    ensures
        !mat_large(mat_submatrix(m, row, col), (n - 1) as nat),
{
    let sub = mat_submatrix(m, row, col);
    assert forall|r: int, c: int| 0 <= r < n - 1 && 0 <= c < n - 1 implies !is_large(
        #[trigger] sub[r][c],
    ) by {
        assert(sub[r][c] == m[skip_index(r, row)][skip_index(c, col)]);
    }
}

/// The 3 x 3 matrix with the rows `(a, b, c)`, `(d, e, f)` and `(g, h, i)`.
pub open spec fn rows3(
    a: int,
    b: int,
    c: int,
    d: int,
    e: int,
    f: int,
    g: int,
    h: int,
    i: int,
) -> Seq<Seq<int>> {
    seq![seq![a, b, c], seq![d, e, f], seq![g, h, i]]
}

/// The 3 x 3 determinant by its entries.
pub proof fn lemma_idet3_of(a: int, b: int, c: int, d: int, e: int, f: int, g: int, h: int, i: int)
    ensures
        idet3(rows3(a, b, c, d, e, f, g, h, i)) == a * (e * i - f * h) - b * (d * i - f * g) + c
            * (d * h - e * g),
{
    let m = rows3(a, b, c, d, e, f, g, h, i);
    assert(mat_submatrix(m, 0, 0) =~~= seq![seq![e, f], seq![h, i]]);
    assert(mat_submatrix(m, 0, 1) =~~= seq![seq![d, f], seq![g, i]]);
    assert(mat_submatrix(m, 0, 2) =~~= seq![seq![d, e], seq![g, h]]);
}

/// A multiple of `d` over `d` is the multiplier.
pub proof fn lemma_quotient_of_multiple(v: int, d: int)
    requires
        d > 0,
        -crate::scalar::MAX_RAW <= v <= crate::scalar::MAX_RAW,
    ensures
        bounded_quotient(v * d, d) == v,
{
    if v >= 0 {
        assert(v * d >= 0) by (nonlinear_arith)
            requires
                v >= 0,
                d > 0,
        ;
        vstd::arithmetic::div_mod::lemma_div_multiples_vanish(v, d);
        assert(d * v == v * d) by (nonlinear_arith);
    } else {
        assert(v * d < 0) by (nonlinear_arith)
            requires
                v < 0,
                d > 0,
        ;
        vstd::arithmetic::div_mod::lemma_div_multiples_vanish(-v, d);
        assert(d * (-v) == -(v * d)) by (nonlinear_arith);
    }
}

/// The inverse of the matrix that moves by `(x, y, z)` is the matrix that
/// moves by `(-x, -y, -z)`, exactly, where none of the three is large.
pub proof fn lemma_translate_inverse(x: int, y: int, z: int)
    requires
        -LARGE_RAW < x < LARGE_RAW,
        -LARGE_RAW < y < LARGE_RAW,
        -LARGE_RAW < z < LARGE_RAW,
    ensures
        det4(mat_translate(x, y, z)) == ONE_RAW,
        !is_singular(det4(mat_translate(x, y, z))),
        inverse4(mat_translate(x, y, z)) == mat_translate(-x, -y, -z),
{
    let m = mat_translate(x, y, z);
    let o = ONE_RAW as int;
    assert(o == 1_000_000_000);
    assert(!mat_large(m, 4));
    let t = mat_core(m, 4);
    assert(t =~~= m);
    assert(icof4(t, 0, 0) == o * (o * o)) by {
        assert(mat_submatrix(t, 0, 0) =~~= rows3(o, 0, y, 0, o, z, 0, 0, o));
        lemma_idet3_of(o, 0, y, 0, o, z, 0, 0, o);
        assert(1 * (o * (o * o - z * 0) - 0 * (0 * o - z * 0) + y * (0 * 0 - o * 0)) == o * (o * o)) by (nonlinear_arith);
    }
    assert(icof4(t, 0, 1) == 0) by {
        assert(mat_submatrix(t, 0, 1) =~~= rows3(0, 0, y, 0, o, z, 0, 0, o));
        lemma_idet3_of(0, 0, y, 0, o, z, 0, 0, o);
        assert(-1 * (0 * (o * o - z * 0) - 0 * (0 * o - z * 0) + y * (0 * 0 - o * 0)) == 0) by (nonlinear_arith);
    }
    assert(icof4(t, 0, 2) == 0) by {
        assert(mat_submatrix(t, 0, 2) =~~= rows3(0, o, y, 0, 0, z, 0, 0, o));
        lemma_idet3_of(0, o, y, 0, 0, z, 0, 0, o);
        assert(1 * (0 * (0 * o - z * 0) - o * (0 * o - z * 0) + y * (0 * 0 - 0 * 0)) == 0) by (nonlinear_arith);
    }
    assert(icof4(t, 0, 3) == 0) by {
        assert(mat_submatrix(t, 0, 3) =~~= rows3(0, o, 0, 0, 0, o, 0, 0, 0));
        lemma_idet3_of(0, o, 0, 0, 0, o, 0, 0, 0);
        assert(-1 * (0 * (0 * 0 - o * 0) - o * (0 * 0 - o * 0) + 0 * (0 * 0 - 0 * 0)) == 0) by (nonlinear_arith);
    }
    assert(icof4(t, 1, 0) == 0) by {
        assert(mat_submatrix(t, 1, 0) =~~= rows3(0, 0, x, 0, o, z, 0, 0, o));
        lemma_idet3_of(0, 0, x, 0, o, z, 0, 0, o);
        assert(-1 * (0 * (o * o - z * 0) - 0 * (0 * o - z * 0) + x * (0 * 0 - o * 0)) == 0) by (nonlinear_arith);
    }
    assert(icof4(t, 1, 1) == o * (o * o)) by {
        assert(mat_submatrix(t, 1, 1) =~~= rows3(o, 0, x, 0, o, z, 0, 0, o));
        lemma_idet3_of(o, 0, x, 0, o, z, 0, 0, o);
        assert(1 * (o * (o * o - z * 0) - 0 * (0 * o - z * 0) + x * (0 * 0 - o * 0)) == o * (o * o)) by (nonlinear_arith);
    }
    assert(icof4(t, 1, 2) == 0) by {
        assert(mat_submatrix(t, 1, 2) =~~= rows3(o, 0, x, 0, 0, z, 0, 0, o));
        lemma_idet3_of(o, 0, x, 0, 0, z, 0, 0, o);
        assert(-1 * (o * (0 * o - z * 0) - 0 * (0 * o - z * 0) + x * (0 * 0 - 0 * 0)) == 0) by (nonlinear_arith);
    }
    assert(icof4(t, 1, 3) == 0) by {
        assert(mat_submatrix(t, 1, 3) =~~= rows3(o, 0, 0, 0, 0, o, 0, 0, 0));
        lemma_idet3_of(o, 0, 0, 0, 0, o, 0, 0, 0);
        assert(1 * (o * (0 * 0 - o * 0) - 0 * (0 * 0 - o * 0) + 0 * (0 * 0 - 0 * 0)) == 0) by (nonlinear_arith);
    }
    assert(icof4(t, 2, 0) == 0) by {
        assert(mat_submatrix(t, 2, 0) =~~= rows3(0, 0, x, o, 0, y, 0, 0, o));
        lemma_idet3_of(0, 0, x, o, 0, y, 0, 0, o);
        assert(1 * (0 * (0 * o - y * 0) - 0 * (o * o - y * 0) + x * (o * 0 - 0 * 0)) == 0) by (nonlinear_arith);
    }
    assert(icof4(t, 2, 1) == 0) by {
        assert(mat_submatrix(t, 2, 1) =~~= rows3(o, 0, x, 0, 0, y, 0, 0, o));
        lemma_idet3_of(o, 0, x, 0, 0, y, 0, 0, o);
        assert(-1 * (o * (0 * o - y * 0) - 0 * (0 * o - y * 0) + x * (0 * 0 - 0 * 0)) == 0) by (nonlinear_arith);
    }
    assert(icof4(t, 2, 2) == o * (o * o)) by {
        assert(mat_submatrix(t, 2, 2) =~~= rows3(o, 0, x, 0, o, y, 0, 0, o));
        lemma_idet3_of(o, 0, x, 0, o, y, 0, 0, o);
        assert(1 * (o * (o * o - y * 0) - 0 * (0 * o - y * 0) + x * (0 * 0 - o * 0)) == o * (o * o)) by (nonlinear_arith);
    }
    assert(icof4(t, 2, 3) == 0) by {
        assert(mat_submatrix(t, 2, 3) =~~= rows3(o, 0, 0, 0, o, 0, 0, 0, 0));
        lemma_idet3_of(o, 0, 0, 0, o, 0, 0, 0, 0);
        assert(-1 * (o * (o * 0 - 0 * 0) - 0 * (0 * 0 - 0 * 0) + 0 * (0 * 0 - o * 0)) == 0) by (nonlinear_arith);
    }
    assert(icof4(t, 3, 0) == -x * (o * o)) by {
        assert(mat_submatrix(t, 3, 0) =~~= rows3(0, 0, x, o, 0, y, 0, o, z));
        lemma_idet3_of(0, 0, x, o, 0, y, 0, o, z);
        assert(-1 * (0 * (0 * z - y * o) - 0 * (o * z - y * 0) + x * (o * o - 0 * 0)) == -x * (o * o)) by (nonlinear_arith);
    }
    assert(icof4(t, 3, 1) == -y * (o * o)) by {
        assert(mat_submatrix(t, 3, 1) =~~= rows3(o, 0, x, 0, 0, y, 0, o, z));
        lemma_idet3_of(o, 0, x, 0, 0, y, 0, o, z);
        assert(1 * (o * (0 * z - y * o) - 0 * (0 * z - y * 0) + x * (0 * o - 0 * 0)) == -y * (o * o)) by (nonlinear_arith);
    }
    assert(icof4(t, 3, 2) == -z * (o * o)) by {
        assert(mat_submatrix(t, 3, 2) =~~= rows3(o, 0, x, 0, o, y, 0, 0, z));
        lemma_idet3_of(o, 0, x, 0, o, y, 0, 0, z);
        assert(-1 * (o * (o * z - y * 0) - 0 * (0 * z - y * 0) + x * (0 * 0 - o * 0)) == -z * (o * o)) by (nonlinear_arith);
    }
    assert(icof4(t, 3, 3) == o * (o * o)) by {
        assert(mat_submatrix(t, 3, 3) =~~= rows3(o, 0, 0, 0, o, 0, 0, 0, o));
        lemma_idet3_of(o, 0, 0, 0, o, 0, 0, 0, o);
        assert(1 * (o * (o * o - 0 * 0) - 0 * (0 * o - 0 * 0) + 0 * (0 * 0 - o * 0)) == o * (o * o)) by (nonlinear_arith);
    }
    let cube = o * (o * o);
    let fourth = o * cube;
    assert(idet4(t) == fourth);
    assert(cube == 1_000_000_000_000_000_000_000_000_000);
    assert(fourth == 1_000_000_000_000_000_000_000_000_000_000_000_000);
    assert(idet4(t) * (1 * 1 * 1 * 1) == o * (o * o * o)) by (nonlinear_arith)
        requires
            idet4(t) == o * (o * (o * o)),
    ;
    lemma_quotient_of_multiple(o, o * o * o);
    lemma_inverse_entry_of_translate(t, 0, fourth);
    lemma_inverse_entry_of_translate(t, o, fourth);
    lemma_inverse_entry_of_translate(t, -x, fourth);
    lemma_inverse_entry_of_translate(t, -y, fourth);
    lemma_inverse_entry_of_translate(t, -z, fourth);
    assert(inverse4(m) =~~= mat_translate(-x, -y, -z));
}

/// A cofactor `v * ONE_RAW * ONE_RAW` over the determinant `ONE_RAW` to the
/// fourth gives the entry `v`.
proof fn lemma_inverse_entry_of_translate(t: Seq<Seq<int>>, v: int, fourth: int)
    requires
        fourth == ONE_RAW * (ONE_RAW * (ONE_RAW * ONE_RAW)),
        -LARGE_RAW < v < LARGE_RAW,
    ensures
        bounded_quotient((v * (ONE_RAW * ONE_RAW)) * (ONE_RAW * ONE_RAW), fourth * 1) == v,
{
    assert((v * (ONE_RAW * ONE_RAW)) * (ONE_RAW * ONE_RAW) == v * fourth) by (nonlinear_arith)
        requires
            fourth == ONE_RAW * (ONE_RAW * (ONE_RAW * ONE_RAW)),
    ;
    assert(fourth == 1_000_000_000_000_000_000_000_000_000_000_000_000);
    lemma_quotient_of_multiple(v, fourth);
}

/// Inverting the matrix that moves by `(x, y, z)` twice gives it back.
pub proof fn lemma_translate_inverse_twice(x: int, y: int, z: int)
    requires
        -LARGE_RAW < x < LARGE_RAW,
        -LARGE_RAW < y < LARGE_RAW,
        -LARGE_RAW < z < LARGE_RAW,
    ensures
        inverse4(inverse4(mat_translate(x, y, z))) == mat_translate(x, y, z),
{
    lemma_translate_inverse(x, y, z);
    lemma_translate_inverse(-x, -y, -z);
}

/// The product of a reduced entry and a 2 x 2 determinant of reduced
/// entries is below two to the 184th in magnitude.
proof fn lemma_term_bound(e: int, d: int)
    requires
        -LARGE_RAW < e < LARGE_RAW,
        -0x800_0000_0000_0000_0000_0000_0000_0000 < d < 0x800_0000_0000_0000_0000_0000_0000_0000,
    ensures
        -0x100_0000_0000_0000_0000_0000_0000_0000_0000_0000_0000_0000int < e * d
            < 0x100_0000_0000_0000_0000_0000_0000_0000_0000_0000_0000_0000int,
{
    assert(-0x100_0000_0000_0000_0000_0000_0000_0000_0000_0000_0000_0000int < e * d
        < 0x100_0000_0000_0000_0000_0000_0000_0000_0000_0000_0000_0000int) by (nonlinear_arith)
        requires
            -0x2000_0000_0000_0000 < e < 0x2000_0000_0000_0000,
            -0x800_0000_0000_0000_0000_0000_0000_0000 < d
                < 0x800_0000_0000_0000_0000_0000_0000_0000,
    ;
}

/// The product of a 3 x 3 determinant of reduced entries and a reduced entry
/// is below two to the 247th in magnitude.
proof fn lemma_wide_term_bound(d: int, e: int)
    requires
        0 <= d < 0x400_0000_0000_0000_0000_0000_0000_0000_0000_0000_0000_0000int,
        -LARGE_RAW < e < LARGE_RAW,
    ensures
        -0x8000_0000_0000_0000_0000_0000_0000_0000_0000_0000_0000_0000_0000_0000_0000_000int < d
            * e < 0x8000_0000_0000_0000_0000_0000_0000_0000_0000_0000_0000_0000_0000_0000_0000_000int,
{
    assert(-0x8000_0000_0000_0000_0000_0000_0000_0000_0000_0000_0000_0000_0000_0000_0000_000int < d
        * e < 0x8000_0000_0000_0000_0000_0000_0000_0000_0000_0000_0000_0000_0000_0000_0000_000int)
        by (nonlinear_arith)
        requires
            0 <= d < 0x400_0000_0000_0000_0000_0000_0000_0000_0000_0000_0000_0000int,
            -0x2000_0000_0000_0000 < e < 0x2000_0000_0000_0000,
    ;
}

/// A term of an expansion: the signed determinant times the entry.
proof fn lemma_expansion_term(e: int, d: int, sign: int)
    requires
        sign == 1 || sign == -1,
    ensures
        (sign * d) * e == sign * (e * d),
        sign == 1 ==> (sign * d) * e == e * d,
        sign == -1 ==> (sign * d) * e == -(e * d),
{
    assert((sign * d) * e == sign * (e * d)) by (nonlinear_arith);
    assert(sign == 1 ==> sign * (e * d) == e * d) by (nonlinear_arith);
    assert(sign == -1 ==> sign * (e * d) == -(e * d)) by (nonlinear_arith);
}

/// A determinant in full, times one or eight, is below two to the 256th.
proof fn lemma_times_eight(d: int, f: int)
    requires
        0 <= d
            < 0x2000_0000_0000_0000_0000_0000_0000_0000_0000_0000_0000_0000_0000_0000_0000_0000int,
        f == 1 || f == 8,
    ensures
        -two_256() < d * f < two_256(),
{
    assert(two_256()
        == 0x1_0000_0000_0000_0000_0000_0000_0000_0000_0000_0000_0000_0000_0000_0000_0000_0000int);
    assert(d * 1 == d);
    assert(d * 8 == 8 * d);
}

/// A cofactor in full, times one whole squared, is below two to the 256th.
proof fn lemma_small_times_whole_squared(c: int)
    requires
        0 <= c < 0x400_0000_0000_0000_0000_0000_0000_0000_0000_0000_0000_0000int,
    ensures
        c * 1_000_000_000_000_000_000 < two_256(),
        ONE_RAW * ONE_RAW == 1_000_000_000_000_000_000,
{
    assert(two_256()
        == 0x1_0000_0000_0000_0000_0000_0000_0000_0000_0000_0000_0000_0000_0000_0000_0000_0000int);
}

/// The sum of four determinants, each times an entry, in full.
fn expand4(
    c0: &SignedWide,
    c1: &SignedWide,
    c2: &SignedWide,
    c3: &SignedWide,
    e0: i128,
    e1: i128,
    e2: i128,
    e3: i128,
) -> (d: SignedWide)
    requires
        c0.magnitude@ < 0x400_0000_0000_0000_0000_0000_0000_0000_0000_0000_0000_0000int,
        c1.magnitude@ < 0x400_0000_0000_0000_0000_0000_0000_0000_0000_0000_0000_0000int,
        c2.magnitude@ < 0x400_0000_0000_0000_0000_0000_0000_0000_0000_0000_0000_0000int,
        c3.magnitude@ < 0x400_0000_0000_0000_0000_0000_0000_0000_0000_0000_0000_0000int,
        -LARGE_RAW < e0 < LARGE_RAW,
        -LARGE_RAW < e1 < LARGE_RAW,
        -LARGE_RAW < e2 < LARGE_RAW,
        -LARGE_RAW < e3 < LARGE_RAW,
    ensures
        d@ == c0@ * e0 + c1@ * e1 + c2@ * e2 + c3@ * e3,
        d.magnitude@
            < 0x2000_0000_0000_0000_0000_0000_0000_0000_0000_0000_0000_0000_0000_0000_0000_0000int,
{
    proof {
        lemma_wide_term_bound(c0.magnitude@, e0 as int);
        lemma_wide_term_bound(c1.magnitude@, e1 as int);
        lemma_wide_term_bound(c2.magnitude@, e2 as int);
        lemma_wide_term_bound(c3.magnitude@, e3 as int);
        assert(two_256()
            == 0x1_0000_0000_0000_0000_0000_0000_0000_0000_0000_0000_0000_0000_0000_0000_0000_0000int);
    }
    let t0 = c0.times(e0);
    let t1 = c1.times(e1);
    let t2 = c2.times(e2);
    let t3 = c3.times(e3);
    let s01 = t0.plus(&t1);
    let s012 = s01.plus(&t2);
    s012.plus(&t3)
}

impl<const R: usize, const C: usize> Default for Matrix<R, C> {
    fn default() -> (m: Self)
        ensures
            m@ == mat_zero(R as nat, C as nat),
    {
        let zero = Tuple::<R>::default();
        let mut m = Self { columns: [zero; C] };
        let mut c: usize = 0;
        while c < C
            invariant
                c <= C,
                forall|j: int| 0 <= j < c ==> m.columns[j] == zero,
            decreases C - c,
        {
            m.columns[c] = zero;
            c = c + 1;
        }
        assert(m@ =~~= mat_zero(R as nat, C as nat)) by {
            assert forall|r: int, c: int| 0 <= r < R && 0 <= c < C implies m.columns[c].values[r]@
                == 0 by {
                assert(m.columns[c] == zero);
                assert(zero@[r] == 0);
            }
        }
        m
    }
}

impl<const R: usize, const C: usize> Matrix<R, C> {
    /// The entry in row `r` and column `c`.
    pub fn get(&self, r: usize, c: usize) -> (v: Scalar)
        requires
            r < R,
            c < C,
        ensures
            v@ == self@[r as int][c as int],
    {
        self.columns[c].values[r]
    }

    /// Replaces the entry in row `r` and column `c`.
    pub fn set(&mut self, r: usize, c: usize, v: Scalar)
        requires
            r < R,
            c < C,
        ensures
            final(self)@ == old(self)@.update(
                r as int,
                old(self)@[r as int].update(c as int, v@),
            ),
    {
        self.columns[c].values[r] = v;
        assert(self@ =~~= old(self)@.update(r as int, old(self)@[r as int].update(c as int, v@)));
    }

    /// The matrix whose rows are `values` cut into pieces of `C`.
    pub fn new(values: &[Scalar]) -> (m: Self)
        requires
            values@.len() >= R * C,
        ensures
            m@ == mat_from_rows(crate::scalar::scalars_view(values@), R as nat, C as nat),
    {
        let mut m = Self::default();
        let total = values.len();
        let mut r: usize = 0;
        while r < R
            invariant
                r <= R,
                total == values@.len(),
                values@.len() >= R * C,
                forall|i: int, j: int|
                    0 <= i < r && 0 <= j < C ==> (#[trigger] m@[i][j]) == values@[i * C + j]@,
            decreases R - r,
        {
            let mut c: usize = 0;
            while c < C
                invariant
                    r < R,
                    c <= C,
                    total == values@.len(),
                    values@.len() >= R * C,
                    forall|i: int, j: int|
                        0 <= i < r && 0 <= j < C ==> (#[trigger] m@[i][j]) == values@[i * C + j]@,
                    forall|j: int|
                        0 <= j < c ==> (#[trigger] m@[r as int][j]) == values@[r * C + j]@,
                decreases C - c,
            {
                assert(r * C + c < R * C && r * C <= R * C) by (nonlinear_arith)
                    requires
                        r < R,
                        c < C,
                ;
                m.set(r, c, values[r * C + c]);
                c = c + 1;
            }
            r = r + 1;
        }
        assert(m@ =~~= mat_from_rows(crate::scalar::scalars_view(values@), R as nat, C as nat)) by {
            assert forall|i: int, j: int| 0 <= i < R && 0 <= j < C implies m@[i][j]
                == crate::scalar::scalars_view(values@)[i * C + j] by {
                assert(0 <= i * C + j < R * C) by (nonlinear_arith)
                    requires
                        0 <= i < R,
                        0 <= j < C,
                ;
            }
        }
        m
    }

    pub fn transpose(&self) -> (m: Matrix<C, R>)
        ensures
            m@ == mat_transpose(self@, R as nat, C as nat),
    {
        let mut m = Matrix::<C, R>::default();
        let mut r: usize = 0;
        while r < R
            invariant
                r <= R,
                forall|i: int, j: int|
                    0 <= i < r && 0 <= j < C ==> (#[trigger] m@[j][i]) == self@[i][j],
            decreases R - r,
        {
            let mut c: usize = 0;
            while c < C
                invariant
                    r < R,
                    c <= C,
                    forall|i: int, j: int|
                        0 <= i < r && 0 <= j < C ==> (#[trigger] m@[j][i]) == self@[i][j],
                    forall|j: int|
                        0 <= j < c ==> (#[trigger] m@[j][r as int]) == self@[r as int][j],
                decreases C - c,
            {
                m.set(c, r, self.get(r, c));
                c = c + 1;
            }
            r = r + 1;
        }
        assert(m@ =~~= mat_transpose(self@, R as nat, C as nat));
        m
    }

    /// Whether every entry of `lhs` is within the singular epsilon of that
    /// of `rhs`.
    pub fn almost_eq(lhs: Self, rhs: Self) -> (eq: bool)
        ensures
            eq == mat_almost_eq(lhs@, rhs@, R as nat, C as nat),
    {
        let mut r: usize = 0;
        while r < R
            invariant
                r <= R,
                forall|i: int, j: int|
                    0 <= i < r && 0 <= j < C ==> fx_abs(fx_sub(#[trigger] lhs@[i][j], rhs@[i][j]))
                        <= SINGULAR_EPSILON_RAW,
            decreases R - r,
        {
            let mut c: usize = 0;
            while c < C
                invariant
                    r < R,
                    c <= C,
                    forall|i: int, j: int|
                        0 <= i < r && 0 <= j < C ==> fx_abs(
                            fx_sub(#[trigger] lhs@[i][j], rhs@[i][j]),
                        ) <= SINGULAR_EPSILON_RAW,
                    forall|j: int|
                        0 <= j < c ==> fx_abs(fx_sub(#[trigger] lhs@[r as int][j], rhs@[r as int][j]))
                            <= SINGULAR_EPSILON_RAW,
                decreases C - c,
            {
                let diff = (lhs.get(r, c) - rhs.get(r, c)).abs();
                if diff.raw > SINGULAR_EPSILON_RAW {
                    assert(fx_abs(fx_sub(lhs@[r as int][c as int], rhs@[r as int][c as int]))
                        > SINGULAR_EPSILON_RAW);
                    return false;
                }
                c = c + 1;
            }
            r = r + 1;
        }
        true
    }
}

impl<const S: usize> Matrix<S, S> {
    /// Whether one of the entries is large.
    fn has_large(&self) -> (r: bool)
        ensures
            r == mat_large(self@, S as nat),
    {
        let mut r: usize = 0;
        while r < S
            invariant
                r <= S,
                forall|i: int, j: int|
                    0 <= i < r && 0 <= j < S ==> !is_large(#[trigger] self@[i][j]),
            decreases S - r,
        {
            let mut c: usize = 0;
            while c < S
                invariant
                    r < S,
                    c <= S,
                    forall|i: int, j: int|
                        0 <= i < r && 0 <= j < S ==> !is_large(#[trigger] self@[i][j]),
                    forall|j: int| 0 <= j < c ==> !is_large(#[trigger] self@[r as int][j]),
                decreases S - c,
            {
                if is_large_raw(self.get(r, c).raw as i128) {
                    assert(is_large(self@[r as int][c as int]));
                    return true;
                }
                c = c + 1;
            }
            r = r + 1;
        }
        false
    }

    /// The entry in row `r` and column `c`, or its eighth.
    fn reduced_at(&self, r: usize, c: usize, large: bool) -> (v: i128)
        requires
            r < S,
            c < S,
            large || !mat_large(self@, S as nat),
        ensures
            v == mat_reduced(self@, S as nat, large)[r as int][c as int],
            -LARGE_RAW < v < LARGE_RAW,
    {
        let x = self.get(r, c).raw as i128;
        assert(!large ==> !is_large(self@[r as int][c as int]));
        if large {
            x / 8
        } else {
            x
        }
    }

    pub fn identity() -> (m: Self)
        ensures
            m@ == mat_identity(S as nat),
    {
        let mut m = Self::default();
        let mut i: usize = 0;
        while i < S
            invariant
                i <= S,
                forall|r: int, c: int|
                    0 <= r < S && 0 <= c < S ==> (#[trigger] m@[r][c]) == (if r == c && r < i {
                        ONE_RAW as int
                    } else {
                        0int
                    }),
            decreases S - i,
        {
            m.set(i, i, Scalar::from_raw(ONE_RAW));
            i = i + 1;
        }
        assert(m@ =~~= mat_identity(S as nat));
        m
    }
}

impl<const R: usize, const C: usize> core::ops::Index<(usize, usize)> for Matrix<R, C> {
    type Output = Scalar;

    fn index(&self, index: (usize, usize)) -> (v: &Scalar)
        ensures
            v@ == self@[index.0 as int][index.1 as int],
    {
        &self.columns[index.1].values[index.0]
    }
}

impl<const R: usize, const C: usize> vstd::std_specs::core::IndexSpecImpl<(usize, usize)> for Matrix<R, C> {
    open spec fn index_req(&self, index: &(usize, usize)) -> bool {
        index.0 < R && index.1 < C
    }
}

impl<const R: usize, const C: usize, const C2: usize> core::ops::Mul<Matrix<C, C2>> for Matrix<R, C> {
    type Output = Matrix<R, C2>;

    fn mul(self, rhs: Matrix<C, C2>) -> (m: Matrix<R, C2>)
        ensures
            m@ == mat_mul(self@, rhs@, R as nat, C as nat, C2 as nat),
    {
        let mut result = Matrix::<R, C2>::default();
        let mut r1: usize = 0;
        while r1 < R
            invariant
                r1 <= R,
                forall|i: int, j: int|
                    0 <= i < r1 && 0 <= j < C2 ==> (#[trigger] result@[i][j]) == bounded_quotient(
                        mat_mul_prefix(self@, rhs@, i, j, C as nat),
                        ONE_RAW as int,
                    ),
            decreases R - r1,
        {
            let mut c2: usize = 0;
            while c2 < C2
                invariant
                    r1 < R,
                    c2 <= C2,
                    forall|i: int, j: int|
                        0 <= i < r1 && 0 <= j < C2 ==> (#[trigger] result@[i][j])
                            == bounded_quotient(
                            mat_mul_prefix(self@, rhs@, i, j, C as nat),
                            ONE_RAW as int,
                        ),
                    forall|j: int|
                        0 <= j < c2 ==> (#[trigger] result@[r1 as int][j]) == bounded_quotient(
                            mat_mul_prefix(self@, rhs@, r1 as int, j, C as nat),
                            ONE_RAW as int,
                        ),
                decreases C2 - c2,
            {
                let mut sum = SignedWide::zero();
                let mut c: usize = 0;
                while c < C
                    invariant
                        r1 < R,
                        c2 < C2,
                        c <= C,
                        sum@ == mat_mul_prefix(self@, rhs@, r1 as int, c2 as int, c as nat),
                        sum.magnitude@ <= c * two_128(),
                    decreases C - c,
                {
                    proof {
                        lemma_count_fits(c as int);
                    }
                    sum = sum.plus_product(self.get(r1, c).raw, rhs.get(c, c2).raw);
                    c = c + 1;
                }
                result.set(r1, c2, sum.quotient(1, &SignedWide::one_whole()));
                c2 = c2 + 1;
            }
            r1 = r1 + 1;
        }
        assert(result@ =~~= mat_mul(self@, rhs@, R as nat, C as nat, C2 as nat));
        result
    }
}

impl<const R: usize, const C: usize, const C2: usize> MulSpecImpl<Matrix<C, C2>> for Matrix<R, C> {
    open spec fn obeys_mul_spec() -> bool {
        false
    }

    open spec fn mul_req(self, rhs: Matrix<C, C2>) -> bool {
        true
    }

    open spec fn mul_spec(self, rhs: Matrix<C, C2>) -> Matrix<R, C2> {
        arbitrary()
    }
}

impl<const R: usize, const C: usize> core::ops::Mul<Tuple<C>> for Matrix<R, C> {
    type Output = Tuple<C>;

    fn mul(self, rhs: Tuple<C>) -> (t: Tuple<C>)
        ensures
            t@ == mat_apply(self@, rhs@, R as nat, C as nat),
    {
        let mut result = Tuple::<C>::default();
        let mut r: usize = 0;
        while r < R
            invariant
                r <= R,
                R <= C,
                forall|i: int|
                    0 <= i < r ==> (#[trigger] result@[i]) == bounded_quotient(
                        mat_apply_prefix(self@, rhs@, i, C as nat),
                        ONE_RAW as int,
                    ),
                forall|i: int| r <= i < C ==> (#[trigger] result@[i]) == 0,
            decreases R - r,
        {
            let mut sum = SignedWide::zero();
            let mut c: usize = 0;
            while c < C
                invariant
                    r < R,
                    c <= C,
                    sum@ == mat_apply_prefix(self@, rhs@, r as int, c as nat),
                    sum.magnitude@ <= c * two_128(),
                decreases C - c,
            {
                proof {
                    lemma_count_fits(c as int);
                }
                sum = sum.plus_product(self.get(r, c).raw, rhs.get(c).raw);
                c = c + 1;
            }
            result.set(r, sum.quotient(1, &SignedWide::one_whole()));
            r = r + 1;
        }
        assert(result@ =~= mat_apply(self@, rhs@, R as nat, C as nat));
        result
    }
}

impl<const R: usize, const C: usize> MulSpecImpl<Tuple<C>> for Matrix<R, C> {
    open spec fn obeys_mul_spec() -> bool {
        false
    }

    /// The product has a component for each row, so there must be no more
    /// rows than columns.
    open spec fn mul_req(self, rhs: Tuple<C>) -> bool {
        R <= C
    }

    open spec fn mul_spec(self, rhs: Tuple<C>) -> Tuple<C> {
        rhs
    }
}

impl Matrix<2, 2> {
    /// The determinant of the entries, or of their eighths, in full.
    fn exact_determinant(&self, large: bool) -> (d: i128)
        requires
            large || !mat_large(self@, 2),
        ensures
            d == idet2(mat_reduced(self@, 2, large)),
            -0x800_0000_0000_0000_0000_0000_0000_0000 < d < 0x800_0000_0000_0000_0000_0000_0000_0000,
    {
        let a = self.reduced_at(0, 0, large);
        let b = self.reduced_at(0, 1, large);
        let c = self.reduced_at(1, 0, large);
        let e = self.reduced_at(1, 1, large);
        proof {
            assert(-0x400_0000_0000_0000_0000_0000_0000_0000 < a * e
                < 0x400_0000_0000_0000_0000_0000_0000_0000) by (nonlinear_arith)
                requires
                    -0x2000_0000_0000_0000 < a < 0x2000_0000_0000_0000,
                    -0x2000_0000_0000_0000 < e < 0x2000_0000_0000_0000,
            ;
            assert(-0x400_0000_0000_0000_0000_0000_0000_0000 < b * c
                < 0x400_0000_0000_0000_0000_0000_0000_0000) by (nonlinear_arith)
                requires
                    -0x2000_0000_0000_0000 < b < 0x2000_0000_0000_0000,
                    -0x2000_0000_0000_0000 < c < 0x2000_0000_0000_0000,
            ;
        }
        a * e - b * c
    }

    /// The cofactor of the entries, or of their eighths, in full.
    fn exact_cofactor(&self, row: usize, column: usize, large: bool) -> (v: i128)
        requires
            large || !mat_large(self@, 2),
        ensures
            v == icof2(mat_reduced(self@, 2, large), row as int, column as int),
            -LARGE_RAW < v < LARGE_RAW,
    {
        let r: usize = if row == 0 {
            1
        } else {
            0
        };
        let c: usize = if column == 0 {
            1
        } else {
            0
        };
        let v = self.reduced_at(r, c, large);
        if (r + c) % 2 == 0 {
            v
        } else {
            -v
        }
    }

    pub fn determinant(&self) -> (d: Scalar)
        ensures
            d@ == det2(self@),
    {
        let large = self.has_large();
        let det = SignedWide::product(self.exact_determinant(large), 1);
        let mult: u128 = if large {
            64
        } else {
            1
        };
        det.quotient(mult, &SignedWide::product(1_000_000_000, 1))
    }

    /// The entry opposite `(row, column)`, signed.
    pub fn cofactor(&self, row: usize, column: usize) -> (v: Scalar)
        ensures
            v@ == cofactor2(self@, row as int, column as int),
    {
        let row: usize = if row == 0 {
            1
        } else {
            0
        };
        let column: usize = if column == 0 {
            1
        } else {
            0
        };
        let v = self.get(row, column);
        if (row + column) % 2 == 0 {
            v
        } else {
            core::ops::Neg::neg(v)
        }
    }

    /// The inverse, unless the determinant counts as zero.
    pub fn inverse(&self) -> (r: Result<Self, SingularMatrixError>)
        ensures
            r is Err <==> is_singular(det2(self@)),
            r matches Ok(m) ==> m@ == inverse2(self@),
    {
        let det = self.determinant();
        if det.abs().raw <= SINGULAR_EPSILON_RAW {
            Err(SingularMatrixError)
        } else {
            let large = self.has_large();
            let factor: i128 = if large {
                8
            } else {
                1
            };
            let den = SignedWide::product(self.exact_determinant(large), factor);
            let mut m = Matrix2::default();
            let mut r: usize = 0;
            while r < 2
                invariant
                    r <= 2,
                    large == mat_large(self@, 2),
                    den@ == idet2(mat_core(self@, 2)) * mat_factor(self@, 2),
                    forall|i: int, j: int|
                        0 <= i < r && 0 <= j < 2 ==> (#[trigger] m@[j][i]) == inverse_entry2(
                            self@,
                            i,
                            j,
                        ),
                decreases 2 - r,
            {
                let mut c: usize = 0;
                while c < 2
                    invariant
                        r < 2,
                        c <= 2,
                        large == mat_large(self@, 2),
                        den@ == idet2(mat_core(self@, 2)) * mat_factor(self@, 2),
                        forall|i: int, j: int|
                            0 <= i < r && 0 <= j < 2 ==> (#[trigger] m@[j][i]) == inverse_entry2(
                                self@,
                                i,
                                j,
                            ),
                        forall|j: int|
                            0 <= j < c ==> (#[trigger] m@[j][r as int]) == inverse_entry2(
                                self@,
                                r as int,
                                j,
                            ),
                    decreases 2 - c,
                {
                    let cof = SignedWide::product(self.exact_cofactor(r, c, large), 1);
                    proof {
                        lemma_small_times_whole_squared(cof.magnitude@);
                    }
                    m.set(c, r, cof.quotient(1_000_000_000_000_000_000, &den));
                    c = c + 1;
                }
                r = r + 1;
            }
            assert(m@ =~~= inverse2(self@));
            Ok(m)
        }
    }
}

impl Matrix<3, 3> {
    /// This matrix without the row `row` and the column `column`.
    pub fn submatrix(&self, row: usize, column: usize) -> (m: Matrix2)
        requires
            row < 3,
            column < 3,
        ensures
            m@ == mat_submatrix(self@, row as int, column as int),
    {
        let mut m = Matrix2::default();
        let mut r: usize = 0;
        while r < 2
            invariant
                r <= 2,
                row < 3,
                column < 3,
                forall|i: int, j: int|
                    0 <= i < r && 0 <= j < 2 ==> (#[trigger] m@[i][j]) == self@[skip_index(
                        i,
                        row as int,
                    )][skip_index(j, column as int)],
            decreases 2 - r,
        {
            let mut c: usize = 0;
            while c < 2
                invariant
                    r < 2,
                    c <= 2,
                    row < 3,
                    column < 3,
                    forall|i: int, j: int|
                        0 <= i < r && 0 <= j < 2 ==> (#[trigger] m@[i][j]) == self@[skip_index(
                            i,
                            row as int,
                        )][skip_index(j, column as int)],
                    forall|j: int|
                        0 <= j < c ==> (#[trigger] m@[r as int][j]) == self@[skip_index(
                            r as int,
                            row as int,
                        )][skip_index(j, column as int)],
                decreases 2 - c,
            {
                let from_row = if r < row {
                    r
                } else {
                    r + 1
                };
                let from_col = if c < column {
                    c
                } else {
                    c + 1
                };
                m.set(r, c, self.get(from_row, from_col));
                c = c + 1;
            }
            r = r + 1;
        }
        assert(m@ =~~= mat_submatrix(self@, row as int, column as int));
        m
    }

    /// The determinant of the submatrix.
    pub fn minor(&self, row: usize, column: usize) -> (v: Scalar)
        requires
            row < 3,
            column < 3,
        ensures
            v@ == minor3(self@, row as int, column as int),
    {
        let sub = self.submatrix(row, column);
        sub.determinant()
    }

    /// The minor, signed.
    pub fn cofactor(&self, row: usize, column: usize) -> (v: Scalar)
        requires
            row < 3,
            column < 3,
        ensures
            v@ == cofactor3(self@, row as int, column as int),
    {
        let v = self.minor(row, column);
        if (row + column) % 2 == 0 {
            v
        } else {
            core::ops::Neg::neg(v)
        }
    }

    /// The determinant of the entries, or of their eighths, in full.
    fn exact_determinant(&self, large: bool) -> (d: SignedWide)
        requires
            large || !mat_large(self@, 3),
        ensures
            d@ == idet3(mat_reduced(self@, 3, large)),
            d.magnitude@ < 0x400_0000_0000_0000_0000_0000_0000_0000_0000_0000_0000_0000int,
    {
        let ghost k = mat_reduced(self@, 3, large);
        let s0 = self.submatrix(0, 0);
        let s1 = self.submatrix(0, 1);
        let s2 = self.submatrix(0, 2);
        proof {
            if !large {
                lemma_submatrix_not_large(self@, 3, 0, 0);
                lemma_submatrix_not_large(self@, 3, 0, 1);
                lemma_submatrix_not_large(self@, 3, 0, 2);
            }
            assert(mat_reduced(s0@, 2, large) =~~= mat_submatrix(k, 0, 0));
            assert(mat_reduced(s1@, 2, large) =~~= mat_submatrix(k, 0, 1));
            assert(mat_reduced(s2@, 2, large) =~~= mat_submatrix(k, 0, 2));
        }
        let t0 = SignedWide::product(self.reduced_at(0, 0, large), s0.exact_determinant(large));
        let t1 = SignedWide::product(self.reduced_at(0, 1, large), s1.exact_determinant(large));
        let t2 = SignedWide::product(self.reduced_at(0, 2, large), s2.exact_determinant(large));
        proof {
            lemma_term_bound(k[0][0], idet2(mat_submatrix(k, 0, 0)));
            lemma_term_bound(k[0][1], idet2(mat_submatrix(k, 0, 1)));
            lemma_term_bound(k[0][2], idet2(mat_submatrix(k, 0, 2)));
            assert(two_256() > 0x1_0000_0000_0000_0000_0000_0000_0000_0000_0000_0000_0000_0000int);
        }
        t0.minus(&t1).plus(&t2)
    }

    /// The cofactor of the entries, or of their eighths, in full.
    fn exact_cofactor(&self, row: usize, column: usize, large: bool) -> (v: i128)
        requires
            row < 3,
            column < 3,
            large || !mat_large(self@, 3),
        ensures
            v == icof3(mat_reduced(self@, 3, large), row as int, column as int),
            -0x800_0000_0000_0000_0000_0000_0000_0000 < v < 0x800_0000_0000_0000_0000_0000_0000_0000,
    {
        let sub = self.submatrix(row, column);
        proof {
            if !large {
                lemma_submatrix_not_large(self@, 3, row as int, column as int);
            }
            assert(mat_reduced(sub@, 2, large) =~~= mat_submatrix(
                mat_reduced(self@, 3, large),
                row as int,
                column as int,
            ));
        }
        let v = sub.exact_determinant(large);
        if (row + column) % 2 == 0 {
            v
        } else {
            -v
        }
    }

    pub fn determinant(&self) -> (d: Scalar)
        ensures
            d@ == det3(self@),
    {
        let large = self.has_large();
        let det = self.exact_determinant(large);
        let mult: u128 = if large {
            512
        } else {
            1
        };
        det.quotient(mult, &SignedWide::product(1_000_000_000_000_000_000, 1))
    }

    /// The inverse, unless the determinant counts as zero.
    pub fn inverse(&self) -> (r: Result<Self, SingularMatrixError>)
        ensures
            r is Err <==> is_singular(det3(self@)),
            r matches Ok(m) ==> m@ == inverse3(self@),
    {
        let det = self.determinant();
        if det.abs().raw <= SINGULAR_EPSILON_RAW {
            Err(SingularMatrixError)
        } else {
            let large = self.has_large();
            let factor: i128 = if large {
                8
            } else {
                1
            };
            let exact = self.exact_determinant(large);
            proof {
                lemma_times_eight(exact.magnitude@, factor as int);
            }
            let den = exact.times(factor);
            let mut m = Matrix3::default();
            let mut r: usize = 0;
            while r < 3
                invariant
                    r <= 3,
                    large == mat_large(self@, 3),
                    den@ == idet3(mat_core(self@, 3)) * mat_factor(self@, 3),
                    forall|i: int, j: int|
                        0 <= i < r && 0 <= j < 3 ==> (#[trigger] m@[j][i]) == inverse_entry3(
                            self@,
                            i,
                            j,
                        ),
                decreases 3 - r,
            {
                let mut c: usize = 0;
                while c < 3
                    invariant
                        r < 3,
                        c <= 3,
                        large == mat_large(self@, 3),
                        den@ == idet3(mat_core(self@, 3)) * mat_factor(self@, 3),
                        forall|i: int, j: int|
                            0 <= i < r && 0 <= j < 3 ==> (#[trigger] m@[j][i]) == inverse_entry3(
                                self@,
                                i,
                                j,
                            ),
                        forall|j: int|
                            0 <= j < c ==> (#[trigger] m@[j][r as int]) == inverse_entry3(
                                self@,
                                r as int,
                                j,
                            ),
                    decreases 3 - c,
                {
                    let cof = SignedWide::product(self.exact_cofactor(r, c, large), 1);
                    proof {
                        lemma_small_times_whole_squared(cof.magnitude@);
                    }
                    m.set(c, r, cof.quotient(1_000_000_000_000_000_000, &den));
                    c = c + 1;
                }
                r = r + 1;
            }
            assert(m@ =~~= inverse3(self@));
            Ok(m)
        }
    }
}

impl Matrix<4, 4> {
    /// This matrix without the row `row` and the column `column`.
    pub fn submatrix(&self, row: usize, column: usize) -> (m: Matrix3)
        requires
            row < 4,
            column < 4,
        ensures
            m@ == mat_submatrix(self@, row as int, column as int),
    {
        let mut m = Matrix3::default();
        let mut r: usize = 0;
        while r < 3
            invariant
                r <= 3,
                row < 4,
                column < 4,
                forall|i: int, j: int|
                    0 <= i < r && 0 <= j < 3 ==> (#[trigger] m@[i][j]) == self@[skip_index(
                        i,
                        row as int,
                    )][skip_index(j, column as int)],
            decreases 3 - r,
        {
            let mut c: usize = 0;
            while c < 3
                invariant
                    r < 3,
                    c <= 3,
                    row < 4,
                    column < 4,
                    forall|i: int, j: int|
                        0 <= i < r && 0 <= j < 3 ==> (#[trigger] m@[i][j]) == self@[skip_index(
                            i,
                            row as int,
                        )][skip_index(j, column as int)],
                    forall|j: int|
                        0 <= j < c ==> (#[trigger] m@[r as int][j]) == self@[skip_index(
                            r as int,
                            row as int,
                        )][skip_index(j, column as int)],
                decreases 3 - c,
            {
                let from_row = if r < row {
                    r
                } else {
                    r + 1
                };
                let from_col = if c < column {
                    c
                } else {
                    c + 1
                };
                m.set(r, c, self.get(from_row, from_col));
                c = c + 1;
            }
            r = r + 1;
        }
        assert(m@ =~~= mat_submatrix(self@, row as int, column as int));
        m
    }

    /// The determinant of the submatrix.
    pub fn minor(&self, row: usize, column: usize) -> (v: Scalar)
        requires
            row < 4,
            column < 4,
        ensures
            v@ == minor4(self@, row as int, column as int),
    {
        let sub = self.submatrix(row, column);
        sub.determinant()
    }

    /// The minor, signed.
    pub fn cofactor(&self, row: usize, column: usize) -> (v: Scalar)
        requires
            row < 4,
            column < 4,
        ensures
            v@ == cofactor4(self@, row as int, column as int),
    {
        let v = self.minor(row, column);
        if (row + column) % 2 == 0 {
            v
        } else {
            core::ops::Neg::neg(v)
        }
    }

    /// The determinant of the entries, or of their eighths, in full.
    fn exact_determinant(&self, large: bool) -> (d: SignedWide)
        requires
            large || !mat_large(self@, 4),
        ensures
            d@ == idet4(mat_reduced(self@, 4, large)),
            d.magnitude@
                < 0x2000_0000_0000_0000_0000_0000_0000_0000_0000_0000_0000_0000_0000_0000_0000_0000int,
    {
        let ghost k = mat_reduced(self@, 4, large);
        let c0 = self.exact_cofactor(0, 0, large);
        let c1 = self.exact_cofactor(0, 1, large);
        let c2 = self.exact_cofactor(0, 2, large);
        let c3 = self.exact_cofactor(0, 3, large);
        let e0 = self.reduced_at(0, 0, large);
        let e1 = self.reduced_at(0, 1, large);
        let e2 = self.reduced_at(0, 2, large);
        let e3 = self.reduced_at(0, 3, large);
        let d = expand4(&c0, &c1, &c2, &c3, e0, e1, e2, e3);
        proof {
            lemma_expansion_term(k[0][0], idet3(mat_submatrix(k, 0, 0)), 1);
            lemma_expansion_term(k[0][1], idet3(mat_submatrix(k, 0, 1)), -1);
            lemma_expansion_term(k[0][2], idet3(mat_submatrix(k, 0, 2)), 1);
            lemma_expansion_term(k[0][3], idet3(mat_submatrix(k, 0, 3)), -1);
        }
        d
    }

    /// The cofactor of the entries, or of their eighths, in full.
    fn exact_cofactor(&self, row: usize, column: usize, large: bool) -> (v: SignedWide)
        requires
            row < 4,
            column < 4,
            large || !mat_large(self@, 4),
        ensures
            v@ == icof4(mat_reduced(self@, 4, large), row as int, column as int),
            v.magnitude@ < 0x400_0000_0000_0000_0000_0000_0000_0000_0000_0000_0000_0000int,
    {
        let sub = self.submatrix(row, column);
        proof {
            if !large {
                lemma_submatrix_not_large(self@, 4, row as int, column as int);
            }
            assert(mat_reduced(sub@, 3, large) =~~= mat_submatrix(
                mat_reduced(self@, 4, large),
                row as int,
                column as int,
            ));
        }
        let v = sub.exact_determinant(large);
        if (row + column) % 2 == 0 {
            v
        } else {
            SignedWide { negative: !v.negative, magnitude: v.magnitude }
        }
    }

    pub fn determinant(&self) -> (d: Scalar)
        ensures
            d@ == det4(self@),
    {
        let large = self.has_large();
        let det = self.exact_determinant(large);
        let mult: u128 = if large {
            4096
        } else {
            1
        };
        assert(ONE_RAW * ONE_RAW * ONE_RAW == 1_000_000_000_000_000_000_000_000_000);
        det.quotient(mult, &SignedWide::product(1_000_000_000_000_000_000_000_000_000, 1))
    }

    /// The inverse, unless the determinant counts as zero.
    pub fn inverse(&self) -> (r: Result<Self, SingularMatrixError>)
        ensures
            r is Err <==> is_singular(det4(self@)),
            r matches Ok(m) ==> m@ == inverse4(self@),
    {
        let det = self.determinant();
        if det.abs().raw <= SINGULAR_EPSILON_RAW {
            Err(SingularMatrixError)
        } else {
            let large = self.has_large();
            let factor: i128 = if large {
                8
            } else {
                1
            };
            let exact = self.exact_determinant(large);
            proof {
                lemma_times_eight(exact.magnitude@, factor as int);
            }
            let den = exact.times(factor);
            let mut m = Matrix4::default();
            let mut r: usize = 0;
            while r < 4
                invariant
                    r <= 4,
                    large == mat_large(self@, 4),
                    den@ == idet4(mat_core(self@, 4)) * mat_factor(self@, 4),
                    forall|i: int, j: int|
                        0 <= i < r && 0 <= j < 4 ==> (#[trigger] m@[j][i]) == inverse_entry4(
                            self@,
                            i,
                            j,
                        ),
                decreases 4 - r,
            {
                let mut c: usize = 0;
                while c < 4
                    invariant
                        r < 4,
                        c <= 4,
                        large == mat_large(self@, 4),
                        den@ == idet4(mat_core(self@, 4)) * mat_factor(self@, 4),
                        forall|i: int, j: int|
                            0 <= i < r && 0 <= j < 4 ==> (#[trigger] m@[j][i]) == inverse_entry4(
                                self@,
                                i,
                                j,
                            ),
                        forall|j: int|
                            0 <= j < c ==> (#[trigger] m@[j][r as int]) == inverse_entry4(
                                self@,
                                r as int,
                                j,
                            ),
                    decreases 4 - c,
                {
                    let cof = self.exact_cofactor(r, c, large);
                    proof {
                        lemma_small_times_whole_squared(cof.magnitude@);
                    }
                    m.set(c, r, cof.quotient(1_000_000_000_000_000_000, &den));
                    c = c + 1;
                }
                r = r + 1;
            }
            assert(m@ =~~= inverse4(self@));
            Ok(m)
        }
    }

    /// The matrix that moves a point by the first three components of `p`.
    pub fn translate(p: Vec4) -> (m: Self)
        ensures
            m@ == mat_translate(p@[0], p@[1], p@[2]),
    {
        let mut m = Self::identity();
        m.set(0, 3, p.get(0));
        m.set(1, 3, p.get(1));
        m.set(2, 3, p.get(2));
        assert(m@ =~~= mat_translate(p@[0], p@[1], p@[2]));
        m
    }
}

} // verus!
