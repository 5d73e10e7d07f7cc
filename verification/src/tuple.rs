//! Fixed-size tuples of scalars; four of them make a point (`w = 1`) or a
//! direction (`w = 0`).

use crate::scalar::{
    fx_add, fx_div, fx_mul, fx_neg, fx_sub, int_sqrt, int_sqrt_u128, lemma_int_sqrt_at_least,
    lemma_int_sqrt_exists, Scalar, MAX_RAW, ONE_RAW,
};
use crate::wide::{
    bounded_quotient, int_min, lemma_count_fits, two_128, two_256, SignedWide, Wide,
};
use vstd::prelude::*;
use vstd::std_specs::ops::{AddSpecImpl, DivSpecImpl, MulSpecImpl, NegSpecImpl, SubSpecImpl};

verus! {

/// The componentwise products of `a` and `b`, summed in full.
pub open spec fn exact_dot_prefix(a: Seq<int>, b: Seq<int>, n: nat) -> int
    decreases n,
{
    if n == 0 {
        0
    } else {
        exact_dot_prefix(a, b, (n - 1) as nat) + a[n - 1] * b[n - 1]
    }
}

pub open spec fn exact_dot(a: Seq<int>, b: Seq<int>) -> int {
    exact_dot_prefix(a, b, a.len())
}

/// The dot product: the products summed in full, brought to raw units and
/// rounded once.
pub open spec fn tuple_dot(a: Seq<int>, b: Seq<int>) -> int {
    bounded_quotient(exact_dot(a, b), ONE_RAW as int)
}

/// A dot product of a tuple with itself is never negative.
pub proof fn lemma_exact_dot_self_nonnegative(a: Seq<int>, n: nat)
    ensures
        exact_dot_prefix(a, a, n) >= 0,
    decreases n,
{
    if n > 0 {
        lemma_exact_dot_self_nonnegative(a, (n - 1) as nat);
        assert(a[n - 1] * a[n - 1] >= 0) by (nonlinear_arith);
    }
}

/// A dot product with the zero tuple is zero.
pub proof fn lemma_exact_dot_zero_left(a: Seq<int>, b: Seq<int>, n: nat)
    requires
        forall|i: int| 0 <= i < n ==> a[i] == 0,
    ensures
        exact_dot_prefix(a, b, n) == 0,
    decreases n,
{
    if n > 0 {
        lemma_exact_dot_zero_left(a, b, (n - 1) as nat);
        assert(0 * b[n - 1] == 0);
    }
}

/// `a - b`, component by component, in full.
pub open spec fn exact_sub(a: Seq<int>, b: Seq<int>) -> Seq<int> {
    Seq::new(a.len(), |i: int| a[i] - b[i])
}

/// Whether a component of `a` is not zero.
pub open spec fn has_nonzero(a: Seq<int>) -> bool {
    exists|i: int| 0 <= i < a.len() && a[i] != 0
}

/// The sum of the squares of the first `n` components, in full.
pub open spec fn sum_squares_prefix(a: Seq<int>, n: nat) -> int
    decreases n,
{
    if n == 0 {
        0
    } else {
        sum_squares_prefix(a, (n - 1) as nat) + a[n - 1] * a[n - 1]
    }
}

/// The sum of the squares of the components, in full.
pub open spec fn sum_squares(a: Seq<int>) -> int {
    sum_squares_prefix(a, a.len())
}

/// The length of `a`: the root of the full sum of its squares, rounded down,
/// and the largest scalar where the root is beyond it.
pub open spec fn tuple_mag(a: Seq<int>) -> int {
    int_min(int_sqrt(sum_squares(a)), MAX_RAW as int)
}

/// The component `x` of a tuple whose squares sum to `q`, over the tuple's
/// length: `x / sqrt(q)` with the magnitude rounded down once, and zero for
/// the zero tuple.
pub open spec fn unit_component(x: int, q: int) -> int {
    if q <= 0 {
        0
    } else if x >= 0 {
        int_sqrt((x * x * (ONE_RAW * ONE_RAW)) / q)
    } else {
        -int_sqrt((x * x * (ONE_RAW * ONE_RAW)) / q)
    }
}

pub open spec fn tuple_add(a: Seq<int>, b: Seq<int>) -> Seq<int> {
    Seq::new(a.len(), |i: int| fx_add(a[i], b[i]))
}

pub open spec fn tuple_sub(a: Seq<int>, b: Seq<int>) -> Seq<int> {
    Seq::new(a.len(), |i: int| fx_sub(a[i], b[i]))
}

pub open spec fn tuple_neg(a: Seq<int>) -> Seq<int> {
    Seq::new(a.len(), |i: int| fx_neg(a[i]))
}

pub open spec fn tuple_scale(a: Seq<int>, k: int) -> Seq<int> {
    Seq::new(a.len(), |i: int| fx_mul(a[i], k))
}

pub open spec fn tuple_div(a: Seq<int>, k: int) -> Seq<int> {
    Seq::new(a.len(), |i: int| fx_div(a[i], k))
}

/// `a` divided by its own length, each component rounded once.
pub open spec fn tuple_normalize(a: Seq<int>) -> Seq<int> {
    Seq::new(a.len(), |i: int| unit_component(a[i], sum_squares(a)))
}

/// One component of a cross product: `p * q - r * s` in full, brought to
/// raw units and rounded once.
pub open spec fn cross_component(p: int, q: int, r: int, s: int) -> int {
    bounded_quotient(p * q - r * s, ONE_RAW as int)
}

/// The cross product of the first three components; the fourth is zero.
pub open spec fn tuple_cross(a: Seq<int>, b: Seq<int>) -> Seq<int> {
    seq![
        cross_component(a[1], b[2], a[2], b[1]),
        cross_component(a[2], b[0], a[0], b[2]),
        cross_component(a[0], b[1], a[1], b[0]),
        0int,
    ]
}

/// `v` mirrored about the normal `n`: `v - n * (2 * (v . n))`.
pub open spec fn tuple_reflect(v: Seq<int>, n: Seq<int>) -> Seq<int> {
    tuple_sub(v, tuple_scale(n, fx_mul(2 * ONE_RAW, tuple_dot(v, n))))
}

pub open spec fn vector_seq(x: int, y: int, z: int) -> Seq<int> {
    seq![x, y, z, 0int]
}

pub open spec fn point_seq(x: int, y: int, z: int) -> Seq<int> {
    seq![x, y, z, ONE_RAW as int]
}

/// The square of a component is at most the sum of the squares.
pub proof fn lemma_square_within_sum(a: Seq<int>, i: int)
    requires
        0 <= i < a.len(),
    ensures
        0 <= a[i] * a[i] <= sum_squares(a),
{
    lemma_square_within_prefix(a, a.len(), i);
}

proof fn lemma_square_within_prefix(a: Seq<int>, n: nat, i: int)
    requires
        0 <= i < n,
    ensures
        0 <= a[i] * a[i] <= sum_squares_prefix(a, n),
        sum_squares_prefix(a, n) >= 0,
    decreases n,
{
    lemma_sum_squares_nonnegative(a, (n - 1) as nat);
    assert(a[n - 1] * a[n - 1] >= 0) by (nonlinear_arith);
    assert(a[i] * a[i] >= 0) by (nonlinear_arith);
    if i < n - 1 {
        lemma_square_within_prefix(a, (n - 1) as nat, i);
    }
}

/// A sum of squares is never negative.
pub proof fn lemma_sum_squares_nonnegative(a: Seq<int>, n: nat)
    ensures
        sum_squares_prefix(a, n) >= 0,
    decreases n,
{
    if n > 0 {
        lemma_sum_squares_nonnegative(a, (n - 1) as nat);
        assert(a[n - 1] * a[n - 1] >= 0) by (nonlinear_arith);
    }
}

/// The magnitude of `x - from`, in full.
fn offset_magnitude(x: Scalar, from: Scalar) -> (m: u128)
    ensures
        m == x@ - from@ || m == -(x@ - from@),
        0 <= m < 0x1_0000_0000_0000_0000,
{
    let d = x.raw as i128 - from.raw as i128;
    if d < 0 {
        (-d) as u128
    } else {
        d as u128
    }
}

/// One component of a normalized tuple is the true quotient rounded toward
/// zero: its square is at most `x * x / q`, and less than `2 * ONE_RAW + 1`
/// below it, in units of `ONE_RAW` squared.
pub proof fn lemma_unit_component_bounds(x: int, q: int)
    requires
        q > 0,
        0 <= x * x <= q,
    ensures
        unit_component(x, q) * unit_component(x, q) * q <= x * x * (ONE_RAW * ONE_RAW),
        (unit_component(x, q) * unit_component(x, q) + 2 * ONE_RAW + 1) * q > x * x * (ONE_RAW
            * ONE_RAW),
        -ONE_RAW <= unit_component(x, q) <= ONE_RAW,
        x >= 0 ==> unit_component(x, q) >= 0,
        x <= 0 ==> unit_component(x, q) <= 0,
{
    let s2 = ONE_RAW * ONE_RAW;
    let top = x * x * s2;
    assert(top >= 0) by (nonlinear_arith)
        requires
            x * x >= 0,
            s2 >= 0,
            top == x * x * s2,
    ;
    let y = top / q;
    vstd::arithmetic::div_mod::lemma_fundamental_div_mod(top, q);
    vstd::arithmetic::div_mod::lemma_mod_bound(top, q);
    vstd::arithmetic::div_mod::lemma_div_pos_is_pos(top, q);
    lemma_int_sqrt_exists(y as nat);
    let r = int_sqrt(y);
    let n = unit_component(x, q);
    assert(n * n == r * r) by (nonlinear_arith)
        requires
            n == r || n == -r,
    ;
    if x == 0 {
        assert(top == 0) by (nonlinear_arith)
            requires
                top == x * x * s2,
                x == 0,
        ;
        assert(r == 0) by (nonlinear_arith)
            requires
                0 <= r,
                r * r <= 0,
        ;
    }
    // the quotient is at most one whole, squared
    assert(top <= q * s2) by (nonlinear_arith)
        requires
            top == x * x * s2,
            x * x <= q,
            s2 >= 0,
    ;
    vstd::arithmetic::div_mod::lemma_div_is_ordered(top, q * s2, q);
    vstd::arithmetic::div_mod::lemma_div_multiples_vanish(s2, q);
    assert(q * s2 == s2 * q) by (nonlinear_arith);
    assert(y <= s2);
    if r > ONE_RAW {
        assert(r * r > s2) by (nonlinear_arith)
            requires
                r >= ONE_RAW + 1,
                s2 == ONE_RAW * ONE_RAW,
                ONE_RAW > 0,
        ;
    }
    assert(r * r * q <= top) by (nonlinear_arith)
        requires
            r * r <= y,
            q > 0,
            top == q * y + top % q,
            top % q >= 0,
    ;
    assert((r * r + 2 * ONE_RAW + 1) * q > top) by (nonlinear_arith)
        requires
            y < (r + 1) * (r + 1),
            0 <= r <= ONE_RAW,
            q > 0,
            top == q * y + top % q,
            top % q < q,
    ;
}

/// Normalizing keeps the sums in step: the first `k` squares of the result,
/// times the whole sum `q`, against the first `k` squares of the tuple.
proof fn lemma_normalize_prefix(a: Seq<int>, k: nat)
    requires
        k <= a.len(),
        sum_squares(a) > 0,
    ensures
        sum_squares(a) * sum_squares_prefix(tuple_normalize(a), k) <= (ONE_RAW * ONE_RAW)
            * sum_squares_prefix(a, k),
        sum_squares(a) * (sum_squares_prefix(tuple_normalize(a), k) + (2 * ONE_RAW + 1) * k)
            >= (ONE_RAW * ONE_RAW) * sum_squares_prefix(a, k),
    decreases k,
{
    let q = sum_squares(a);
    let n = tuple_normalize(a);
    let s2 = ONE_RAW * ONE_RAW;
    if k == 0 {
        assert(q * 0 == 0);
        assert(s2 * 0 == 0);
    } else {
        lemma_normalize_prefix(a, (k - 1) as nat);
        let x = a[k - 1];
        let u = n[k - 1];
        lemma_square_within_sum(a, k - 1);
        lemma_unit_component_bounds(x, q);
        let pn = sum_squares_prefix(n, (k - 1) as nat);
        let pa = sum_squares_prefix(a, (k - 1) as nat);
        assert(q * (pn + u * u) <= s2 * (pa + x * x)) by (nonlinear_arith)
            requires
                q * pn <= s2 * pa,
                u * u * q <= x * x * s2,
        ;
        assert(q * ((pn + u * u) + (2 * ONE_RAW + 1) * k) >= s2 * (pa + x * x))
            by (nonlinear_arith)
            requires
                q * (pn + (2 * ONE_RAW + 1) * (k - 1)) >= s2 * pa,
                (u * u + 2 * ONE_RAW + 1) * q > x * x * s2,
        ;
    }
}

/// A normalized tuple has unit length up to rounding: for every tuple with
/// a component that is not zero, the squares of the normalized components
/// sum to at most one whole, squared, and to less than `2 * ONE_RAW + 1` per
/// component below it. The length of the result is then at most one whole
/// and less than a raw unit per component below it.
pub proof fn lemma_normalize_is_unit(a: Seq<int>)
    requires
        has_nonzero(a),
    ensures
        sum_squares(tuple_normalize(a)) <= ONE_RAW * ONE_RAW,
        sum_squares(tuple_normalize(a)) >= ONE_RAW * ONE_RAW - (2 * ONE_RAW + 1) * a.len(),
        a.len() <= 1000 ==> ONE_RAW - a.len() - 1 <= tuple_mag(tuple_normalize(a)) <= ONE_RAW,
{
    let i = choose|i: int| 0 <= i < a.len() && a[i] != 0;
    lemma_square_within_sum(a, i);
    assert(a[i] * a[i] > 0) by (nonlinear_arith)
        requires
            a[i] != 0,
    ;
    let q = sum_squares(a);
    let n = tuple_normalize(a);
    let s2 = ONE_RAW * ONE_RAW;
    lemma_normalize_prefix(a, a.len());
    let t = sum_squares(n);
    assert(n.len() == a.len());
    assert(t <= s2) by (nonlinear_arith)
        requires
            q * t <= s2 * q,
            q > 0,
    ;
    let slack = (2 * ONE_RAW + 1) * a.len();
    assert(t + slack >= s2) by (nonlinear_arith)
        requires
            q * (t + slack) >= s2 * q,
            q > 0,
    ;
    if a.len() <= 1000 {
        lemma_sum_squares_nonnegative(n, n.len());
        lemma_int_sqrt_exists(t as nat);
        let r = int_sqrt(t);
        if r > ONE_RAW {
            assert(r * r > s2) by (nonlinear_arith)
                requires
                    r >= ONE_RAW + 1,
                    s2 == ONE_RAW * ONE_RAW,
                    ONE_RAW > 0,
            ;
        }
        let low = ONE_RAW - a.len() - 1;
        assert(low * low <= t) by (nonlinear_arith)
            requires
                low == ONE_RAW - a.len() - 1,
                0 <= a.len() <= 1000,
                ONE_RAW == 1_000_000_000,
                t >= ONE_RAW * ONE_RAW - (2 * ONE_RAW + 1) * a.len(),
        ;
        lemma_int_sqrt_at_least(t, low);
    }
}

#[derive(Clone, Copy, Debug, PartialEq)]
pub struct Tuple<const N: usize> {
    pub values: [Scalar; N],
}

/// A point or a direction in homogeneous coordinates.
pub type Vec4 = Tuple<4>;

impl<const N: usize> View for Tuple<N> {
    type V = Seq<int>;

    open spec fn view(&self) -> Seq<int> {
        Seq::new(N as nat, |i: int| self.values[i]@)
    }
}

impl<const N: usize> Tuple<N> {
    pub fn new(values: [Scalar; N]) -> (r: Self)
        ensures
            r.values == values,
    {
        Self { values }
    }

    /// The component at `index`.
    pub fn get(&self, index: usize) -> (r: Scalar)
        requires
            index < N,
        ensures
            r@ == self@[index as int],
    {
        self.values[index]
    }

    /// Replaces the component at `index`.
    pub fn set(&mut self, index: usize, value: Scalar)
        requires
            index < N,
        ensures
            final(self)@ == old(self)@.update(index as int, value@),
    {
        self.values[index] = value;
        assert(self@ =~= old(self)@.update(index as int, value@));
    }

    /// The sum of the squares of the components of `self - from`, in full.
    fn offset_squares(&self, from: &Self) -> (q: Wide)
        ensures
            q@ == sum_squares(exact_sub(self@, from@)),
    {
        let ghost d = exact_sub(self@, from@);
        let mut q = Wide::zero();
        let mut n: usize = 0;
        while n < N
            invariant
                n <= N,
                q@ == sum_squares_prefix(d, n as nat),
                d == exact_sub(self@, from@),
                q@ <= n * two_128(),
            decreases N - n,
        {
            let m = offset_magnitude(self.values[n], from.values[n]);
            proof {
                assert(m * m < two_128()) by (nonlinear_arith)
                    requires
                        0 <= m < 0x1_0000_0000_0000_0000,
                        two_128() == 0x1_0000_0000_0000_0000_0000_0000_0000_0000int,
                ;
                assert(n * two_128() + two_128() <= two_128() * two_128()) by (nonlinear_arith)
                    requires
                        0 <= n < two_128() - 1,
                ;
                assert(two_256() == two_128() * two_128());
                assert(d[n as int] * d[n as int] == m * m) by (nonlinear_arith)
                    requires
                        m == d[n as int] || m == -d[n as int],
                ;
            }
            q = q.add(&Wide::from_u128(m * m));
            n = n + 1;
        }
        q
    }

    pub fn mag(&self) -> (r: Scalar)
        ensures
            r@ == tuple_mag(self@),
    {
        let zero = Self::default();
        assert(exact_sub(self@, zero@) =~= self@);
        self.distance_from(zero)
    }

    pub fn normalize(&self) -> (r: Self)
        ensures
            r@ == tuple_normalize(self@),
            has_nonzero(self@) && N <= 1000 ==> ONE_RAW - N - 1 <= tuple_mag(r@) <= ONE_RAW,
    {
        let zero = Self::default();
        assert(exact_sub(self@, zero@) =~= self@);
        self.unit_from(zero)
    }

    /// The distance of `self` from `from`: the length of `self - from`, the
    /// difference taken in full.
    pub fn distance_from(&self, from: Self) -> (r: Scalar)
        ensures
            r@ == tuple_mag(exact_sub(self@, from@)),
    {
        let root = self.offset_squares(&from).sqrt_capped(MAX_RAW as u128);
        Scalar { raw: root as i64 }
    }

    /// The direction from `from` to `self`: `self - from` over its length,
    /// the difference taken in full.
    pub fn unit_from(&self, from: Self) -> (r: Self)
        ensures
            r@ == tuple_normalize(exact_sub(self@, from@)),
            has_nonzero(exact_sub(self@, from@)) && N <= 1000 ==> ONE_RAW - N - 1 <= tuple_mag(r@)
                <= ONE_RAW,
    {
        let ghost d = exact_sub(self@, from@);
        proof {
            if has_nonzero(d) {
                lemma_normalize_is_unit(d);
            }
        }
        let q = self.offset_squares(&from);
        let mut r = *self;
        let mut n: usize = 0;
        while n < N
            invariant
                n <= N,
                q@ == sum_squares(d),
                d == exact_sub(self@, from@),
                forall|j: int| 0 <= j < n ==> r.values[j]@ == unit_component(d[j], q@),
            decreases N - n,
        {
            let negative = self.values[n].raw < from.values[n].raw;
            let ghost x = d[n as int];
            let unit: i64 = if q.hi == 0 && q.lo == 0 {
                0
            } else {
                let m = offset_magnitude(self.values[n], from.values[n]);
                proof {
                    lemma_square_within_sum(d, n as int);
                    assert(m * m < two_128()) by (nonlinear_arith)
                        requires
                            0 <= m < 0x1_0000_0000_0000_0000,
                            two_128() == 0x1_0000_0000_0000_0000_0000_0000_0000_0000int,
                    ;
                    assert(x * x == m * m) by (nonlinear_arith)
                        requires
                            m == x || m == -x,
                    ;
                    assert(ONE_RAW * ONE_RAW == 1_000_000_000_000_000_000);
                }
                let scaled = Wide::mul(m * m, 1_000_000_000_000_000_000);
                let ratio = scaled.div_capped(&q, 1_000_000_000_000_000_000);
                proof {
                    // the square of a component is at most the sum, so the
                    // quotient is at most one whole, squared
                    assert(scaled@ <= q@ * 1_000_000_000_000_000_000) by (nonlinear_arith)
                        requires
                            scaled@ == (m * m) * 1_000_000_000_000_000_000,
                            m * m <= q@,
                    ;
                    vstd::arithmetic::div_mod::lemma_div_is_ordered(
                        scaled@,
                        q@ * 1_000_000_000_000_000_000,
                        q@,
                    );
                    vstd::arithmetic::div_mod::lemma_div_multiples_vanish(
                        1_000_000_000_000_000_000,
                        q@,
                    );
                    assert(q@ * 1_000_000_000_000_000_000 == 1_000_000_000_000_000_000 * q@)
                        by (nonlinear_arith);
                    assert(scaled@ == x * x * (ONE_RAW * ONE_RAW)) by (nonlinear_arith)
                        requires
                            scaled@ == (m * m) * 1_000_000_000_000_000_000,
                            x * x == m * m,
                            ONE_RAW * ONE_RAW == 1_000_000_000_000_000_000,
                    ;
                }
                let root = int_sqrt_u128(ratio);
                if negative {
                    -(root as i64)
                } else {
                    root as i64
                }
            };
            r.values[n] = Scalar { raw: unit };
            n = n + 1;
        }
        assert(r@ =~= tuple_normalize(d));
        r
    }

    pub fn dot(&self, rhs: Self) -> (r: Scalar)
        ensures
            r@ == tuple_dot(self@, rhs@),
    {
        let mut acc = SignedWide::zero();
        let mut n: usize = 0;
        while n < N
            invariant
                n <= N,
                acc@ == exact_dot_prefix(self@, rhs@, n as nat),
                acc.magnitude@ <= n * two_128(),
            decreases N - n,
        {
            proof {
                lemma_count_fits(n as int);
            }
            acc = acc.plus_product(self.values[n].raw, rhs.values[n].raw);
            n = n + 1;
        }
        acc.quotient(1, &SignedWide::one_whole())
    }

    /// `self` mirrored about `normal`.
    pub fn reflect(&self, normal: Self) -> (r: Self)
        ensures
            r@ == tuple_reflect(self@, normal@),
    {
        let twice = Scalar::from_raw(2 * ONE_RAW) * self.dot(normal);
        *self - normal * twice
    }
}

impl Tuple<4> {
    pub fn is_point(&self) -> (r: bool)
        ensures
            r == (self@[3] != 0),
    {
        self.values[3].raw != 0
    }

    pub fn is_vector(&self) -> (r: bool)
        ensures
            r == (self@[3] == 0),
    {
        self.values[3].raw == 0
    }

    pub fn cross(&self, rhs: Self) -> (r: Self)
        ensures
            r@ == tuple_cross(self@, rhs@),
    {
        let x = cross_of(self.values[1], rhs.values[2], self.values[2], rhs.values[1]);
        let y = cross_of(self.values[2], rhs.values[0], self.values[0], rhs.values[2]);
        let z = cross_of(self.values[0], rhs.values[1], self.values[1], rhs.values[0]);
        let r = vector(x, y, z);
        assert(r@ =~= tuple_cross(self@, rhs@));
        r
    }
}

/// `p * q - r * s`, in full, rounded once.
fn cross_of(p: Scalar, q: Scalar, r: Scalar, s: Scalar) -> (c: Scalar)
    ensures
        c@ == cross_component(p@, q@, r@, s@),
{
    let first = SignedWide::product(p.raw as i128, q.raw as i128);
    let second = SignedWide::product(r.raw as i128, s.raw as i128);
    proof {
        assert(-two_128() < p@ * q@ < two_128()) by (nonlinear_arith)
            requires
                -0x8000_0000_0000_0000 <= p@ <= 0x8000_0000_0000_0000,
                -0x8000_0000_0000_0000 <= q@ <= 0x8000_0000_0000_0000,
                two_128() == 0x1_0000_0000_0000_0000_0000_0000_0000_0000int,
        ;
        assert(-two_128() < r@ * s@ < two_128()) by (nonlinear_arith)
            requires
                -0x8000_0000_0000_0000 <= r@ <= 0x8000_0000_0000_0000,
                -0x8000_0000_0000_0000 <= s@ <= 0x8000_0000_0000_0000,
                two_128() == 0x1_0000_0000_0000_0000_0000_0000_0000_0000int,
        ;
        assert(two_256() == two_128() * two_128());
    }
    first.minus(&second).quotient(1, &SignedWide::product(1_000_000_000, 1))
}

impl<const N: usize> core::ops::Index<usize> for Tuple<N> {
    type Output = Scalar;

    fn index(&self, index: usize) -> (r: &Scalar)
        ensures
            r@ == self@[index as int],
    {
        &self.values[index]
    }
}

impl<const N: usize> vstd::std_specs::core::IndexSpecImpl<usize> for Tuple<N> {
    open spec fn index_req(&self, index: &usize) -> bool {
        *index < N
    }
}

impl<const N: usize> Default for Tuple<N> {
    fn default() -> (r: Self)
        ensures
            r@ == Seq::new(N as nat, |i: int| 0int),
    {
        let zero = Scalar { raw: 0 };
        let mut r = Self { values: [zero; N] };
        let mut n: usize = 0;
        while n < N
            invariant
                n <= N,
                zero@ == 0,
                forall|j: int| 0 <= j < n ==> r.values[j]@ == 0,
            decreases N - n,
        {
            r.values[n] = zero;
            n = n + 1;
        }
        assert(r@ =~= Seq::new(N as nat, |i: int| 0int));
        r
    }
}

impl<const N: usize> core::ops::Add for Tuple<N> {
    type Output = Tuple<N>;

    fn add(self, rhs: Self) -> (r: Self)
        ensures
            r@ == tuple_add(self@, rhs@),
    {
        let mut r = self;
        let mut n: usize = 0;
        while n < N
            invariant
                n <= N,
                forall|j: int|
                    0 <= j < n ==> r.values[j]@ == fx_add(self.values[j]@, rhs.values[j]@),
            decreases N - n,
        {
            r.values[n] = self.values[n] + rhs.values[n];
            n = n + 1;
        }
        assert(r@ =~= tuple_add(self@, rhs@));
        r
    }
}

impl<const N: usize> AddSpecImpl for Tuple<N> {
    open spec fn obeys_add_spec() -> bool {
        false
    }

    open spec fn add_req(self, rhs: Self) -> bool {
        true
    }

    open spec fn add_spec(self, rhs: Self) -> Self {
        self
    }
}

impl<const N: usize> core::ops::Sub for Tuple<N> {
    type Output = Tuple<N>;

    fn sub(self, rhs: Self) -> (r: Self)
        ensures
            r@ == tuple_sub(self@, rhs@),
    {
        let mut r = self;
        let mut n: usize = 0;
        while n < N
            invariant
                n <= N,
                forall|j: int|
                    0 <= j < n ==> r.values[j]@ == fx_sub(self.values[j]@, rhs.values[j]@),
            decreases N - n,
        {
            r.values[n] = self.values[n] - rhs.values[n];
            n = n + 1;
        }
        assert(r@ =~= tuple_sub(self@, rhs@));
        r
    }
}

impl<const N: usize> SubSpecImpl for Tuple<N> {
    open spec fn obeys_sub_spec() -> bool {
        false
    }

    open spec fn sub_req(self, rhs: Self) -> bool {
        true
    }

    open spec fn sub_spec(self, rhs: Self) -> Self {
        self
    }
}

impl<const N: usize> core::ops::Neg for Tuple<N> {
    type Output = Tuple<N>;

    fn neg(self) -> (r: Self)
        ensures
            r@ == tuple_neg(self@),
    {
        let mut r = self;
        let mut n: usize = 0;
        while n < N
            invariant
                n <= N,
                forall|j: int| 0 <= j < n ==> r.values[j]@ == fx_neg(self.values[j]@),
            decreases N - n,
        {
            r.values[n] = core::ops::Neg::neg(self.values[n]);
            n = n + 1;
        }
        assert(r@ =~= tuple_neg(self@));
        r
    }
}

impl<const N: usize> NegSpecImpl for Tuple<N> {
    open spec fn obeys_neg_spec() -> bool {
        false
    }

    open spec fn neg_req(self) -> bool {
        true
    }

    open spec fn neg_spec(self) -> Self {
        self
    }
}

impl<const N: usize> core::ops::Mul<Scalar> for Tuple<N> {
    type Output = Tuple<N>;

    fn mul(self, rhs: Scalar) -> (r: Self)
        ensures
            r@ == tuple_scale(self@, rhs@),
    {
        let mut r = self;
        let mut n: usize = 0;
        while n < N
            invariant
                n <= N,
                forall|j: int| 0 <= j < n ==> r.values[j]@ == fx_mul(self.values[j]@, rhs@),
            decreases N - n,
        {
            r.values[n] = self.values[n] * rhs;
            n = n + 1;
        }
        assert(r@ =~= tuple_scale(self@, rhs@));
        r
    }
}

impl<const N: usize> MulSpecImpl<Scalar> for Tuple<N> {
    open spec fn obeys_mul_spec() -> bool {
        false
    }

    open spec fn mul_req(self, rhs: Scalar) -> bool {
        true
    }

    open spec fn mul_spec(self, rhs: Scalar) -> Self {
        self
    }
}

impl<const N: usize> core::ops::Mul<Tuple<N>> for Scalar {
    type Output = Tuple<N>;

    fn mul(self, rhs: Tuple<N>) -> (r: Tuple<N>)
        ensures
            r@ == tuple_scale(rhs@, self@),
    {
        rhs * self
    }
}

impl<const N: usize> MulSpecImpl<Tuple<N>> for Scalar {
    open spec fn obeys_mul_spec() -> bool {
        false
    }

    open spec fn mul_req(self, rhs: Tuple<N>) -> bool {
        true
    }

    open spec fn mul_spec(self, rhs: Tuple<N>) -> Tuple<N> {
        rhs
    }
}

impl<const N: usize> core::ops::Div<Scalar> for Tuple<N> {
    type Output = Tuple<N>;

    fn div(self, rhs: Scalar) -> (r: Self)
        ensures
            r@ == tuple_div(self@, rhs@),
    {
        let mut r = self;
        let mut n: usize = 0;
        while n < N
            invariant
                n <= N,
                forall|j: int| 0 <= j < n ==> r.values[j]@ == fx_div(self.values[j]@, rhs@),
            decreases N - n,
        {
            r.values[n] = self.values[n] / rhs;
            n = n + 1;
        }
        assert(r@ =~= tuple_div(self@, rhs@));
        r
    }
}

impl<const N: usize> DivSpecImpl<Scalar> for Tuple<N> {
    open spec fn obeys_div_spec() -> bool {
        false
    }

    open spec fn div_req(self, rhs: Scalar) -> bool {
        true
    }

    open spec fn div_spec(self, rhs: Scalar) -> Self {
        self
    }
}

/// The direction `(x, y, z)`.
pub fn vector(x: Scalar, y: Scalar, z: Scalar) -> (r: Tuple<4>)
    ensures
        r@ == vector_seq(x@, y@, z@),
{
    let r = Tuple { values: [x, y, z, Scalar { raw: 0 }] };
    assert(r@ =~= vector_seq(x@, y@, z@));
    r
}

/// The position `(x, y, z)`.
pub fn point(x: Scalar, y: Scalar, z: Scalar) -> (r: Tuple<4>)
    ensures
        r@ == point_seq(x@, y@, z@),
{
    let r = Tuple { values: [x, y, z, Scalar { raw: ONE_RAW }] };
    assert(r@ =~= point_seq(x@, y@, z@));
    r
}

} // verus!
