//! Rays, and where a ray meets a sphere or an axis-aligned box.

use crate::aabb::Aabb;
use crate::scalar::{
    fx_max, fx_min, int_sqrt, lemma_int_sqrt_at_least, lemma_int_sqrt_exists, scalars_view,
    trunc_div, Scalar, MAX_RAW, ONE_RAW,
};
use crate::sphere::Sphere;
use crate::tuple::{
    exact_dot, exact_dot_prefix, lemma_exact_dot_self_nonnegative, lemma_exact_dot_zero_left, Vec4,
};
use crate::wide::{
    abs_i128, any_large, bounded_quotient, is_large, is_large_raw, lemma_bounded_quotient_monotone,
    lemma_count_fits, lemma_none_large, quotient_of, reduce, two_256, SignedWide, Wide,
    LARGE_RAW,
};
use vstd::prelude::*;

verus! {

/// A ray as plain values.
pub struct RayModel {
    pub origin: Seq<int>,
    pub dir: Seq<int>,
}

#[derive(Debug)]
pub struct Ray {
    pub origin: Vec4,
    pub dir: Vec4,
}

impl View for Ray {
    type V = RayModel;

    open spec fn view(&self) -> RayModel {
        RayModel { origin: self.origin@, dir: self.dir@ }
    }
}

/// The point of the ray at distance `t`: `dir * t + origin`, component by
/// component in full and rounded once.
pub open spec fn ray_position(ray: RayModel, t: int) -> Seq<int> {
    Seq::new(
        ray.origin.len(),
        |i: int| bounded_quotient(ray.dir[i] * t + ray.origin[i] * ONE_RAW, ONE_RAW as int),
    )
}

/// `origin - center`, component by component, in full.
pub open spec fn offset_from(ray: RayModel, center: Seq<int>) -> Seq<int> {
    Seq::new(ray.origin.len(), |i: int| ray.origin[i] - center[i])
}

/// Whether the offset from the center or the radius is large.
pub open spec fn sphere_large(ray: RayModel, center: Seq<int>, r: int) -> bool {
    any_large(offset_from(ray, center), ray.origin.len()) || is_large(r)
}

/// Whether the direction is large.
pub open spec fn dir_large(ray: RayModel) -> bool {
    any_large(ray.dir, ray.dir.len())
}

/// The offset of the origin from the center that the quadratic is built on.
pub open spec fn sphere_offset(ray: RayModel, center: Seq<int>, r: int) -> Seq<int> {
    Seq::new(
        ray.origin.len(),
        |i: int| reduce(ray.origin[i] - center[i], sphere_large(ray, center, r)),
    )
}

/// The radius that the quadratic is built on.
pub open spec fn sphere_radius(ray: RayModel, center: Seq<int>, r: int) -> int {
    reduce(r, sphere_large(ray, center, r))
}

/// The direction that the quadratic is built on.
pub open spec fn sphere_dir(ray: RayModel) -> Seq<int> {
    Seq::new(ray.dir.len(), |i: int| reduce(ray.dir[i], dir_large(ray)))
}

/// The coefficient `a` of the quadratic in `t`: `dir . dir`, in full.
pub open spec fn sphere_a(ray: RayModel) -> int {
    exact_dot(sphere_dir(ray), sphere_dir(ray))
}

/// Half the coefficient `b`: `(origin - center) . dir`, in full.
pub open spec fn sphere_half_b(ray: RayModel, center: Seq<int>, r: int) -> int {
    exact_dot(sphere_offset(ray, center, r), sphere_dir(ray))
}

/// The coefficient `c`: `(origin - center) . (origin - center) - r * r`, in
/// full.
pub open spec fn sphere_c(ray: RayModel, center: Seq<int>, r: int) -> int {
    exact_dot(sphere_offset(ray, center, r), sphere_offset(ray, center, r)) - sphere_radius(
        ray,
        center,
        r,
    ) * sphere_radius(ray, center, r)
}

/// A quarter of the discriminant `b * b - 4 * a * c`, in full: it is
/// negative, zero or positive as the discriminant is.
pub open spec fn sphere_discriminant(ray: RayModel, center: Seq<int>, r: int) -> int {
    sphere_half_b(ray, center, r) * sphere_half_b(ray, center, r) - sphere_a(ray) * sphere_c(
        ray,
        center,
        r,
    )
}

/// What a root is multiplied by: one whole, and eight where the offset was
/// taken in eighths and the direction was not.
pub open spec fn sphere_root_scale(ray: RayModel, center: Seq<int>, r: int) -> int {
    if sphere_large(ray, center, r) && !dir_large(ray) {
        8 * ONE_RAW
    } else {
        ONE_RAW as int
    }
}

/// What a root is divided by: `a`, and eight times `a` where the direction
/// was taken in eighths and the offset was not.
pub open spec fn sphere_root_divisor(ray: RayModel, center: Seq<int>, r: int) -> int {
    if dir_large(ray) && !sphere_large(ray, center, r) {
        8 * sphere_a(ray)
    } else {
        sphere_a(ray)
    }
}

/// The nearer root `(-b/2 - sqrt(disc/4)) / a`, rounded once.
pub open spec fn sphere_root_near(ray: RayModel, center: Seq<int>, r: int) -> int {
    bounded_quotient(
        (-sphere_half_b(ray, center, r) - int_sqrt(sphere_discriminant(ray, center, r)))
            * sphere_root_scale(ray, center, r),
        sphere_root_divisor(ray, center, r),
    )
}

/// The farther root `(-b/2 + sqrt(disc/4)) / a`, rounded once.
pub open spec fn sphere_root_far(ray: RayModel, center: Seq<int>, r: int) -> int {
    bounded_quotient(
        (-sphere_half_b(ray, center, r) + int_sqrt(sphere_discriminant(ray, center, r)))
            * sphere_root_scale(ray, center, r),
        sphere_root_divisor(ray, center, r),
    )
}

/// The distances at which the ray meets the sphere: none where the
/// discriminant is negative, else the two roots, the nearer first.
pub open spec fn sphere_roots(ray: RayModel, center: Seq<int>, r: int) -> Seq<int> {
    if sphere_discriminant(ray, center, r) < 0 {
        Seq::empty()
    } else {
        seq![sphere_root_near(ray, center, r), sphere_root_far(ray, center, r)]
    }
}

/// The distance at which the ray crosses the plane `value` of `axis`:
/// `(value - origin) / dir`, in full and rounded once.
pub open spec fn slab_cross(ray: RayModel, value: int, axis: int) -> int {
    bounded_quotient((value - ray.origin[axis]) * ONE_RAW, ray.dir[axis])
}

/// Where the ray enters the slab of `axis`.
pub open spec fn slab_near(ray: RayModel, min: Seq<int>, max: Seq<int>, axis: int) -> int {
    fx_min(slab_cross(ray, min[axis], axis), slab_cross(ray, max[axis], axis))
}

/// Where the ray leaves the slab of `axis`.
pub open spec fn slab_far(ray: RayModel, min: Seq<int>, max: Seq<int>, axis: int) -> int {
    fx_max(slab_cross(ray, min[axis], axis), slab_cross(ray, max[axis], axis))
}

/// Where the ray has entered all three slabs.
pub open spec fn box_near(ray: RayModel, min: Seq<int>, max: Seq<int>) -> int {
    fx_max(
        fx_max(slab_near(ray, min, max, 0), slab_near(ray, min, max, 1)),
        slab_near(ray, min, max, 2),
    )
}

/// Where the ray leaves the first of the three slabs.
pub open spec fn box_far(ray: RayModel, min: Seq<int>, max: Seq<int>) -> int {
    fx_min(
        fx_min(slab_far(ray, min, max, 0), slab_far(ray, min, max, 1)),
        slab_far(ray, min, max, 2),
    )
}

/// The distances at which the ray meets the box: none where it leaves one
/// slab before it has entered all, else the entry and the exit.
pub open spec fn box_roots(ray: RayModel, min: Seq<int>, max: Seq<int>) -> Seq<int> {
    if box_near(ray, min, max) > box_far(ray, min, max) {
        Seq::empty()
    } else {
        seq![box_near(ray, min, max), box_far(ray, min, max)]
    }
}

/// A ray meets a sphere in no point or in two, the nearer first, and in
/// none exactly where the discriminant is negative.
pub proof fn lemma_sphere_roots_ordered(ray: RayModel, center: Seq<int>, r: int)
    ensures
        sphere_roots(ray, center, r).len() == 0 <==> sphere_discriminant(ray, center, r) < 0,
        sphere_roots(ray, center, r).len() != 0 ==> {
            &&& sphere_roots(ray, center, r).len() == 2
            &&& sphere_roots(ray, center, r)[0] <= sphere_roots(ray, center, r)[1]
        },
{
    let disc = sphere_discriminant(ray, center, r);
    if disc >= 0 {
        lemma_int_sqrt_exists(disc as nat);
        let s = int_sqrt(disc);
        let h = sphere_half_b(ray, center, r);
        let k = sphere_root_scale(ray, center, r);
        lemma_exact_dot_self_nonnegative(sphere_dir(ray), sphere_dir(ray).len());
        assert((-h - s) * k <= (-h + s) * k) by (nonlinear_arith)
            requires
                s >= 0,
                k > 0,
        ;
        lemma_bounded_quotient_monotone(
            (-h - s) * k,
            (-h + s) * k,
            sphere_root_divisor(ray, center, r),
        );
    }
}

/// A ray that starts inside a sphere or on it meets it once behind its
/// origin, or at it, and once in front, or at it. The origin is inside or on
/// the sphere where the coefficient `c` is not positive.
pub proof fn lemma_sphere_roots_from_inside(ray: RayModel, center: Seq<int>, r: int)
    requires
        sphere_c(ray, center, r) <= 0,
    ensures
        sphere_roots(ray, center, r).len() == 2,
        sphere_roots(ray, center, r)[0] <= 0,
        sphere_roots(ray, center, r)[1] >= 0,
{
    let a = sphere_a(ray);
    let c = sphere_c(ray, center, r);
    let h = sphere_half_b(ray, center, r);
    let disc = sphere_discriminant(ray, center, r);
    let k = sphere_root_scale(ray, center, r);
    lemma_exact_dot_self_nonnegative(sphere_dir(ray), sphere_dir(ray).len());
    assert(a * c <= 0) by (nonlinear_arith)
        requires
            a >= 0,
            c <= 0,
    ;
    assert(h * h >= 0) by (nonlinear_arith);
    let m = if h < 0 {
        -h
    } else {
        h
    };
    assert(m * m == h * h) by (nonlinear_arith)
        requires
            m == h || m == -h,
    ;
    lemma_int_sqrt_at_least(disc, m);
    let s = int_sqrt(disc);
    assert((-h - s) * k <= 0) by (nonlinear_arith)
        requires
            -h - s <= 0,
            k > 0,
    ;
    assert((-h + s) * k >= 0) by (nonlinear_arith)
        requires
            -h + s >= 0,
            k > 0,
    ;
    lemma_bounded_quotient_monotone(
        (-h - s) * k,
        (-h + s) * k,
        sphere_root_divisor(ray, center, r),
    );
}

/// A ray that starts at the center of a sphere meets it in two points at
/// opposite distances, one behind the origin and one in front.
pub proof fn lemma_sphere_roots_from_center(ray: RayModel, center: Seq<int>, r: int)
    requires
        ray.origin == center,
    ensures
        sphere_roots(ray, center, r).len() == 2,
        sphere_roots(ray, center, r)[0] == -sphere_roots(ray, center, r)[1],
        sphere_roots(ray, center, r)[0] <= 0,
        sphere_roots(ray, center, r)[1] >= 0,
{
    let offset = sphere_offset(ray, center, r);
    let dir = sphere_dir(ray);
    let radius = sphere_radius(ray, center, r);
    assert forall|i: int| 0 <= i < offset.len() implies offset[i] == 0 by {
        assert(trunc_div(0, 8) == 0);
    }
    lemma_exact_dot_zero_left(offset, dir, offset.len());
    lemma_exact_dot_zero_left(offset, offset, offset.len());
    assert(radius * radius >= 0) by (nonlinear_arith);
    lemma_sphere_roots_from_inside(ray, center, r);
    let h = sphere_half_b(ray, center, r);
    let s = int_sqrt(sphere_discriminant(ray, center, r));
    let k = sphere_root_scale(ray, center, r);
    assert(h == 0);
    lemma_exact_dot_self_nonnegative(sphere_dir(ray), sphere_dir(ray).len());
    assert((-h - s) * k == -((-h + s) * k)) by (nonlinear_arith)
        requires
            h == 0,
    ;
    lemma_bounded_quotient_monotone(
        (-h + s) * k,
        (-h + s) * k,
        sphere_root_divisor(ray, center, r),
    );
}

/// A ray meets a box in no point or in two, the entry first.
pub proof fn lemma_box_roots_ordered(ray: RayModel, min: Seq<int>, max: Seq<int>)
    ensures
        box_roots(ray, min, max).len() == 0 <==> box_near(ray, min, max) > box_far(ray, min, max),
        box_roots(ray, min, max).len() != 0 ==> {
            &&& box_roots(ray, min, max).len() == 2
            &&& box_roots(ray, min, max)[0] <= box_roots(ray, min, max)[1]
        },
{
}

/// Which of the two corners of a box is given first does not matter.
pub proof fn lemma_box_roots_corner_order(ray: RayModel, a: Seq<int>, b: Seq<int>)
    ensures
        box_roots(ray, a, b) == box_roots(ray, b, a),
{
}

/// Exchanging the two bounds of one axis does not matter.
pub proof fn lemma_box_roots_axis_order(ray: RayModel, min: Seq<int>, max: Seq<int>, axis: int)
    requires
        min.len() == 4,
        max.len() == 4,
        0 <= axis < 3,
    ensures
        box_roots(ray, min, max) == box_roots(
            ray,
            min.update(axis, max[axis]),
            max.update(axis, min[axis]),
        ),
{
}

/// A ray that runs beside a box misses it: where the ray does not move
/// along the axis `k` and starts outside the slab of `k`, and the slab of
/// some axis `j` is crossed at distances inside the range, there is no hit.
pub proof fn lemma_box_roots_beside(ray: RayModel, min: Seq<int>, max: Seq<int>, k: int, j: int)
    requires
        0 <= k < 3,
        0 <= j < 3,
        ray.dir[k] == 0,
        (ray.origin[k] < min[k] && ray.origin[k] < max[k]) || (ray.origin[k] > min[k]
            && ray.origin[k] > max[k]),
        -MAX_RAW < slab_near(ray, min, max, j),
        slab_far(ray, min, max, j) < MAX_RAW,
    ensures
        box_roots(ray, min, max).len() == 0,
{
}

/// Four wide integers as a sequence.
pub open spec fn ints4(x: [i128; 4]) -> Seq<int> {
    Seq::new(4, |i: int| x[i] as int)
}

/// The raw components of `a`.
fn raw_values(a: &Vec4) -> (r: [i128; 4])
    ensures
        forall|i: int| 0 <= i < 4 ==> r[i] == a@[i],
        forall|i: int| 0 <= i < 4 ==> -0x8000_0000_0000_0000 <= #[trigger] r[i] < 0x8000_0000_0000_0000,
{
    [
        a.values[0].raw as i128,
        a.values[1].raw as i128,
        a.values[2].raw as i128,
        a.values[3].raw as i128,
    ]
}

/// The components of `a - b`, in full.
fn differences(a: &Vec4, b: &Vec4) -> (r: [i128; 4])
    ensures
        forall|i: int| 0 <= i < 4 ==> r[i] == a@[i] - b@[i],
        forall|i: int| 0 <= i < 4 ==> -0x1_0000_0000_0000_0000 < #[trigger] r[i] < 0x1_0000_0000_0000_0000,
{
    [
        a.values[0].raw as i128 - b.values[0].raw as i128,
        a.values[1].raw as i128 - b.values[1].raw as i128,
        a.values[2].raw as i128 - b.values[2].raw as i128,
        a.values[3].raw as i128 - b.values[3].raw as i128,
    ]
}

/// Whether one of the four numbers is large.
fn has_large(x: &[i128; 4]) -> (r: bool)
    ensures
        r == any_large(ints4(*x), 4),
{
    reveal_with_fuel(any_large, 5);
    is_large_raw(x[0]) || is_large_raw(x[1]) || is_large_raw(x[2]) || is_large_raw(x[3])
}

/// The four numbers, or their eighths.
fn reduced(x: &[i128; 4], large: bool) -> (r: [i128; 4])
    requires
        large == any_large(ints4(*x), 4) || large,
        forall|i: int| 0 <= i < 4 ==> -0x1_0000_0000_0000_0000 < #[trigger] x[i] < 0x1_0000_0000_0000_0000,
    ensures
        forall|i: int| 0 <= i < 4 ==> r[i] == reduce(x[i] as int, large),
        forall|i: int| 0 <= i < 4 ==> -LARGE_RAW < #[trigger] r[i] < LARGE_RAW,
{
    proof {
        if !large {
            lemma_none_large(ints4(*x), 4, 0);
            lemma_none_large(ints4(*x), 4, 1);
            lemma_none_large(ints4(*x), 4, 2);
            lemma_none_large(ints4(*x), 4, 3);
        }
    }
    if large {
        [x[0] / 8, x[1] / 8, x[2] / 8, x[3] / 8]
    } else {
        [x[0], x[1], x[2], x[3]]
    }
}

/// The dot product of four numbers with four, in full.
fn dot4(x: &[i128; 4], y: &[i128; 4]) -> (r: i128)
    requires
        forall|i: int| 0 <= i < 4 ==> -LARGE_RAW < #[trigger] x[i] < LARGE_RAW,
        forall|i: int| 0 <= i < 4 ==> -LARGE_RAW < #[trigger] y[i] < LARGE_RAW,
    ensures
        r == exact_dot(ints4(*x), ints4(*y)),
        -0x1000_0000_0000_0000_0000_0000_0000_0000 < r < 0x1000_0000_0000_0000_0000_0000_0000_0000,
{
    proof {
        reveal_with_fuel(exact_dot_prefix, 5);
        assert forall|i: int| 0 <= i < 4 implies -0x400_0000_0000_0000_0000_0000_0000_0000
            < #[trigger] (x[i] * y[i]) < 0x400_0000_0000_0000_0000_0000_0000_0000 by {
            let u = x[i] as int;
            let v = y[i] as int;
            assert(-0x400_0000_0000_0000_0000_0000_0000_0000 < u * v
                < 0x400_0000_0000_0000_0000_0000_0000_0000) by (nonlinear_arith)
                requires
                    -0x2000_0000_0000_0000 < u < 0x2000_0000_0000_0000,
                    -0x2000_0000_0000_0000 < v < 0x2000_0000_0000_0000,
            ;
        }
        assert(x[0] * y[0] == x[0] * y[0]);
        assert(x[1] * y[1] == x[1] * y[1]);
        assert(x[2] * y[2] == x[2] * y[2]);
        assert(x[3] * y[3] == x[3] * y[3]);
    }
    x[0] * y[0] + x[1] * y[1] + x[2] * y[2] + x[3] * y[3]
}

impl Ray {
    pub fn new(origin: Vec4, dir: Vec4) -> (r: Self)
        ensures
            r.origin == origin,
            r.dir == dir,
    {
        Self { origin, dir }
    }

    /// The point at distance `t` along the ray.
    pub fn position(&self, t: Scalar) -> (p: Vec4)
        ensures
            p@ == ray_position(self@, t@),
    {
        let mut p = self.origin;
        let mut i: usize = 0;
        while i < 4
            invariant
                i <= 4,
                forall|j: int|
                    0 <= j < i ==> p.values[j]@ == bounded_quotient(
                        self@.dir[j] * t@ + self@.origin[j] * ONE_RAW,
                        ONE_RAW as int,
                    ),
            decreases 4 - i,
        {
            proof {
                lemma_count_fits(1);
            }
            let sum = SignedWide::zero().plus_product(self.dir.values[i].raw, t.raw).plus_product(
                self.origin.values[i].raw,
                ONE_RAW,
            );
            p.values[i] = sum.quotient(1, &SignedWide::one_whole());
            i = i + 1;
        }
        assert(p@ =~= ray_position(self@, t@));
        p
    }

    /// The distances at which the ray meets `sphere`.
    pub fn intersect_sphere(&self, sphere: &Sphere) -> (ts: Vec<Scalar>)
        ensures
            scalars_view(ts@) == sphere_roots(self@, sphere.center@, sphere.r@),
            ts@.len() == 0 <==> sphere_discriminant(self@, sphere.center@, sphere.r@) < 0,
            ts@.len() != 0 ==> ts@.len() == 2 && ts@[0]@ <= ts@[1]@,
    {
        proof {
            lemma_sphere_roots_ordered(self@, sphere.center@, sphere.r@);
        }
        let ghost center = sphere.center@;
        let ghost radius = sphere.r@;
        let diff = differences(&self.origin, &sphere.center);
        let dirs = raw_values(&self.dir);
        let large = has_large(&diff) || is_large_raw(sphere.r.raw as i128);
        let dir_is_large = has_large(&dirs);
        assert(ints4(diff) =~= offset_from(self@, center));
        assert(ints4(dirs) =~= self@.dir);
        assert(large == sphere_large(self@, center, radius));
        assert(dir_is_large == dir_large(self@));
        let oc = reduced(&diff, large);
        let dd = reduced(&dirs, dir_is_large);
        assert(ints4(oc) =~= sphere_offset(self@, center, radius));
        assert(ints4(dd) =~= sphere_dir(self@));
        let r: i128 = if large {
            (sphere.r.raw as i128) / 8
        } else {
            sphere.r.raw as i128
        };
        assert(r == sphere_radius(self@, center, radius));

        let a = dot4(&dd, &dd);
        let h = dot4(&oc, &dd);
        proof {
            lemma_exact_dot_self_nonnegative(ints4(dd), 4);
            lemma_exact_dot_self_nonnegative(ints4(oc), 4);
            assert(r * r < LARGE_RAW * LARGE_RAW && r * r >= 0) by (nonlinear_arith)
                requires
                    -LARGE_RAW < r < LARGE_RAW,
            ;
            assert(LARGE_RAW * LARGE_RAW == 0x400_0000_0000_0000_0000_0000_0000_0000);
        }
        let c = dot4(&oc, &oc) - r * r;
        assert(a == sphere_a(self@));
        assert(h == sphere_half_b(self@, center, radius));
        assert(c == sphere_c(self@, center, radius));

        let h_mag = abs_i128(h);
        let c_mag = abs_i128(c);
        proof {
            assert(h_mag * h_mag == h * h) by (nonlinear_arith)
                requires
                    h_mag == h || h_mag == -h,
            ;
            assert(h_mag * h_mag < 0x1000_0000_0000_0000_0000_0000_0000_0000
                * 0x1000_0000_0000_0000_0000_0000_0000_0000) by (nonlinear_arith)
                requires
                    0 <= h_mag < 0x1000_0000_0000_0000_0000_0000_0000_0000,
            ;
            assert(a * c_mag < 0x1000_0000_0000_0000_0000_0000_0000_0000
                * 0x1000_0000_0000_0000_0000_0000_0000_0000) by (nonlinear_arith)
                requires
                    0 <= a < 0x1000_0000_0000_0000_0000_0000_0000_0000,
                    0 <= c_mag < 0x1000_0000_0000_0000_0000_0000_0000_0000,
            ;
            assert(two_256() == 0x1_0000_0000_0000_0000_0000_0000_0000_0000int
                * 0x1_0000_0000_0000_0000_0000_0000_0000_0000int);
            assert(a * c == a * c_mag || a * c == -(a * c_mag)) by (nonlinear_arith)
                requires
                    c_mag == c || c_mag == -c,
            ;
            assert(c <= 0 ==> a * c == -(a * c_mag)) by (nonlinear_arith)
                requires
                    c_mag == c || c_mag == -c,
                    c_mag >= 0,
                    a >= 0,
            ;
            assert(c > 0 ==> a * c == a * c_mag) by (nonlinear_arith)
                requires
                    c_mag == c || c_mag == -c,
                    c_mag >= 0,
                    a >= 0,
            ;
        }
        let hh = Wide::mul(h_mag, h_mag);
        let ac = Wide::mul(a as u128, c_mag);

        let mut result: Vec<Scalar> = Vec::new();
        if c > 0 && !ac.le(&hh) {
            assert(scalars_view(result@) =~= sphere_roots(self@, center, radius));
            return result;
        }
        let disc = if c > 0 {
            hh.sub(&ac)
        } else {
            hh.add(&ac)
        };
        assert(disc@ == sphere_discriminant(self@, center, radius));
        let root = disc.sqrt_capped(0x4000_0000_0000_0000_0000_0000_0000_0000);
        proof {
            lemma_int_sqrt_exists(disc@ as nat);
            let s = int_sqrt(disc@);
            if s >= 0x2000_0000_0000_0000_0000_0000_0000_0000 {
                assert(s * s >= 0x2000_0000_0000_0000_0000_0000_0000_0000int
                    * 0x2000_0000_0000_0000_0000_0000_0000_0000int) by (nonlinear_arith)
                    requires
                        s >= 0x2000_0000_0000_0000_0000_0000_0000_0000,
                ;
            }
            assert(root == s);
        }
        let scale: u128 = if large && !dir_is_large {
            8_000_000_000
        } else {
            1_000_000_000
        };
        let den: u128 = if dir_is_large && !large {
            8 * (a as u128)
        } else {
            a as u128
        };
        assert(scale == sphere_root_scale(self@, center, radius));
        assert(den == sphere_root_divisor(self@, center, radius));
        let t1 = quotient_of(-h - (root as i128), scale, den);
        let t2 = quotient_of(-h + (root as i128), scale, den);
        result.push(t1);
        result.push(t2);
        assert(scalars_view(result@) =~= sphere_roots(self@, center, radius));
        assert(scalars_view(result@)[0] == result@[0]@ && scalars_view(result@)[1]
            == result@[1]@);
        result
    }

    /// The distances at which the ray enters and leaves the slab between the
    /// two planes of `aabb` across `axis`.
    fn intersect_slab(&self, aabb: &Aabb, axis: usize) -> (r: (Scalar, Scalar))
        requires
            axis < 3,
        ensures
            r.0@ == slab_near(self@, aabb.min@, aabb.max@, axis as int),
            r.1@ == slab_far(self@, aabb.min@, aabb.max@, axis as int),
    {
        let origin = self.origin.values[axis].raw as i128;
        let dir = SignedWide::product(self.dir.values[axis].raw as i128, 1);
        let to_min = SignedWide::product(aabb.min.values[axis].raw as i128 - origin, 1);
        let to_max = SignedWide::product(aabb.max.values[axis].raw as i128 - origin, 1);
        proof {
            assert(two_256() > 0x1_0000_0000_0000_0000_0000_0000_0000_0000_0000_0000int);
            assert(to_min.magnitude@ * 1_000_000_000 < two_256()) by (nonlinear_arith)
                requires
                    0 <= to_min.magnitude@ < 0x1_0000_0000_0000_0000_0000,
                    two_256() > 0x1_0000_0000_0000_0000_0000_0000_0000_0000_0000_0000int,
            ;
            assert(to_max.magnitude@ * 1_000_000_000 < two_256()) by (nonlinear_arith)
                requires
                    0 <= to_max.magnitude@ < 0x1_0000_0000_0000_0000_0000,
                    two_256() > 0x1_0000_0000_0000_0000_0000_0000_0000_0000_0000_0000int,
            ;
        }
        let ta = to_min.quotient(1_000_000_000, &dir);
        let tb = to_max.quotient(1_000_000_000, &dir);
        (ta.min(tb), ta.max(tb))
    }

    /// The distances at which the ray meets `aabb`, by the slab method.
    pub fn intersect_aabb(&self, aabb: &Aabb) -> (ts: Vec<Scalar>)
        ensures
            scalars_view(ts@) == box_roots(self@, aabb.min@, aabb.max@),
            ts@.len() == 0 <==> box_near(self@, aabb.min@, aabb.max@) > box_far(
                self@,
                aabb.min@,
                aabb.max@,
            ),
            ts@.len() != 0 ==> ts@.len() == 2 && ts@[0]@ <= ts@[1]@,
    {
        let (near_x, far_x) = self.intersect_slab(aabb, 0);
        let (near_y, far_y) = self.intersect_slab(aabb, 1);
        let (near_z, far_z) = self.intersect_slab(aabb, 2);
        let near = near_x.max(near_y).max(near_z);
        let far = far_x.min(far_y).min(far_z);
        let mut result: Vec<Scalar> = Vec::new();
        if near.raw > far.raw {
            assert(scalars_view(result@) =~= box_roots(self@, aabb.min@, aabb.max@));
            result
        } else {
            result.push(near);
            result.push(far);
            assert(scalars_view(result@) =~= box_roots(self@, aabb.min@, aabb.max@));
            assert(scalars_view(result@)[0] == result@[0]@ && scalars_view(result@)[1]
                == result@[1]@);
            result
        }
    }
}

} // verus!
