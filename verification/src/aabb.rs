//! Axis-aligned boxes.

use crate::intersection::{hits_view, Hit, Intersection};
use crate::material::Material;
use crate::object::{Object, Primitive, PrimitiveModel};
use crate::ray::{box_roots, ray_position, Ray, RayModel};
use crate::scalar::{fx_abs, fx_sub, scalars_view, Scalar, ONE_RAW};
use crate::tuple::{tuple_neg, vector, vector_seq, Vec4};
use vstd::prelude::*;

verus! {

/// How close a hit must be to a face plane to count as lying on it, in raw
/// units (0.1).
pub const FACE_TOLERANCE_RAW: i64 = 100_000_000;

/// A box as plain values.
pub struct AabbModel {
    pub min: Seq<int>,
    pub max: Seq<int>,
    pub normal_outside: bool,
    pub mat: Material,
}

pub struct Aabb {
    pub min: Vec4,
    pub max: Vec4,
    /// Whether the box is seen from outside; a box seen from inside turns its
    /// normals inward.
    pub normal_outside: bool,
    pub mat: Material,
}

impl View for Aabb {
    type V = AabbModel;

    open spec fn view(&self) -> AabbModel {
        AabbModel {
            min: self.min@,
            max: self.max@,
            normal_outside: self.normal_outside,
            mat: self.mat,
        }
    }
}

/// Whether `a` and `b` differ by less than the face tolerance.
pub open spec fn close_to(a: int, b: int) -> bool {
    fx_abs(fx_sub(a, b)) < FACE_TOLERANCE_RAW
}

/// The outward normal of the face that `pos` lies on: the faces are tried in
/// the order min x, max x, min y, max y, min z, and max z is what is left.
pub open spec fn face_normal(min: Seq<int>, max: Seq<int>, pos: Seq<int>) -> Seq<int> {
    if close_to(min[0], pos[0]) {
        vector_seq(-ONE_RAW, 0, 0)
    } else if close_to(max[0], pos[0]) {
        vector_seq(ONE_RAW as int, 0, 0)
    } else if close_to(min[1], pos[1]) {
        vector_seq(0, -ONE_RAW, 0)
    } else if close_to(max[1], pos[1]) {
        vector_seq(0, ONE_RAW as int, 0)
    } else if close_to(min[2], pos[2]) {
        vector_seq(0, 0, -ONE_RAW)
    } else {
        vector_seq(0, 0, ONE_RAW as int)
    }
}

/// The normal of `aabb` at `pos`: the face's outward normal, turned round for
/// a box seen from inside.
pub open spec fn box_normal(aabb: AabbModel, pos: Seq<int>) -> Seq<int> {
    if aabb.normal_outside {
        face_normal(aabb.min, aabb.max, pos)
    } else {
        tuple_neg(face_normal(aabb.min, aabb.max, pos))
    }
}

/// The hit of `ray` on `aabb` at the distance `t`.
pub open spec fn box_hit(aabb: AabbModel, ray: RayModel, t: int) -> Hit {
    Hit {
        t,
        pos: ray_position(ray, t),
        normal: box_normal(aabb, ray_position(ray, t)),
        material: aabb.mat,
    }
}

/// The hits of `ray` on `aabb`: the entry, then the exit.
pub open spec fn box_hits(aabb: AabbModel, ray: RayModel) -> Seq<Hit> {
    Seq::new(
        box_roots(ray, aabb.min, aabb.max).len(),
        |i: int| box_hit(aabb, ray, box_roots(ray, aabb.min, aabb.max)[i]),
    )
}

impl Aabb {
    /// A box with the default material.
    pub fn new(min: Vec4, max: Vec4, normal_outside: bool) -> (b: Self)
        ensures
            b.min == min,
            b.max == max,
            b.normal_outside == normal_outside,
            b.mat == Material::default_spec(),
    {
        Self { min, max, normal_outside, mat: Material::default() }
    }

    /// The normal at the surface point `pos`.
    pub fn normal_at(&self, pos: Vec4) -> (n: Vec4)
        ensures
            n@ == box_normal(self@, pos@),
    {
        let one = Scalar::from_raw(ONE_RAW);
        let minus_one = Scalar::from_raw(-ONE_RAW);
        let zero = Scalar::from_raw(0);
        let normal = if nearly_close(self.min.values[0], pos.values[0]) {
            vector(minus_one, zero, zero)
        } else if nearly_close(self.max.values[0], pos.values[0]) {
            vector(one, zero, zero)
        } else if nearly_close(self.min.values[1], pos.values[1]) {
            vector(zero, minus_one, zero)
        } else if nearly_close(self.max.values[1], pos.values[1]) {
            vector(zero, one, zero)
        } else if nearly_close(self.min.values[2], pos.values[2]) {
            vector(zero, zero, minus_one)
        } else {
            vector(zero, zero, one)
        };

        if self.normal_outside {
            normal
        } else {
            core::ops::Neg::neg(normal)
        }
    }
}

/// Whether `a` and `b` differ by less than the face tolerance.
pub fn nearly_close(a: Scalar, b: Scalar) -> (r: bool)
    ensures
        r == close_to(a@, b@),
{
    let diff = (a - b).abs();
    diff.raw < FACE_TOLERANCE_RAW
}

impl Object for Aabb {
    open spec fn primitive(&self) -> PrimitiveModel {
        PrimitiveModel::Aabb(self@)
    }

    fn into_primitive(self) -> (p: Primitive) {
        Primitive::Aabb(self)
    }

    fn ray_intersect(&self, ray: &Ray) -> (r: Vec<Intersection<'_>>) {
        let ts = ray.intersect_aabb(self);
        let mut result: Vec<Intersection<'_>> = Vec::new();
        let mut i: usize = 0;
        while i < ts.len()
            invariant
                i <= ts.len(),
                result@.len() == i,
                scalars_view(ts@) == box_roots(ray@, self.min@, self.max@),
                forall|k: int|
                    0 <= k < i ==> (#[trigger] result@[k])@ == box_hit(self@, ray@, ts@[k]@),
            decreases ts.len() - i,
        {
            let t = ts[i];
            let pos = ray.position(t);
            let normalv = self.normal_at(pos);
            result.push(Intersection::new(t, pos, normalv, &self.mat));
            i = i + 1;
        }
        proof {
            let roots = box_roots(ray@, self.min@, self.max@);
            assert(roots.len() == ts@.len());
            assert forall|k: int| 0 <= k < ts@.len() implies ts@[k]@ == roots[k] by {
                assert(scalars_view(ts@)[k] == ts@[k]@);
            }
            assert(hits_view(result@) =~= box_hits(self@, ray@));
        }
        result
    }
}

} // verus!
