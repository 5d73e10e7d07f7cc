//! Spheres.

use crate::intersection::{hits_view, Hit, Intersection};
use crate::material::Material;
use crate::object::{Object, Primitive, PrimitiveModel};
use crate::ray::{ray_position, sphere_roots, Ray, RayModel};
use crate::scalar::{scalars_view, Scalar, ONE_RAW};
use crate::tuple::{exact_sub, has_nonzero, tuple_mag, tuple_normalize, Vec4};
use vstd::prelude::*;

verus! {

/// A sphere as plain values.
pub struct SphereModel {
    pub center: Seq<int>,
    pub r: int,
    pub mat: Material,
}

pub struct Sphere {
    pub center: Vec4,
    pub r: Scalar,
    pub mat: Material,
}

impl View for Sphere {
    type V = SphereModel;

    open spec fn view(&self) -> SphereModel {
        SphereModel { center: self.center@, r: self.r@, mat: self.mat }
    }
}

/// The unit normal of a sphere about `center` at the point `p`: the
/// direction from the center to `p`.
pub open spec fn sphere_normal(center: Seq<int>, p: Seq<int>) -> Seq<int> {
    tuple_normalize(exact_sub(p, center))
}

/// The hit of `ray` on `sphere` at the distance `t`.
pub open spec fn sphere_hit(sphere: SphereModel, ray: RayModel, t: int) -> Hit {
    Hit {
        t,
        pos: ray_position(ray, t),
        normal: sphere_normal(sphere.center, ray_position(ray, t)),
        material: sphere.mat,
    }
}

/// The hits of `ray` on `sphere`, one for each root, the nearer first.
pub open spec fn sphere_hits(sphere: SphereModel, ray: RayModel) -> Seq<Hit> {
    Seq::new(
        sphere_roots(ray, sphere.center, sphere.r).len(),
        |i: int| sphere_hit(sphere, ray, sphere_roots(ray, sphere.center, sphere.r)[i]),
    )
}

impl Sphere {
    /// A sphere with the default material.
    pub fn new(center: Vec4, r: Scalar) -> (s: Self)
        ensures
            s.center == center,
            s.r == r,
            s.mat == Material::default_spec(),
    {
        Self { center, r, mat: Material::default() }
    }

    /// The unit normal at the surface point `p`.
    pub fn normal_at(&self, p: Vec4) -> (n: Vec4)
        ensures
            n@ == sphere_normal(self.center@, p@),
            p@ != self.center@ ==> ONE_RAW - 5 <= tuple_mag(n@) <= ONE_RAW,
    {
        proof {
            let d = exact_sub(p@, self.center@);
            if p@ != self.center@ {
                if !has_nonzero(d) {
                    assert forall|i: int| 0 <= i < 4 implies p@[i] == self.center@[i] by {
                        assert(d[i] == 0);
                    }
                    assert(p@ =~= self.center@);
                }
            }
        }
        p.unit_from(self.center)
    }
}

impl Object for Sphere {
    open spec fn primitive(&self) -> PrimitiveModel {
        PrimitiveModel::Sphere(self@)
    }

    fn into_primitive(self) -> (p: Primitive) {
        Primitive::Sphere(self)
    }

    fn ray_intersect(&self, ray: &Ray) -> (r: Vec<Intersection<'_>>) {
        let ts = ray.intersect_sphere(self);
        let mut result: Vec<Intersection<'_>> = Vec::new();
        let mut i: usize = 0;
        while i < ts.len()
            invariant
                i <= ts.len(),
                result@.len() == i,
                scalars_view(ts@) == sphere_roots(ray@, self.center@, self.r@),
                forall|k: int|
                    0 <= k < i ==> (#[trigger] result@[k])@ == sphere_hit(self@, ray@, ts@[k]@),
            decreases ts.len() - i,
        {
            let t = ts[i];
            let pos = ray.position(t);
            let normalv = self.normal_at(pos);
            result.push(Intersection::new(t, pos, normalv, &self.mat));
            i = i + 1;
        }
        proof {
            let roots = sphere_roots(ray@, self.center@, self.r@);
            assert(roots.len() == ts@.len());
            assert forall|k: int| 0 <= k < ts@.len() implies ts@[k]@ == roots[k] by {
                assert(scalars_view(ts@)[k] == ts@[k]@);
            }
            assert(hits_view(result@) =~= sphere_hits(self@, ray@));
        }
        result
    }
}

} // verus!
