//! What a ray can hit: the kinds of primitive and what they share.

use crate::aabb::{box_hits, Aabb, AabbModel};
use crate::intersection::{hits_view, Hit, Intersection};
use crate::ray::{Ray, RayModel};
use crate::sphere::{sphere_hits, Sphere, SphereModel};
use vstd::prelude::*;

verus! {

/// A primitive as plain values.
pub enum PrimitiveModel {
    Sphere(SphereModel),
    Aabb(AabbModel),
}

/// One of the kinds of primitive that a world holds.
pub enum Primitive {
    Sphere(Sphere),
    Aabb(Aabb),
}

impl View for Primitive {
    type V = PrimitiveModel;

    open spec fn view(&self) -> PrimitiveModel {
        match self {
            Primitive::Sphere(s) => PrimitiveModel::Sphere(s@),
            Primitive::Aabb(b) => PrimitiveModel::Aabb(b@),
        }
    }
}

/// The hits of `ray` on the primitive `p`.
pub open spec fn primitive_hits(p: PrimitiveModel, ray: RayModel) -> Seq<Hit> {
    match p {
        PrimitiveModel::Sphere(s) => sphere_hits(s, ray),
        PrimitiveModel::Aabb(b) => box_hits(b, ray),
    }
}

/// A shape that a ray can be intersected with.
pub trait Object: Sized {
    /// The primitive that this object is.
    spec fn primitive(&self) -> PrimitiveModel;

    /// This object as a world stores it.
    fn into_primitive(self) -> (p: Primitive)
        ensures
            p@ == self.primitive(),
    ;

    /// Every hit of `ray` on this object, behind the ray's origin too.
    fn ray_intersect(&self, ray: &Ray) -> (r: Vec<Intersection<'_>>)
        ensures
            hits_view(r@) == primitive_hits(self.primitive(), ray@),
    ;
}

impl Object for Primitive {
    open spec fn primitive(&self) -> PrimitiveModel {
        self@
    }

    fn into_primitive(self) -> (p: Primitive) {
        self
    }

    fn ray_intersect(&self, ray: &Ray) -> (r: Vec<Intersection<'_>>) {
        match self {
            Primitive::Sphere(s) => s.ray_intersect(ray),
            Primitive::Aabb(b) => b.ray_intersect(ray),
        }
    }
}

} // verus!
