//! The scene: primitives and lights, the hits of a ray on all of them, the
//! shadow test, and the color that a ray sees.

use crate::color::{rgb_add, rgb_black, rgb_scale, Color, ColorModel};
use crate::intersection::{
    first_in_front, frontmost, hits_view, is_ascending, lemma_frontmost_is_nearest,
    sort_by_distance, sorted_by_distance, Hit, Intersection,
};
use crate::material::{Material, MaterialPattern};
use crate::object::{primitive_hits, Object, Primitive, PrimitiveModel};
use crate::point_light::{direct_lighting, direct_term, LightModel, PointLight};
use crate::ray::{Ray, RayModel};
use crate::scalar::{Scalar, ONE_RAW};
use crate::sphere::{Sphere, SphereModel};
use crate::tuple::{exact_sub, point, point_seq, tuple_dot, tuple_mag, tuple_normalize, Vec4};
use vstd::prelude::*;

verus! {

/// The least distance at which a hit can shade the point the shadow ray
/// starts from, in raw units (0.01).
pub const SHADOW_BIAS_RAW: i64 = 10_000_000;

/// A scene as plain values.
pub struct WorldModel {
    pub objects: Seq<PrimitiveModel>,
    pub lights: Seq<LightModel>,
}

pub struct World {
    pub objects: Vec<Primitive>,
    pub point_lights: Vec<PointLight>,
}

pub open spec fn primitives_view(s: Seq<Primitive>) -> Seq<PrimitiveModel> {
    Seq::new(s.len(), |i: int| s[i]@)
}

pub open spec fn lights_view(s: Seq<PointLight>) -> Seq<LightModel> {
    Seq::new(s.len(), |i: int| s[i]@)
}

impl View for World {
    type V = WorldModel;

    open spec fn view(&self) -> WorldModel {
        WorldModel {
            objects: primitives_view(self.objects@),
            lights: lights_view(self.point_lights@),
        }
    }
}

/// The hits of `ray` on every primitive, primitive after primitive in the
/// order in which they were added.
pub open spec fn all_hits(objects: Seq<PrimitiveModel>, ray: RayModel) -> Seq<Hit>
    decreases objects.len(),
{
    if objects.len() == 0 {
        Seq::empty()
    } else {
        all_hits(objects.drop_last(), ray) + primitive_hits(objects.last(), ray)
    }
}

/// The hits of `ray` on the scene in ascending order of distance.
pub open spec fn world_hits(objects: Seq<PrimitiveModel>, ray: RayModel) -> Seq<Hit> {
    sorted_by_distance(all_hits(objects, ray))
}

/// The ray from `pos` toward the light at `light_pos`.
pub open spec fn shadow_ray(pos: Seq<int>, light_pos: Seq<int>) -> RayModel {
    RayModel { origin: pos, dir: tuple_normalize(exact_sub(light_pos, pos)) }
}

/// Whether the hit `h` of a shadow ray keeps the light off: it is farther
/// than the bias, not farther than the light, and its surface faces away
/// from the ray's origin.
pub open spec fn blocks_light(h: Hit, dir: Seq<int>, reach: int) -> bool {
    SHADOW_BIAS_RAW < h.t <= reach && tuple_dot(h.normal, dir) > 0
}

/// Whether something in the scene keeps the light at `light_pos` off `pos`.
pub open spec fn in_shadow(
    objects: Seq<PrimitiveModel>,
    pos: Seq<int>,
    light_pos: Seq<int>,
) -> bool {
    exists|i: int|
        0 <= i < world_hits(objects, shadow_ray(pos, light_pos)).len() && blocks_light(
            #[trigger] world_hits(objects, shadow_ray(pos, light_pos))[i],
            shadow_ray(pos, light_pos).dir,
            tuple_mag(exact_sub(light_pos, pos)),
        )
}

/// The color of the hit `h` once the first `n` lights are counted: the
/// surface color times the ambient coefficient, and for each light what it
/// adds directly.
pub open spec fn lit_color(world: WorldModel, h: Hit, eye: Seq<int>, n: nat) -> ColorModel
    decreases n,
{
    if n == 0 {
        rgb_scale(h.material.color_at(h.pos), h.material.ambient@)
    } else {
        rgb_add(
            lit_color(world, h, eye, (n - 1) as nat),
            direct_term(
                h.material,
                world.lights[n - 1],
                h.pos,
                eye,
                h.normal,
                in_shadow(world.objects, h.pos, world.lights[n - 1].pos),
            ),
        )
    }
}

/// The color that `ray` sees: black where nothing lies in front of it, else
/// the color of the nearest hit in front under all lights.
pub open spec fn shade_color(world: WorldModel, ray: RayModel, eye: Seq<int>) -> ColorModel {
    match frontmost(world_hits(world.objects, ray)) {
        None => rgb_black(),
        Some(h) => lit_color(world, h, eye, world.lights.len()),
    }
}

/// Two concentric spheres about the origin, of radius 1 and 0.5, and one
/// white light at `(-10, 10, -10)`.
pub open spec fn default_world() -> WorldModel {
    WorldModel {
        objects: seq![
            PrimitiveModel::Sphere(
                SphereModel {
                    center: point_seq(0, 0, 0),
                    r: ONE_RAW as int,
                    mat: Material {
                        color: Color {
                            red: Scalar { raw: 800_000_000 },
                            green: Scalar { raw: 200_000_000 },
                            blue: Scalar { raw: 600_000_000 },
                        },
                        pattern: MaterialPattern::Solid,
                        ambient: Scalar { raw: 200_000_000 },
                        diffuse: Scalar { raw: 700_000_000 },
                        specular: Scalar { raw: 200_000_000 },
                        shininess: 200,
                    },
                },
            ),
            PrimitiveModel::Sphere(
                SphereModel {
                    center: point_seq(0, 0, 0),
                    r: 500_000_000,
                    mat: Material {
                        color: Color {
                            red: Scalar { raw: 200_000_000 },
                            green: Scalar { raw: 600_000_000 },
                            blue: Scalar { raw: 800_000_000 },
                        },
                        pattern: MaterialPattern::Solid,
                        ambient: Scalar { raw: 200_000_000 },
                        diffuse: Scalar { raw: 700_000_000 },
                        specular: Scalar { raw: 200_000_000 },
                        shininess: 200,
                    },
                },
            ),
        ],
        lights: seq![
            LightModel {
                pos: point_seq(-10 * ONE_RAW, 10 * ONE_RAW, -10 * ONE_RAW),
                intensity: ColorModel {
                    red: ONE_RAW as int,
                    green: ONE_RAW as int,
                    blue: ONE_RAW as int,
                },
            },
        ],
    }
}

/// What a ray sees is decided by a nearest hit in front of it: the color is
/// black exactly where no hit on any primitive has a positive distance, and
/// else it is the lit color of a hit that no hit in front is nearer than.
pub proof fn lemma_shade_sees_nearest(world: WorldModel, ray: RayModel, eye: Seq<int>)
    ensures
        match frontmost(world_hits(world.objects, ray)) {
            None => {
                &&& shade_color(world, ray, eye) == rgb_black()
                &&& forall|i: int|
                    0 <= i < all_hits(world.objects, ray).len() ==> (#[trigger] all_hits(
                        world.objects,
                        ray,
                    )[i]).t <= 0
            },
            Some(h) => {
                &&& shade_color(world, ray, eye) == lit_color(world, h, eye, world.lights.len())
                &&& all_hits(world.objects, ray).contains(h)
                &&& h.t > 0
                &&& forall|i: int|
                    0 <= i < all_hits(world.objects, ray).len() && (#[trigger] all_hits(
                        world.objects,
                        ray,
                    )[i]).t > 0 ==> h.t <= all_hits(world.objects, ray)[i].t
            },
        },
{
    lemma_frontmost_is_nearest(all_hits(world.objects, ray));
}

impl World {
    /// A scene with nothing in it.
    pub fn new() -> (w: Self)
        ensures
            w@ == (WorldModel { objects: Seq::empty(), lights: Seq::empty() }),
    {
        let w = Self { objects: Vec::new(), point_lights: Vec::new() };
        assert(w@.objects =~= Seq::empty());
        assert(w@.lights =~= Seq::empty());
        w
    }

    pub fn add_object<O: Object>(&mut self, obj: O)
        ensures
            final(self)@.objects == old(self)@.objects.push(obj.primitive()),
            final(self)@.lights == old(self)@.lights,
    {
        self.objects.push(obj.into_primitive());
        assert(self@.objects =~= old(self)@.objects.push(obj.primitive()));
    }

    pub fn add_pointlight(&mut self, light: PointLight)
        ensures
            final(self)@.lights == old(self)@.lights.push(light@),
            final(self)@.objects == old(self)@.objects,
    {
        self.point_lights.push(light);
        assert(self@.lights =~= old(self)@.lights.push(light@));
    }

    /// Every hit of `ray` on the scene, in ascending order of distance; hits
    /// at the same distance stay in the order of their primitives.
    pub fn intersect(&self, ray: &Ray) -> (r: Vec<Intersection<'_>>)
        ensures
            hits_view(r@) == world_hits(self@.objects, ray@),
            is_ascending(hits_view(r@)),
            hits_view(r@).to_multiset() == all_hits(self@.objects, ray@).to_multiset(),
    {
        let mut intersections: Vec<Intersection<'_>> = Vec::new();
        let mut i: usize = 0;
        assert(self@.objects.take(0) =~= Seq::empty());
        assert(hits_view(intersections@) =~= Seq::empty());
        while i < self.objects.len()
            invariant
                i <= self.objects.len(),
                hits_view(intersections@) == all_hits(self@.objects.take(i as int), ray@),
            decreases self.objects.len() - i,
        {
            let mut cur_intersections = self.objects[i].ray_intersect(ray);
            proof {
                let next = self@.objects.take(i + 1);
                assert(next.drop_last() =~= self@.objects.take(i as int));
                assert(next.last() == self.objects@[i as int]@);
            }
            let ghost before = intersections@;
            let ghost added = cur_intersections@;
            intersections.append(&mut cur_intersections);
            assert(hits_view(intersections@) =~= hits_view(before) + hits_view(added));
            i = i + 1;
        }
        assert(self@.objects.take(self.objects@.len() as int) =~= self@.objects);
        sort_by_distance(intersections)
    }

    /// The color that `ray` sees, looking along `eyev`.
    pub fn shade(&self, ray: &Ray, eyev: Vec4) -> (c: Color)
        ensures
            c@ == shade_color(self@, ray@, eyev@),
    {
        let intersections = self.intersect(ray);
        match first_in_front(&intersections) {
            None => Color::black(),
            Some(front_most) => {
                let mut acc_color = front_most.material.color(front_most.pos)
                    * front_most.material.ambient;
                let mut i: usize = 0;
                while i < self.point_lights.len()
                    invariant
                        i <= self.point_lights.len(),
                        acc_color@ == lit_color(self@, front_most@, eyev@, i as nat),
                    decreases self.point_lights.len() - i,
                {
                    let light = &self.point_lights[i];
                    let is_shadowed = self.is_shadowed(front_most.pos, light);
                    acc_color = acc_color + direct_lighting(
                        front_most.material,
                        light,
                        front_most.pos,
                        eyev,
                        front_most.normalv,
                        is_shadowed,
                    );
                    i = i + 1;
                }
                acc_color
            },
        }
    }

    /// Whether something in the scene keeps `light` off the point `pos`.
    pub fn is_shadowed(&self, pos: Vec4, light: &PointLight) -> (r: bool)
        ensures
            r == in_shadow(self@.objects, pos@, light@.pos),
    {
        let obj_to_light_v = light.pos.unit_from(pos);
        let ray = Ray::new(pos, obj_to_light_v);
        let reach = light.pos.distance_from(pos);
        let intersections = self.intersect(&ray);
        let mut i: usize = 0;
        while i < intersections.len()
            invariant
                i <= intersections.len(),
                ray@ == shadow_ray(pos@, light@.pos),
                obj_to_light_v@ == ray@.dir,
                reach@ == tuple_mag(exact_sub(light@.pos, pos@)),
                hits_view(intersections@) == world_hits(self@.objects, ray@),
                forall|k: int|
                    0 <= k < i ==> !blocks_light(
                        #[trigger] hits_view(intersections@)[k],
                        ray@.dir,
                        reach@,
                    ),
            decreases intersections.len() - i,
        {
            let h = &intersections[i];
            if h.t.raw > SHADOW_BIAS_RAW && h.t.raw <= reach.raw && h.normalv.dot(
                obj_to_light_v,
            ).raw > 0 {
                assert(blocks_light(hits_view(intersections@)[i as int], ray@.dir, reach@));
                return true;
            }
            i = i + 1;
        }
        false
    }
}

impl Default for World {
    fn default() -> (w: Self)
        ensures
            w@ == default_world(),
    {
        let zero = Scalar::from_raw(0);
        let mut obj1 = Sphere::new(point(zero, zero, zero), Scalar::from_raw(ONE_RAW));
        obj1.mat = Material::new(
            Color::new(
                Scalar::from_raw(800_000_000),
                Scalar::from_raw(200_000_000),
                Scalar::from_raw(600_000_000),
            ),
            MaterialPattern::Solid,
            Scalar::from_raw(200_000_000),
            Scalar::from_raw(700_000_000),
            Scalar::from_raw(200_000_000),
            200,
        );

        let mut obj2 = Sphere::new(point(zero, zero, zero), Scalar::from_raw(500_000_000));
        obj2.mat = Material::new(
            Color::new(
                Scalar::from_raw(200_000_000),
                Scalar::from_raw(600_000_000),
                Scalar::from_raw(800_000_000),
            ),
            MaterialPattern::Solid,
            Scalar::from_raw(200_000_000),
            Scalar::from_raw(700_000_000),
            Scalar::from_raw(200_000_000),
            200,
        );

        let light = PointLight::new(
            point(
                Scalar::from_raw(-10 * ONE_RAW),
                Scalar::from_raw(10 * ONE_RAW),
                Scalar::from_raw(-10 * ONE_RAW),
            ),
            Color::white(),
        );

        let mut world = World::new();
        world.add_object(obj1);
        world.add_object(obj2);
        world.add_pointlight(light);
        assert(world@.objects =~= default_world().objects);
        assert(world@.lights =~= default_world().lights);
        world
    }
}

} // verus!
