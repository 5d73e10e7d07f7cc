use raytrace_rs::scalar::MAX_RAW;
use raytrace_rs::{
    get_frontmost_intersection, nearly_close, point, sort_by_distance, vector, Aabb, Color,
    Intersection, Material, MaterialPattern, Object, Primitive, Ray, Scalar, Sphere, Tuple,
};

fn fx(v: f64) -> Scalar {
    Scalar::from_raw((v * 1e9).round() as i64)
}

fn fl(s: Scalar) -> f64 {
    s.raw as f64 / 1e9
}

fn pt(x: f64, y: f64, z: f64) -> Tuple<4> {
    point(fx(x), fx(y), fx(z))
}

fn vc(x: f64, y: f64, z: f64) -> Tuple<4> {
    vector(fx(x), fx(y), fx(z))
}

fn almost_eq(a: f64, b: f64) -> bool {
    (a - b).abs() <= f32::EPSILON as f64
}

fn assert_almost_eq_f32(lhs: Scalar, rhs: f64) {
    assert!(almost_eq(fl(lhs), rhs), "{:?} is not equal to {:?}", lhs, rhs);
}

fn assert_almost_eq_tuple<const N: usize>(lhs: Tuple<N>, rhs: Tuple<N>) {
    for n in 0..N {
        assert!(almost_eq(fl(lhs[n]), fl(rhs[n])), "{:?} is not equal to {:?}", lhs, rhs);
    }
}

fn unit_sphere() -> Sphere {
    Sphere::new(pt(0.0, 0.0, 0.0), fx(1.0))
}

fn unit_box() -> Aabb {
    Aabb::new(pt(-1.0, -1.0, -1.0), pt(1.0, 1.0, 1.0), true)
}

#[test]
fn create_ray() {
    let ray = Ray::new(pt(1.0, 2.0, 3.0), vc(4.0, 5.0, 6.0));
    assert_eq!(ray.origin, pt(1.0, 2.0, 3.0));
    assert_eq!(ray.dir, vc(4.0, 5.0, 6.0));
}

#[test]
fn computing_point_from_distance() {
    let ray = Ray::new(pt(2.0, 3.0, 4.0), vc(1.0, 0.0, 0.0));
    assert_almost_eq_tuple(ray.position(fx(0.0)), pt(2.0, 3.0, 4.0));
    assert_almost_eq_tuple(ray.position(fx(1.0)), pt(3.0, 3.0, 4.0));
    assert_almost_eq_tuple(ray.position(fx(-1.0)), pt(1.0, 3.0, 4.0));
    assert_almost_eq_tuple(ray.position(fx(2.5)), pt(4.5, 3.0, 4.0));
}

#[test]
fn ray_intersects_sphere_at_two_points() {
    let ray = Ray::new(pt(0.0, 0.0, -5.0), vc(0.0, 0.0, 1.0));
    let sphere = unit_sphere();
    let xs = ray.intersect_sphere(&sphere);
    assert_eq!(xs.len(), 2);
    assert_almost_eq_f32(xs[0], 4.0);
    assert_almost_eq_f32(xs[1], 6.0);
}

#[test]
fn ray_intersects_sphere_at_a_tangent() {
    let ray = Ray::new(pt(0.0, 1.0, -5.0), vc(0.0, 0.0, 1.0));
    let sphere = unit_sphere();
    let xs = ray.intersect_sphere(&sphere);
    assert_eq!(xs.len(), 2);
    assert_almost_eq_f32(xs[0], 5.0);
    assert_almost_eq_f32(xs[1], 5.0);
}

#[test]
fn ray_misses_sphere() {
    let ray = Ray::new(pt(0.0, 2.0, -5.0), vc(0.0, 0.0, 1.0));
    let sphere = unit_sphere();
    let xs = ray.intersect_sphere(&sphere);
    assert_eq!(xs.len(), 0);
}

#[test]
fn ray_originages_inside_sphere() {
    let ray = Ray::new(pt(0.0, 0.0, 0.0), vc(0.0, 0.0, 1.0));
    let sphere = unit_sphere();
    let xs = ray.intersect_sphere(&sphere);
    assert_eq!(xs.len(), 2);
    assert_almost_eq_f32(xs[0], -1.0);
    assert_almost_eq_f32(xs[1], 1.0);
}

#[test]
fn sphere_is_behind_ray() {
    let ray = Ray::new(pt(0.0, 0.0, 5.0), vc(0.0, 0.0, 1.0));
    let sphere = unit_sphere();
    let xs = ray.intersect_sphere(&sphere);
    assert_eq!(xs.len(), 2);
    assert_almost_eq_f32(xs[0], -6.0);
    assert_almost_eq_f32(xs[1], -4.0);
}

#[test]
fn normal_at_sphere() {
    let sphere = unit_sphere();
    let sqrt_3_over_3 = f64::sqrt(3.0) / 3.0;
    let normal = sphere.normal_at(pt(sqrt_3_over_3, sqrt_3_over_3, sqrt_3_over_3));
    assert_almost_eq_tuple(normal, vc(sqrt_3_over_3, sqrt_3_over_3, sqrt_3_over_3));
}

#[test]
fn front_most() {
    let mat = Material::default();
    let i1 = Intersection::new(fx(1.0), pt(1.0, 1.0, 1.0), vc(0.0, 1.0, 0.0), &mat);
    let i2 = Intersection::new(fx(-1.0), pt(1.0, 1.0, 1.0), vc(0.0, 1.0, 0.0), &mat);
    let i3 = Intersection::new(fx(2.0), pt(1.0, 1.0, 1.0), vc(0.0, 1.0, 0.0), &mat);

    let intersections = vec![i1, i2, i3];
    let front_most = get_frontmost_intersection(intersections).unwrap();
    assert_eq!(front_most.t, fx(1.0));
}

#[test]
fn sphere_roots_are_exact_on_whole_numbers() {
    let ray = Ray::new(pt(0.0, 0.0, -5.0), vc(0.0, 0.0, 1.0));
    let xs = ray.intersect_sphere(&unit_sphere());
    assert_eq!(xs, vec![fx(4.0), fx(6.0)]);
    let ray = Ray::new(pt(0.0, 1.0, -5.0), vc(0.0, 0.0, 1.0));
    let xs = ray.intersect_sphere(&unit_sphere());
    assert_eq!(xs, vec![fx(5.0), fx(5.0)]);
}

#[test]
fn ray_from_the_center_meets_any_sphere_at_opposite_distances() {
    for (center, r, dir) in [
        (pt(0.0, 0.0, 0.0), 1.0, vc(0.0, 0.0, 1.0)),
        (pt(3.0, -2.0, 7.5), 2.5, vc(1.0, 2.0, -3.0)),
        (pt(-10.0, 4.0, 0.3), 0.001, vc(0.3, 0.1, 0.9)),
        (pt(1.0, 1.0, 1.0), 100.0, vc(0.0, -0.5, 0.0)),
    ] {
        let sphere = Sphere::new(center, fx(r));
        let ray = Ray::new(center, dir);
        let xs = ray.intersect_sphere(&sphere);
        assert_eq!(xs.len(), 2);
        assert_eq!(xs[0].raw, -xs[1].raw);
        assert!(xs[0].raw <= 0 && xs[1].raw >= 0);
    }
}

#[test]
fn ray_from_inside_a_sphere_meets_it_behind_and_in_front() {
    let sphere = Sphere::new(pt(1.0, 2.0, 3.0), fx(2.0));
    let ray = Ray::new(pt(1.5, 2.5, 2.0), vc(0.0, 0.6, 0.8));
    let xs = ray.intersect_sphere(&sphere);
    assert_eq!(xs.len(), 2);
    assert!(xs[0].raw < 0);
    assert!(xs[1].raw > 0);
}

#[test]
fn sphere_roots_scale_with_the_direction() {
    // a direction twice as long halves the distances
    let ray = Ray::new(pt(0.0, 0.0, -5.0), vc(0.0, 0.0, 2.0));
    let xs = ray.intersect_sphere(&unit_sphere());
    assert_eq!(xs, vec![fx(2.0), fx(3.0)]);
}

#[test]
fn sphere_hits_carry_position_normal_and_material() {
    let mut sphere = unit_sphere();
    sphere.mat = Material::new(
        Color::new(fx(0.8), fx(0.2), fx(0.6)),
        MaterialPattern::Solid,
        fx(0.2),
        fx(0.7),
        fx(0.2),
        200,
    );
    let ray = Ray::new(pt(0.0, 0.0, -5.0), vc(0.0, 0.0, 1.0));
    let hits = sphere.ray_intersect(&ray);
    assert_eq!(hits.len(), 2);
    assert_eq!(hits[0].t, fx(4.0));
    assert_eq!(hits[0].pos, pt(0.0, 0.0, -1.0));
    assert_eq!(hits[0].normalv, vc(0.0, 0.0, -1.0));
    assert_eq!(*hits[0].material, sphere.mat);
    assert_eq!(hits[1].t, fx(6.0));
    assert_eq!(hits[1].pos, pt(0.0, 0.0, 1.0));
    assert_eq!(hits[1].normalv, vc(0.0, 0.0, 1.0));
}

#[test]
fn ray_intersects_box_along_an_axis() {
    let ray = Ray::new(pt(0.0, 0.0, -5.0), vc(0.0, 0.0, 1.0));
    let xs = ray.intersect_aabb(&unit_box());
    assert_eq!(xs, vec![fx(4.0), fx(6.0)]);
}

#[test]
fn ray_intersects_box_on_a_slant() {
    let ray = Ray::new(pt(-2.0, -2.0, 0.0), vc(1.0, 1.0, 0.0));
    let xs = ray.intersect_aabb(&unit_box());
    assert_eq!(xs, vec![fx(1.0), fx(3.0)]);
}

#[test]
fn box_behind_the_ray_gives_negative_distances() {
    let ray = Ray::new(pt(0.0, 0.0, 5.0), vc(0.0, 0.0, 1.0));
    let xs = ray.intersect_aabb(&unit_box());
    assert_eq!(xs, vec![fx(-6.0), fx(-4.0)]);
}

#[test]
fn ray_beside_the_box_misses() {
    let ray = Ray::new(pt(2.0, 0.0, -5.0), vc(0.0, 0.0, 1.0));
    assert_eq!(ray.intersect_aabb(&unit_box()).len(), 0);
    let ray = Ray::new(pt(0.0, -3.0, -5.0), vc(0.0, 0.0, 1.0));
    assert_eq!(ray.intersect_aabb(&unit_box()).len(), 0);
    let ray = Ray::new(pt(5.0, 5.0, 5.0), vc(1.0, -0.2, 0.1));
    assert_eq!(ray.intersect_aabb(&unit_box()).len(), 0);
}

#[test]
fn box_corners_may_come_in_either_order() {
    let rays = [
        Ray::new(pt(0.0, 0.0, -5.0), vc(0.0, 0.0, 1.0)),
        Ray::new(pt(-2.0, -2.0, 0.0), vc(1.0, 1.0, 0.0)),
        Ray::new(pt(0.3, 4.0, -0.2), vc(0.1, -1.0, 0.05)),
        Ray::new(pt(2.0, 0.0, -5.0), vc(0.0, 0.0, 1.0)),
    ];
    let straight = Aabb::new(pt(-1.0, -2.0, -3.0), pt(1.0, 2.0, 3.0), true);
    let swapped = Aabb::new(pt(1.0, 2.0, 3.0), pt(-1.0, -2.0, -3.0), true);
    let mixed = Aabb::new(pt(1.0, -2.0, 3.0), pt(-1.0, 2.0, -3.0), true);
    for ray in rays.iter() {
        let xs = ray.intersect_aabb(&straight);
        assert_eq!(ray.intersect_aabb(&swapped), xs);
        assert_eq!(ray.intersect_aabb(&mixed), xs);
        if xs.len() == 2 {
            assert!(xs[0].raw <= xs[1].raw);
        }
    }
}

#[test]
fn ray_inside_a_slab_and_parallel_to_it() {
    // the ray runs inside the x and y slabs for ever: their bounds are the
    // ends of the range, and the z slab decides
    let ray = Ray::new(pt(0.5, -0.5, -3.0), vc(0.0, 0.0, 2.0));
    let xs = ray.intersect_aabb(&unit_box());
    assert_eq!(xs, vec![fx(1.0), fx(2.0)]);
    // a ray that does not move stays inside all three slabs
    let ray = Ray::new(pt(0.0, 0.0, 0.0), vc(0.0, 0.0, 0.0));
    let xs = ray.intersect_aabb(&unit_box());
    assert_eq!(xs, vec![Scalar::from_raw(-MAX_RAW), Scalar::from_raw(MAX_RAW)]);
}

#[test]
fn box_normals_on_each_face() {
    let b = unit_box();
    assert_eq!(b.normal_at(pt(-1.0, 0.5, 0.3)), vc(-1.0, 0.0, 0.0));
    assert_eq!(b.normal_at(pt(1.0, 0.5, 0.3)), vc(1.0, 0.0, 0.0));
    assert_eq!(b.normal_at(pt(0.5, -1.0, 0.3)), vc(0.0, -1.0, 0.0));
    assert_eq!(b.normal_at(pt(0.5, 1.0, 0.3)), vc(0.0, 1.0, 0.0));
    assert_eq!(b.normal_at(pt(0.5, 0.3, -1.0)), vc(0.0, 0.0, -1.0));
    assert_eq!(b.normal_at(pt(0.5, 0.3, 1.0)), vc(0.0, 0.0, 1.0));
    // nowhere near a face: the last face is what is left
    assert_eq!(b.normal_at(pt(0.0, 0.0, 0.0)), vc(0.0, 0.0, 1.0));
}

#[test]
fn box_normals_near_an_edge_follow_the_order_of_the_checks() {
    let b = unit_box();
    assert_eq!(b.normal_at(pt(-1.0, -1.0, -1.0)), vc(-1.0, 0.0, 0.0));
    assert_eq!(b.normal_at(pt(1.0, -1.0, -1.0)), vc(1.0, 0.0, 0.0));
    assert_eq!(b.normal_at(pt(0.0, 1.0, -1.0)), vc(0.0, 1.0, 0.0));
    assert_eq!(b.normal_at(pt(-0.95, 1.0, 0.0)), vc(-1.0, 0.0, 0.0));
}

#[test]
fn box_face_tolerance_is_a_tenth() {
    assert!(nearly_close(fx(1.0), fx(1.05)));
    assert!(nearly_close(fx(1.0), Scalar::from_raw(1_099_999_999)));
    assert!(!nearly_close(fx(1.0), fx(1.1)));
    assert!(nearly_close(fx(-1.0), Scalar::from_raw(-900_000_001)));
    assert!(!nearly_close(fx(-1.0), fx(-0.9)));
    let b = unit_box();
    assert_eq!(b.normal_at(pt(-0.9, 1.0, 0.0)), vc(0.0, 1.0, 0.0));
}

#[test]
fn box_seen_from_inside_turns_its_normals() {
    let b = Aabb::new(pt(-1.0, -1.0, -1.0), pt(1.0, 1.0, 1.0), false);
    assert_eq!(b.normal_at(pt(-1.0, 0.5, 0.3)), vc(1.0, 0.0, 0.0));
    assert_eq!(b.normal_at(pt(0.5, 1.0, 0.3)), vc(0.0, -1.0, 0.0));
    assert_eq!(b.normal_at(pt(0.5, 0.3, 1.0)), vc(0.0, 0.0, -1.0));
}

#[test]
fn box_hits_carry_position_normal_and_material() {
    let mut b = unit_box();
    b.mat = Material::new(
        Color::new(fx(0.2), fx(0.6), fx(0.9)),
        MaterialPattern::Solid,
        fx(0.2),
        fx(0.3),
        fx(1.0),
        200,
    );
    let ray = Ray::new(pt(0.0, 0.0, -5.0), vc(0.0, 0.0, 1.0));
    let hits = b.ray_intersect(&ray);
    assert_eq!(hits.len(), 2);
    assert_eq!(hits[0].t, fx(4.0));
    assert_eq!(hits[0].pos, pt(0.0, 0.0, -1.0));
    assert_eq!(hits[0].normalv, vc(0.0, 0.0, -1.0));
    assert_eq!(*hits[0].material, b.mat);
    assert_eq!(hits[1].t, fx(6.0));
    assert_eq!(hits[1].normalv, vc(0.0, 0.0, 1.0));
}

#[test]
fn primitive_intersects_as_its_kind() {
    let ray = Ray::new(pt(0.0, 0.0, -5.0), vc(0.0, 0.0, 1.0));
    let s = Primitive::Sphere(Sphere::new(pt(0.0, 0.0, 0.0), fx(0.5)));
    let hits = s.ray_intersect(&ray);
    assert_eq!(hits.len(), 2);
    assert_eq!(hits[0].t, fx(4.5));
    assert_eq!(hits[1].t, fx(5.5));
    let b = unit_box().into_primitive();
    let hits = b.ray_intersect(&ray);
    assert_eq!(hits.len(), 2);
    assert_eq!(hits[0].t, fx(4.0));
}

#[test]
fn front_most_of_nothing_in_front() {
    let mat = Material::default();
    let i1 = Intersection::new(fx(-1.0), pt(1.0, 1.0, 1.0), vc(0.0, 1.0, 0.0), &mat);
    let i2 = Intersection::new(fx(0.0), pt(1.0, 1.0, 1.0), vc(0.0, 1.0, 0.0), &mat);
    assert!(get_frontmost_intersection(vec![i1, i2]).is_none());
    assert!(get_frontmost_intersection(Vec::new()).is_none());
}

#[test]
fn front_most_takes_the_least_positive_distance() {
    let mat = Material::default();
    let i1 = Intersection::new(fx(5.0), pt(5.0, 0.0, 0.0), vc(0.0, 1.0, 0.0), &mat);
    let i2 = Intersection::new(fx(7.0), pt(7.0, 0.0, 0.0), vc(0.0, 1.0, 0.0), &mat);
    let i3 = Intersection::new(fx(-3.0), pt(-3.0, 0.0, 0.0), vc(0.0, 1.0, 0.0), &mat);
    let i4 = Intersection::new(fx(2.0), pt(2.0, 0.0, 0.0), vc(0.0, 1.0, 0.0), &mat);
    let front = get_frontmost_intersection(vec![i1, i2, i3, i4]).unwrap();
    assert_eq!(front.t, fx(2.0));
    assert_eq!(front.pos, pt(2.0, 0.0, 0.0));
}

#[test]
fn sorting_is_ascending_and_keeps_the_order_of_equals() {
    let mat = Material::default();
    let mk =
        |t: f64, tag: f64| Intersection::new(fx(t), pt(tag, 0.0, 0.0), vc(0.0, 1.0, 0.0), &mat);
    let sorted = sort_by_distance(vec![
        mk(3.0, 0.0),
        mk(1.0, 1.0),
        mk(3.0, 2.0),
        mk(-2.0, 3.0),
        mk(1.0, 4.0),
        mk(3.0, 5.0),
    ]);
    let ts: Vec<f64> = sorted.iter().map(|i| fl(i.t)).collect();
    let tags: Vec<f64> = sorted.iter().map(|i| fl(i.pos[0])).collect();
    assert_eq!(ts, vec![-2.0, 1.0, 1.0, 3.0, 3.0, 3.0]);
    assert_eq!(tags, vec![3.0, 1.0, 4.0, 0.0, 2.0, 5.0]);
}

#[test]
fn front_most_among_equals_is_the_first_given() {
    let mat = Material::default();
    let i1 = Intersection::new(fx(2.0), pt(1.0, 0.0, 0.0), vc(0.0, 1.0, 0.0), &mat);
    let i2 = Intersection::new(fx(2.0), pt(2.0, 0.0, 0.0), vc(0.0, 1.0, 0.0), &mat);
    let front = get_frontmost_intersection(vec![i1, i2]).unwrap();
    assert_eq!(front.pos, pt(1.0, 0.0, 0.0));
}

#[test]
fn ray_far_from_a_sphere_misses_it() {
    // the ray passes the sphere at a distance of 1000
    let ray = Ray::new(pt(0.0, 0.0, -200000.0), vc(0.0, 0.0, 1.0));
    let sphere = Sphere::new(pt(0.0, 1000.0, 0.0), fx(1.0));
    assert_eq!(ray.intersect_sphere(&sphere).len(), 0);
    let sphere = Sphere::new(pt(0.0, 1.5, 0.0), fx(1.0));
    assert_eq!(ray.intersect_sphere(&sphere).len(), 0);
}

#[test]
fn ray_from_far_away_meets_a_sphere_exactly() {
    let ray = Ray::new(pt(0.0, 0.0, -200000.0), vc(0.0, 0.0, 1.0));
    let xs = ray.intersect_sphere(&unit_sphere());
    assert_eq!(xs, vec![fx(199999.0), fx(200001.0)]);
    let sphere = Sphere::new(pt(0.0, 1.0, 0.0), fx(1.0));
    let xs = ray.intersect_sphere(&sphere);
    assert_eq!(xs, vec![fx(200000.0), fx(200000.0)]);
}

#[test]
fn ray_meets_a_very_small_sphere() {
    let ray = Ray::new(pt(0.0, 0.0, 0.0), vc(0.0, 0.0, 1.0));
    let sphere = Sphere::new(pt(0.0, 0.0, 0.0), fx(0.00001));
    let xs = ray.intersect_sphere(&sphere);
    assert_eq!(xs, vec![fx(-0.00001), fx(0.00001)]);
    let sphere = Sphere::new(pt(0.0, 0.0, 0.0), Scalar::from_raw(1));
    let xs = ray.intersect_sphere(&sphere);
    assert_eq!(xs, vec![Scalar::from_raw(-1), Scalar::from_raw(1)]);
    let ray = Ray::new(pt(0.0, 0.0, -1.0), vc(0.0, 0.0, 1.0));
    let sphere = Sphere::new(pt(0.0, 0.0, 0.0), fx(0.00001));
    assert_eq!(ray.intersect_sphere(&sphere), vec![fx(0.99999), fx(1.00001)]);
}

#[test]
fn ray_with_a_very_short_direction() {
    let ray = Ray::new(pt(0.0, 0.0, -5.0), vc(0.0, 0.0, 0.00001));
    let xs = ray.intersect_sphere(&unit_sphere());
    assert_eq!(xs, vec![fx(400000.0), fx(600000.0)]);
    let ray = Ray::new(pt(0.0, 2.0, -5.0), vc(0.0, 0.0, 0.00001));
    assert_eq!(ray.intersect_sphere(&unit_sphere()).len(), 0);
}

#[test]
fn ray_and_sphere_near_the_end_of_the_range() {
    let ray = Ray::new(pt(0.0, 0.0, -4e9), vc(0.0, 0.0, 1.0));
    let sphere = Sphere::new(pt(0.0, 0.0, 0.0), fx(2e9));
    let xs = ray.intersect_sphere(&sphere);
    assert_eq!(xs, vec![fx(2e9), fx(6e9)]);
    // the far root lies beyond the range and stops at its end
    let ray = Ray::new(pt(0.0, 0.0, -8e9), vc(0.0, 0.0, 1.0));
    let xs = ray.intersect_sphere(&sphere);
    assert_eq!(xs, vec![fx(6e9), Scalar::from_raw(MAX_RAW)]);
    let ray = Ray::new(pt(0.0, 3e9, -8e9), vc(0.0, 0.0, 1.0));
    assert_eq!(ray.intersect_sphere(&sphere).len(), 0);
}

#[test]
fn ray_that_does_not_move_and_a_sphere() {
    let still = vc(0.0, 0.0, 0.0);
    // inside: the quadratic has no `t`, and the roots are the ends of the range or zero
    let ray = Ray::new(pt(0.0, 0.0, 0.5), still);
    let xs = ray.intersect_sphere(&unit_sphere());
    assert_eq!(xs, vec![fx(0.0), fx(0.0)]);
    let ray = Ray::new(pt(0.0, 0.0, 5.0), still);
    let xs = ray.intersect_sphere(&unit_sphere());
    assert_eq!(xs, vec![fx(0.0), fx(0.0)]);
}

#[test]
fn sphere_normal_close_to_the_center_is_of_unit_length() {
    let sphere = Sphere::new(pt(0.0, 0.0, 0.0), fx(0.00001));
    assert_eq!(sphere.normal_at(pt(0.00001, 0.0, 0.0)), vc(1.0, 0.0, 0.0));
    assert_eq!(sphere.normal_at(pt(0.0, -0.000000001, 0.0)), vc(0.0, -1.0, 0.0));
    let far = Sphere::new(pt(1e9, 0.0, 0.0), fx(5e9));
    assert_eq!(far.normal_at(pt(4e9, 0.0, 4e9)), vc(0.6, 0.0, 0.8));
}

#[test]
fn position_is_rounded_once() {
    let ray = Ray::new(pt(-5e9, 1.0, 0.0), vc(100000.0, 0.000000001, 0.0));
    // 100000 * 100000 is beyond the range, the sum is not
    let p = ray.position(fx(100000.0));
    assert_eq!(p, pt(5e9, 1.0001, 0.0));
}

#[test]
fn box_far_across_the_range() {
    let b = Aabb::new(pt(-5e9, -1.0, -1.0), pt(-4e9, 1.0, 1.0), true);
    let ray = Ray::new(pt(5e9, 0.0, 0.0), vc(-2.0, 0.0, 0.0));
    assert_eq!(ray.intersect_aabb(&b), vec![fx(4.5e9), fx(5e9)]);
}
