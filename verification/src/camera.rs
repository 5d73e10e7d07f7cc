//! The camera: the ray through a pixel, and the transform that places the
//! camera in the world.

use crate::matrix::{
    det4, inverse4, is_singular, mat_apply, mat_mul, mat_translate, Matrix4,
};
use crate::ray::{Ray, RayModel};
use crate::scalar::{clamp, fx_add, fx_div, fx_mul, fx_neg, fx_sub, Scalar, ONE_RAW};
use crate::tuple::{
    exact_sub, point, point_seq, tuple_cross, tuple_normalize, vector, vector_seq, Vec4,
};
use vstd::prelude::*;

verus! {

/// A camera as plain values.
pub struct CameraModel {
    pub hsize: int,
    pub vsize: int,
    pub fov_tangent: int,
    pub aspect: int,
    pub inv_transform: Seq<Seq<int>>,
}

pub struct Camera {
    pub hsize: u32,
    pub vsize: u32,
    /// The tangent of half the vertical field of view.
    pub fov_tangent: Scalar,
    /// Width over height.
    pub aspect: Scalar,
    /// The inverse of the view transform.
    pub inv_transform: Matrix4,
}

impl View for Camera {
    type V = CameraModel;

    open spec fn view(&self) -> CameraModel {
        CameraModel {
            hsize: self.hsize as int,
            vsize: self.vsize as int,
            fov_tangent: self.fov_tangent@,
            aspect: self.aspect@,
            inv_transform: self.inv_transform@,
        }
    }
}

/// How far the pixel `i` of `size` lies along its axis, from 0 for the first
/// to 1 for the last.
pub open spec fn pixel_fraction(i: int, size: int) -> int {
    fx_div(clamp(i * ONE_RAW), clamp((size - 1) * ONE_RAW))
}

/// The direction through the pixel `(x, y)` before the camera is placed:
/// `x` runs from -1 to 1 over the width and `y` from 1 to -1 over the
/// height, scaled by the half extents of the image plane at distance 1.
pub open spec fn pixel_direction(cam: CameraModel, x: int, y: int) -> Seq<int> {
    tuple_normalize(
        vector_seq(
            fx_mul(
                fx_sub(fx_mul(pixel_fraction(x, cam.hsize), 2 * ONE_RAW), ONE_RAW as int),
                fx_mul(cam.fov_tangent, cam.aspect),
            ),
            fx_mul(
                fx_add(fx_mul(pixel_fraction(y, cam.vsize), -2 * ONE_RAW), ONE_RAW as int),
                cam.fov_tangent,
            ),
            ONE_RAW as int,
        ),
    )
}

/// The ray from the camera through the pixel `(x, y)`.
pub open spec fn camera_ray(cam: CameraModel, x: int, y: int) -> RayModel {
    RayModel {
        origin: mat_apply(cam.inv_transform, point_seq(0, 0, 0), 4, 4),
        dir: mat_apply(cam.inv_transform, pixel_direction(cam, x, y), 4, 4),
    }
}

/// The rotation of the view transform: the rows are the camera's right, up
/// and forward directions.
pub open spec fn view_rotation(from: Seq<int>, to: Seq<int>, up: Seq<int>) -> Seq<Seq<int>> {
    let dirv = tuple_normalize(exact_sub(to, from));
    let rightv = tuple_cross(tuple_normalize(up), dirv);
    let upv = tuple_cross(dirv, rightv);
    seq![
        seq![rightv[0], rightv[1], rightv[2], 0int],
        seq![upv[0], upv[1], upv[2], 0int],
        seq![dirv[0], dirv[1], dirv[2], 0int],
        seq![0int, 0int, 0int, ONE_RAW as int],
    ]
}

/// The transform of a camera at `from` that looks at `to`: the world moved
/// by `-from`, then rotated.
pub open spec fn view_matrix(from: Seq<int>, to: Seq<int>, up: Seq<int>) -> Seq<Seq<int>> {
    mat_mul(
        view_rotation(from, to, up),
        mat_translate(fx_neg(from[0]), fx_neg(from[1]), fx_neg(from[2])),
        4,
        4,
        4,
    )
}

impl Camera {
    /// A camera of `hsize` by `vsize` pixels. `fov_tangent` is the tangent
    /// of half the vertical field of view, and `transform` the view
    /// transform, which must have an inverse.
    pub fn new(
        hsize: u32,
        vsize: u32,
        fov_tangent: Scalar,
        aspect: Scalar,
        transform: Matrix4,
    ) -> (cam: Self)
        requires
            !is_singular(det4(transform@)),
        ensures
            cam@ == (CameraModel {
                hsize: hsize as int,
                vsize: vsize as int,
                fov_tangent: fov_tangent@,
                aspect: aspect@,
                inv_transform: inverse4(transform@),
            }),
    {
        Self { hsize, vsize, fov_tangent, aspect, inv_transform: transform.inverse().unwrap() }
    }

    /// Such a camera, unless `transform` has no inverse.
    pub fn try_new(
        hsize: u32,
        vsize: u32,
        fov_tangent: Scalar,
        aspect: Scalar,
        transform: Matrix4,
    ) -> (r: Option<Self>)
        ensures
            r is None <==> is_singular(det4(transform@)),
            r matches Some(cam) ==> cam@ == (CameraModel {
                hsize: hsize as int,
                vsize: vsize as int,
                fov_tangent: fov_tangent@,
                aspect: aspect@,
                inv_transform: inverse4(transform@),
            }),
    {
        match transform.inverse() {
            Ok(inv_transform) => Some(Self { hsize, vsize, fov_tangent, aspect, inv_transform }),
            Err(_) => None,
        }
    }

    /// The direction in which the camera looks.
    pub fn dir(&self) -> (d: Vec4)
        ensures
            d@ == mat_apply(self@.inv_transform, vector_seq(0, 0, ONE_RAW as int), 4, 4),
    {
        let zero = Scalar::from_raw(0);
        self.inv_transform * vector(zero, zero, Scalar::from_raw(ONE_RAW))
    }

    /// The ray from the camera through the pixel `(x, y)`.
    pub fn get_ray(&self, x: u32, y: u32) -> (ray: Ray)
        ensures
            ray@ == camera_ray(self@, x as int, y as int),
    {
        let half_height = self.fov_tangent;
        let half_width = self.fov_tangent * self.aspect;

        let one = Scalar::from_raw(ONE_RAW);
        let fx = (Scalar::from_int(x as i64) / Scalar::from_int(self.hsize as i64 - 1))
            * Scalar::from_raw(2 * ONE_RAW) - one;
        let fy = (Scalar::from_int(y as i64) / Scalar::from_int(self.vsize as i64 - 1))
            * Scalar::from_raw(-2 * ONE_RAW) + one;

        let zero = Scalar::from_raw(0);
        let ray_start = self.inv_transform * point(zero, zero, zero);
        let local_ray_dir = vector(fx * half_width, fy * half_height, one).normalize();
        let ray_dir = self.inv_transform * local_ray_dir;

        Ray::new(ray_start, ray_dir)
    }
}

/// The transform of a camera at `from` that looks at `to`, with `upv`
/// roughly upward.
pub fn view_transform(from: Vec4, to: Vec4, upv: Vec4) -> (m: Matrix4)
    ensures
        m@ == view_matrix(from@, to@, upv@),
{
    let up_unit = upv.normalize();
    let dirv = to.unit_from(from);
    let rightv = up_unit.cross(dirv);
    let true_up = dirv.cross(rightv);

    let mut rot = Matrix4::identity();
    rot.set(0, 0, rightv.get(0));
    rot.set(0, 1, rightv.get(1));
    rot.set(0, 2, rightv.get(2));
    rot.set(1, 0, true_up.get(0));
    rot.set(1, 1, true_up.get(1));
    rot.set(1, 2, true_up.get(2));
    rot.set(2, 0, dirv.get(0));
    rot.set(2, 1, dirv.get(1));
    rot.set(2, 2, dirv.get(2));
    assert(rot@ =~~= view_rotation(from@, to@, upv@));

    let translate = Matrix4::translate(
        point(
            core::ops::Neg::neg(from.get(0)),
            core::ops::Neg::neg(from.get(1)),
            core::ops::Neg::neg(from.get(2)),
        ),
    );

    rot * translate
}

} // verus!
