//! A ray tracer in fixed-point arithmetic: spheres and axis-aligned boxes,
//! lit by point lights with the Phong model and hard shadows.
//!
//! Every coordinate, color channel and coefficient is a [`Scalar`], a whole
//! number of billionths, and every operation on scalars is total and exact
//! up to its stated rounding, so that the color of a ray is a function of
//! the scene that can be written down and proved.
//!
//! Lengths, dot and cross products, the roots of a ray on a sphere,
//! determinants and inverses are formed from the raw values in full, in
//! integers of up to 256 bits, and rounded once at the end: a scene keeps
//! its geometry whether it is a millionth of a unit across or a million.
//!
//! Two things are left to the caller because they need more than whole
//! numbers: the tangent of half the field of view, which a [`Camera`] takes
//! as a scalar, and the gamma curve, which turns the colors of a [`Canvas`]
//! into the bytes that [`to_raster`] lays out as an image.

pub mod aabb;
pub mod angle;
pub mod camera;
pub mod canvas;
pub mod color;
pub mod intersection;
pub mod material;
pub mod matrix;
pub mod object;
pub mod point_light;
pub mod raster;
pub mod ray;
pub mod scalar;
pub mod sphere;
pub mod tuple;
pub mod v;
pub mod wide;
pub mod world;

pub use aabb::{nearly_close, Aabb};
pub use angle::Angle;
pub use camera::{view_transform, Camera};
pub use canvas::Canvas;
pub use color::Color;
pub use intersection::{get_frontmost_intersection, sort_by_distance, Intersection};
pub use material::{is_check_dark, Material, MaterialPattern};
pub use matrix::{Matrix, Matrix2, Matrix3, Matrix4, SingularMatrixError};
pub use object::{Object, Primitive};
pub use point_light::{direct_lighting, point_lighting, PointLight};
pub use raster::{to_raster, Raster};
pub use ray::Ray;
pub use scalar::Scalar;
pub use sphere::Sphere;
pub use tuple::{point, vector, Tuple, Vec4};
pub use v::V4;
pub use world::World;
