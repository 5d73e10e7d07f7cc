//! Point lights and the Phong lighting of a surface point by one light.

use crate::color::{rgb_add, rgb_black, rgb_mul, rgb_scale, Color, ColorModel};
use crate::material::Material;
use crate::scalar::fx_pow;
use crate::tuple::{exact_sub, tuple_dot, tuple_neg, tuple_normalize, tuple_reflect, Vec4};
use vstd::prelude::*;

verus! {

/// A light as plain values.
pub struct LightModel {
    pub pos: Seq<int>,
    pub intensity: ColorModel,
}

pub struct PointLight {
    pub pos: Vec4,
    pub intensity: Color,
}

impl View for PointLight {
    type V = LightModel;

    open spec fn view(&self) -> LightModel {
        LightModel { pos: self.pos@, intensity: self.intensity@ }
    }
}

/// The surface color at `pos` under the light's intensity.
pub open spec fn effective_color(
    material: Material,
    light: LightModel,
    pos: Seq<int>,
) -> ColorModel {
    rgb_mul(material.color_at(pos), light.intensity)
}

/// The ambient part: the effective color times the ambient coefficient.
pub open spec fn ambient_term(material: Material, light: LightModel, pos: Seq<int>) -> ColorModel {
    rgb_scale(effective_color(material, light, pos), material.ambient@)
}

/// The unit direction from `pos` to the light.
pub open spec fn light_vector(light: LightModel, pos: Seq<int>) -> Seq<int> {
    tuple_normalize(exact_sub(light.pos, pos))
}

/// The cosine of the angle between the direction to the light and the normal.
pub open spec fn light_dot_normal(light: LightModel, pos: Seq<int>, normal: Seq<int>) -> int {
    tuple_dot(light_vector(light, pos), normal)
}

/// The cosine of the angle between the mirrored light and the way to the eye.
pub open spec fn reflect_dot_eye(
    light: LightModel,
    pos: Seq<int>,
    eye: Seq<int>,
    normal: Seq<int>,
) -> int {
    tuple_dot(tuple_reflect(tuple_neg(light_vector(light, pos)), normal), tuple_neg(eye))
}

/// The diffuse part: black where the light is behind the surface, else the
/// effective color times the diffuse coefficient times the cosine.
pub open spec fn diffuse_term(
    material: Material,
    light: LightModel,
    pos: Seq<int>,
    normal: Seq<int>,
) -> ColorModel {
    if light_dot_normal(light, pos, normal) < 0 {
        rgb_black()
    } else {
        rgb_scale(
            rgb_scale(effective_color(material, light, pos), material.diffuse@),
            light_dot_normal(light, pos, normal),
        )
    }
}

/// The specular part: black where the light is behind the surface or mirrored
/// away from the eye, else the intensity times the specular coefficient times
/// the cosine raised to the shininess.
pub open spec fn specular_term(
    material: Material,
    light: LightModel,
    pos: Seq<int>,
    eye: Seq<int>,
    normal: Seq<int>,
) -> ColorModel {
    if light_dot_normal(light, pos, normal) < 0 {
        rgb_black()
    } else if reflect_dot_eye(light, pos, eye, normal) <= 0 {
        rgb_black()
    } else {
        rgb_scale(
            rgb_scale(light.intensity, material.specular@),
            fx_pow(reflect_dot_eye(light, pos, eye, normal), material.shininess as nat),
        )
    }
}

/// What a light adds beyond the ambient part: nothing in shadow, else the
/// diffuse and the specular part.
pub open spec fn direct_term(
    material: Material,
    light: LightModel,
    pos: Seq<int>,
    eye: Seq<int>,
    normal: Seq<int>,
    in_shadow: bool,
) -> ColorModel {
    if in_shadow {
        rgb_black()
    } else {
        rgb_add(
            diffuse_term(material, light, pos, normal),
            specular_term(material, light, pos, eye, normal),
        )
    }
}

/// The Phong color of a surface point under one light: the ambient part alone
/// in shadow, else ambient plus diffuse plus specular.
pub open spec fn lighting(
    material: Material,
    light: LightModel,
    pos: Seq<int>,
    eye: Seq<int>,
    normal: Seq<int>,
    in_shadow: bool,
) -> ColorModel {
    if in_shadow {
        ambient_term(material, light, pos)
    } else {
        rgb_add(
            rgb_add(ambient_term(material, light, pos), diffuse_term(material, light, pos, normal)),
            specular_term(material, light, pos, eye, normal),
        )
    }
}

impl PointLight {
    pub fn new(pos: Vec4, intensity: Color) -> (l: Self)
        ensures
            l.pos == pos,
            l.intensity == intensity,
    {
        Self { pos, intensity }
    }
}

/// The diffuse and the specular part of the light at a surface point that
/// the light reaches.
fn diffuse_and_specular(
    material: &Material,
    light: &PointLight,
    position: Vec4,
    eyev: Vec4,
    normalv: Vec4,
) -> (r: (Color, Color))
    ensures
        r.0@ == diffuse_term(*material, light@, position@, normalv@),
        r.1@ == specular_term(*material, light@, position@, eyev@, normalv@),
{
    let effective_color = material.color(position) * light.intensity;
    let lightv = light.pos.unit_from(position);
    let light_dot_normal = lightv.dot(normalv);

    if light_dot_normal.raw < 0 {
        (Color::black(), Color::black())
    } else {
        let diffuse = effective_color * material.diffuse * light_dot_normal;
        let reflectv = core::ops::Neg::neg(lightv).reflect(normalv);
        let reflect_dot_eye = reflectv.dot(core::ops::Neg::neg(eyev));
        if reflect_dot_eye.raw <= 0 {
            (diffuse, Color::black())
        } else {
            let factor = reflect_dot_eye.powi(material.shininess);
            (diffuse, light.intensity * material.specular * factor)
        }
    }
}

/// What one light adds to a surface point beyond the ambient part.
pub fn direct_lighting(
    material: &Material,
    light: &PointLight,
    position: Vec4,
    eyev: Vec4,
    normalv: Vec4,
    in_shadow: bool,
) -> (c: Color)
    ensures
        c@ == direct_term(*material, light@, position@, eyev@, normalv@, in_shadow),
{
    if in_shadow {
        Color::black()
    } else {
        let (diffuse, specular) = diffuse_and_specular(material, light, position, eyev, normalv);
        diffuse + specular
    }
}

/// The Phong color of a surface point under one light.
pub fn point_lighting(
    material: &Material,
    light: &PointLight,
    position: Vec4,
    eyev: Vec4,
    normalv: Vec4,
    in_shadow: bool,
) -> (c: Color)
    ensures
        c@ == lighting(*material, light@, position@, eyev@, normalv@, in_shadow),
{
    let effective_color = material.color(position) * light.intensity;
    let ambient = effective_color * material.ambient;
    if in_shadow {
        ambient
    } else {
        let (diffuse, specular) = diffuse_and_specular(material, light, position, eyev, normalv);
        ambient + diffuse + specular
    }
}

} // verus!
