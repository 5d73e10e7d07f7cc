//! Surface materials: a base color, the Phong coefficients, and a pattern
//! that decides the color at a position.

use crate::color::{rgb_scale, Color, ColorModel};
use crate::scalar::{Scalar, ONE_RAW};
use crate::tuple::Vec4;
use vstd::prelude::*;

verus! {

/// The edge of one checkerboard cell, in raw units (0.47).
pub const CHECK_PERIOD_RAW: i64 = 470_000_000;

/// The factor that darkens a checkerboard cell, in raw units (0.5).
pub const CHECK_SHADE_RAW: i64 = 500_000_000;

/// Whether the coordinate `v` lies in an even cell, counted from zero; on the
/// negative side the answer is turned round, so that the cells mirror at zero.
pub open spec fn check_dark(v: int) -> bool {
    if v < 0 {
        !(((-v) / (CHECK_PERIOD_RAW as int)) % 2 == 0)
    } else {
        (v / (CHECK_PERIOD_RAW as int)) % 2 == 0
    }
}

/// How many of the three coordinates of `pos` are in a `check_dark` cell.
pub open spec fn check_count(pos: Seq<int>) -> int {
    (if check_dark(pos[0]) { 1int } else { 0int })
        + (if check_dark(pos[1]) { 1int } else { 0int })
        + (if check_dark(pos[2]) { 1int } else { 0int })
}

/// Whether `v` lies on a cell boundary, where the mirrored halves meet.
pub open spec fn on_check_boundary(v: int) -> bool {
    v % (CHECK_PERIOD_RAW as int) == 0
}

#[derive(Debug, Clone, Copy, PartialEq, Eq, Structural)]
pub enum MaterialPattern {
    Solid,
    Check,
}

#[derive(Debug, Clone, Copy, PartialEq, Eq, Structural)]
pub struct Material {
    pub color: Color,
    pub pattern: MaterialPattern,
    pub ambient: Scalar,
    pub diffuse: Scalar,
    pub specular: Scalar,
    /// The whole exponent of the specular highlight.
    pub shininess: u32,
}

impl Material {
    /// The color this material shows at `pos`.
    pub open spec fn color_at(&self, pos: Seq<int>) -> ColorModel {
        match self.pattern {
            MaterialPattern::Solid => self.color@,
            MaterialPattern::Check => if check_count(pos) % 2 == 0 {
                self.color@
            } else {
                rgb_scale(self.color@, CHECK_SHADE_RAW as int)
            },
        }
    }

    /// White, solid, ambient 0.1, diffuse 0.9, specular 0.9, shininess 200.
    pub open spec fn default_spec() -> Material {
        Material {
            color: Color {
                red: Scalar { raw: ONE_RAW },
                green: Scalar { raw: ONE_RAW },
                blue: Scalar { raw: ONE_RAW },
            },
            pattern: MaterialPattern::Solid,
            ambient: Scalar { raw: 100_000_000 },
            diffuse: Scalar { raw: 900_000_000 },
            specular: Scalar { raw: 900_000_000 },
            shininess: 200,
        }
    }

    pub fn new(
        color: Color,
        pattern: MaterialPattern,
        ambient: Scalar,
        diffuse: Scalar,
        specular: Scalar,
        shininess: u32,
    ) -> (m: Self)
        ensures
            m == (Material { color, pattern, ambient, diffuse, specular, shininess }),
    {
        Self { color, pattern, ambient, diffuse, specular, shininess }
    }

    pub fn color(&self, pos: Vec4) -> (c: Color)
        ensures
            c@ == self.color_at(pos@),
    {
        match self.pattern {
            MaterialPattern::Solid => self.color,
            MaterialPattern::Check => {
                let x = is_check_dark(pos.values[0]);
                let y = is_check_dark(pos.values[1]);
                let z = is_check_dark(pos.values[2]);
                let mut count: u8 = 0;
                if x {
                    count = count + 1;
                }
                if y {
                    count = count + 1;
                }
                if z {
                    count = count + 1;
                }
                if count % 2 == 0 {
                    self.color
                } else {
                    self.color * Scalar::from_raw(CHECK_SHADE_RAW)
                }
            },
        }
    }
}

impl Default for Material {
    fn default() -> (m: Self)
        ensures
            m == Material::default_spec(),
    {
        Self {
            color: Color::white(),
            pattern: MaterialPattern::Solid,
            ambient: Scalar::from_raw(100_000_000),
            diffuse: Scalar::from_raw(900_000_000),
            specular: Scalar::from_raw(900_000_000),
            shininess: 200,
        }
    }
}

pub fn is_check_dark(v: Scalar) -> (dark: bool)
    ensures
        dark == check_dark(v@),
{
    let a: i128 = if v.raw < 0 {
        -(v.raw as i128)
    } else {
        v.raw as i128
    };
    let even = (a / (CHECK_PERIOD_RAW as i128)) % 2 == 0;
    if v.raw < 0 {
        !even
    } else {
        even
    }
}

/// Moving a coordinate by a whole number `m` of cells keeps `check_dark`
/// when `m` is even and turns it round when `m` is odd, unless the
/// coordinate sits on a cell boundary and the move takes it across zero.
pub proof fn lemma_check_dark_translation(v: int, m: int)
    requires
        !on_check_boundary(v) || (v < 0) == (v + m * CHECK_PERIOD_RAW < 0),
    ensures
        check_dark(v + m * CHECK_PERIOD_RAW) == (check_dark(v) == (m % 2 == 0)),
{
}

/// Moving a position along one axis by a whole number `m` of cells keeps
/// the parity of `check_count` when `m` is even and flips it when `m` is odd,
/// under the condition of `lemma_check_dark_translation` on that axis.
pub proof fn lemma_check_count_translation(pos: Seq<int>, axis: int, m: int)
    requires
        pos.len() == 4,
        0 <= axis < 3,
        !on_check_boundary(pos[axis]) || (pos[axis] < 0) == (pos[axis] + m * CHECK_PERIOD_RAW
            < 0),
    ensures
        (check_count(pos.update(axis, pos[axis] + m * CHECK_PERIOD_RAW)) % 2 == 0) == ((
        check_count(pos) % 2 == 0) == (m % 2 == 0)),
{
    lemma_check_dark_translation(pos[axis], m);
}

} // verus!
