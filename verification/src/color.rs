//! Colors: three scalar channels, combined channel by channel.

use crate::scalar::{fx_add, fx_mul, fx_sub, Scalar, ONE_RAW};
use vstd::prelude::*;
use vstd::std_specs::ops::{AddSpecImpl, MulSpecImpl, SubSpecImpl};

verus! {

#[derive(Debug, Copy, Clone, PartialEq, Eq, Structural)]
pub struct Color {
    pub red: Scalar,
    pub green: Scalar,
    pub blue: Scalar,
}

/// A color as its three raw channels.
pub struct ColorModel {
    pub red: int,
    pub green: int,
    pub blue: int,
}

pub open spec fn rgb_add(a: ColorModel, b: ColorModel) -> ColorModel {
    ColorModel {
        red: fx_add(a.red, b.red),
        green: fx_add(a.green, b.green),
        blue: fx_add(a.blue, b.blue),
    }
}

pub open spec fn rgb_sub(a: ColorModel, b: ColorModel) -> ColorModel {
    ColorModel {
        red: fx_sub(a.red, b.red),
        green: fx_sub(a.green, b.green),
        blue: fx_sub(a.blue, b.blue),
    }
}

pub open spec fn rgb_scale(a: ColorModel, k: int) -> ColorModel {
    ColorModel { red: fx_mul(a.red, k), green: fx_mul(a.green, k), blue: fx_mul(a.blue, k) }
}

/// The channel-by-channel product.
pub open spec fn rgb_mul(a: ColorModel, b: ColorModel) -> ColorModel {
    ColorModel {
        red: fx_mul(a.red, b.red),
        green: fx_mul(a.green, b.green),
        blue: fx_mul(a.blue, b.blue),
    }
}

pub open spec fn rgb_black() -> ColorModel {
    ColorModel { red: 0, green: 0, blue: 0 }
}

pub open spec fn rgb_white() -> ColorModel {
    ColorModel { red: ONE_RAW as int, green: ONE_RAW as int, blue: ONE_RAW as int }
}

impl View for Color {
    type V = ColorModel;

    open spec fn view(&self) -> ColorModel {
        ColorModel { red: self.red@, green: self.green@, blue: self.blue@ }
    }
}

impl Color {
    /// No light at all.
    pub fn black() -> (c: Self)
        ensures
            c@ == rgb_black(),
    {
        Self { red: Scalar { raw: 0 }, green: Scalar { raw: 0 }, blue: Scalar { raw: 0 } }
    }

    /// Full intensity in every channel.
    pub fn white() -> (c: Self)
        ensures
            c@ == rgb_white(),
    {
        Self {
            red: Scalar { raw: ONE_RAW },
            green: Scalar { raw: ONE_RAW },
            blue: Scalar { raw: ONE_RAW },
        }
    }

    pub fn new(r: Scalar, g: Scalar, b: Scalar) -> (c: Self)
        ensures
            c@ == (ColorModel { red: r@, green: g@, blue: b@ }),
    {
        Self { red: r, green: g, blue: b }
    }
}

impl core::ops::Add for Color {
    type Output = Color;

    fn add(self, rhs: Self) -> (c: Color)
        ensures
            c@ == rgb_add(self@, rhs@),
    {
        Color::new(self.red + rhs.red, self.green + rhs.green, self.blue + rhs.blue)
    }
}

impl AddSpecImpl for Color {
    open spec fn obeys_add_spec() -> bool {
        false
    }

    open spec fn add_req(self, rhs: Self) -> bool {
        true
    }

    open spec fn add_spec(self, rhs: Self) -> Self {
        self
    }
}

impl core::ops::Sub for Color {
    type Output = Color;

    fn sub(self, rhs: Self) -> (c: Color)
        ensures
            c@ == rgb_sub(self@, rhs@),
    {
        Color::new(self.red - rhs.red, self.green - rhs.green, self.blue - rhs.blue)
    }
}

impl SubSpecImpl for Color {
    open spec fn obeys_sub_spec() -> bool {
        false
    }

    open spec fn sub_req(self, rhs: Self) -> bool {
        true
    }

    open spec fn sub_spec(self, rhs: Self) -> Self {
        self
    }
}

impl core::ops::Mul<Scalar> for Color {
    type Output = Color;

    fn mul(self, rhs: Scalar) -> (c: Color)
        ensures
            c@ == rgb_scale(self@, rhs@),
    {
        Color::new(self.red * rhs, self.green * rhs, self.blue * rhs)
    }
}

impl MulSpecImpl<Scalar> for Color {
    open spec fn obeys_mul_spec() -> bool {
        false
    }

    open spec fn mul_req(self, rhs: Scalar) -> bool {
        true
    }

    open spec fn mul_spec(self, rhs: Scalar) -> Self {
        self
    }
}

impl core::ops::Mul<Color> for Scalar {
    type Output = Color;

    fn mul(self, rhs: Color) -> (c: Color)
        ensures
            c@ == rgb_scale(rhs@, self@),
    {
        rhs * self
    }
}

impl MulSpecImpl<Color> for Scalar {
    open spec fn obeys_mul_spec() -> bool {
        false
    }

    open spec fn mul_req(self, rhs: Color) -> bool {
        true
    }

    open spec fn mul_spec(self, rhs: Color) -> Color {
        rhs
    }
}

impl core::ops::Mul for Color {
    type Output = Color;

    fn mul(self, rhs: Self) -> (c: Color)
        ensures
            c@ == rgb_mul(self@, rhs@),
    {
        Color::new(self.red * rhs.red, self.green * rhs.green, self.blue * rhs.blue)
    }
}

impl MulSpecImpl for Color {
    open spec fn obeys_mul_spec() -> bool {
        false
    }

    open spec fn mul_req(self, rhs: Self) -> bool {
        true
    }

    open spec fn mul_spec(self, rhs: Self) -> Self {
        self
    }
}

} // verus!
