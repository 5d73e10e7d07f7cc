//! Angles, held in radians.

use crate::scalar::{Scalar, ONE_RAW};
use crate::wide::{bounded_quotient, SignedWide};
use vstd::prelude::*;

verus! {

/// Pi in raw units.
pub const PI_RAW: i64 = 3_141_592_654;

/// A full turn, twice pi, in raw units.
pub const TURN_RAW: i64 = 6_283_185_308;

/// The radians of `degree` degrees: `degree * pi / 180`, rounded once.
pub open spec fn degrees_to_radians(degree: int) -> int {
    bounded_quotient(degree * PI_RAW, 180 * ONE_RAW)
}

/// The degrees of `radian` radians: `radian * 180 / pi`, rounded once.
pub open spec fn radians_to_degrees(radian: int) -> int {
    bounded_quotient(radian * (180 * ONE_RAW), PI_RAW as int)
}

/// The angle in `[0, 2 pi)` that differs from `radian` by whole turns.
pub open spec fn normalized_radians(radian: int) -> int {
    radian % (TURN_RAW as int)
}

/// An angle; the scalar is its measure in radians.
#[derive(Copy, Clone, Debug, PartialEq, Eq, Structural)]
pub struct Angle(pub Scalar);

impl View for Angle {
    type V = int;

    /// The radians in raw units.
    open spec fn view(&self) -> int {
        self.0@
    }
}

impl Angle {
    pub fn from_radian(radian: Scalar) -> (a: Self)
        ensures
            a@ == radian@,
    {
        Angle(radian)
    }

    pub fn from_degree(degree: Scalar) -> (a: Self)
        ensures
            a@ == degrees_to_radians(degree@),
    {
        let radian = SignedWide::product(degree.raw as i128, PI_RAW as i128).quotient(
            1,
            &SignedWide::product(180 * (ONE_RAW as i128), 1),
        );
        Angle(radian)
    }

    pub fn radian(&self) -> (r: Scalar)
        ensures
            r@ == self@,
    {
        self.0
    }

    pub fn degree(&self) -> (d: Scalar)
        ensures
            d@ == radians_to_degrees(self@),
    {
        SignedWide::product(self.0.raw as i128, 180 * (ONE_RAW as i128)).quotient(
            1,
            &SignedWide::product(PI_RAW as i128, 1),
        )
    }

    /// The same angle in `[0, 2 pi)`.
    pub fn normalize(self) -> (a: Self)
        ensures
            a@ == normalized_radians(self@),
            0 <= a@ < TURN_RAW,
    {
        let mut radian: i64 = self.0.raw % TURN_RAW;
        if radian < 0 {
            radian = radian + TURN_RAW;
        }
        Self::from_radian(Scalar::from_raw(radian))
    }

    /// The same as `normalize`: the angle in `[0, 2 pi)`.
    pub fn normalize_signed(self) -> (a: Self)
        ensures
            a@ == normalized_radians(self@),
            0 <= a@ < TURN_RAW,
    {
        self.normalize()
    }
}

} // verus!
