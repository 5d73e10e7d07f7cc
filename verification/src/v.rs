//! Four-component vectors with named components.

use crate::scalar::{Scalar, ONE_RAW};
use crate::tuple::{
    point_seq, tuple_add, tuple_cross, tuple_div, tuple_dot, tuple_mag, tuple_neg,
    tuple_normalize, tuple_scale, tuple_sub, vector_seq, Tuple,
};
use vstd::prelude::*;
use vstd::std_specs::ops::{AddSpecImpl, DivSpecImpl, MulSpecImpl, NegSpecImpl, SubSpecImpl};

verus! {

#[derive(Debug, Copy, Clone, PartialEq, Eq, Structural)]
pub struct V4 {
    pub x: Scalar,
    pub y: Scalar,
    pub z: Scalar,
    pub w: Scalar,
}

impl View for V4 {
    type V = Seq<int>;

    open spec fn view(&self) -> Seq<int> {
        seq![self.x@, self.y@, self.z@, self.w@]
    }
}

impl V4 {
    pub fn new(x: Scalar, y: Scalar, z: Scalar, w: Scalar) -> (v: Self)
        ensures
            v == (V4 { x, y, z, w }),
    {
        Self { x, y, z, w }
    }

    /// The direction `(x, y, z)`.
    pub fn vector(x: Scalar, y: Scalar, z: Scalar) -> (v: Self)
        ensures
            v@ == vector_seq(x@, y@, z@),
    {
        Self::new(x, y, z, Scalar::from_raw(0))
    }

    /// The position `(x, y, z)`.
    pub fn point(x: Scalar, y: Scalar, z: Scalar) -> (v: Self)
        ensures
            v@ == point_seq(x@, y@, z@),
    {
        Self::new(x, y, z, Scalar::from_raw(ONE_RAW))
    }

    pub fn is_point(&self) -> (r: bool)
        ensures
            r == (self@[3] != 0),
    {
        self.w.raw != 0
    }

    pub fn is_vector(&self) -> (r: bool)
        ensures
            r == (self@[3] == 0),
    {
        self.w.raw == 0
    }

    /// The same components as a tuple.
    fn as_tuple(&self) -> (t: Tuple<4>)
        ensures
            t@ == self@,
    {
        let t = Tuple::new([self.x, self.y, self.z, self.w]);
        assert(t@ =~= self@);
        t
    }

    pub fn mag(&self) -> (r: Scalar)
        ensures
            r@ == tuple_mag(self@),
    {
        self.as_tuple().mag()
    }

    pub fn normalize(&self) -> (r: Self)
        ensures
            r@ == tuple_normalize(self@),
    {
        let t = self.as_tuple().normalize();
        let r = V4::new(t.get(0), t.get(1), t.get(2), t.get(3));
        assert(r@ =~= tuple_normalize(self@));
        r
    }

    pub fn dot(&self, rhs: Self) -> (r: Scalar)
        ensures
            r@ == tuple_dot(self@, rhs@),
    {
        self.as_tuple().dot(rhs.as_tuple())
    }

    pub fn cross(&self, rhs: Self) -> (r: Self)
        ensures
            r@ == tuple_cross(self@, rhs@),
    {
        let t = self.as_tuple().cross(rhs.as_tuple());
        let r = V4::new(t.get(0), t.get(1), t.get(2), t.get(3));
        assert(r@ =~= tuple_cross(self@, rhs@));
        r
    }
}

impl core::ops::Add for V4 {
    type Output = V4;

    fn add(self, rhs: Self) -> (r: V4)
        ensures
            r@ == tuple_add(self@, rhs@),
    {
        let r = Self::new(self.x + rhs.x, self.y + rhs.y, self.z + rhs.z, self.w + rhs.w);
        assert(r@ =~= tuple_add(self@, rhs@));
        r
    }
}

impl AddSpecImpl for V4 {
    open spec fn obeys_add_spec() -> bool {
        false
    }

    open spec fn add_req(self, rhs: Self) -> bool {
        true
    }

    open spec fn add_spec(self, rhs: Self) -> Self {
        self
    }
}

impl core::ops::Sub for V4 {
    type Output = V4;

    fn sub(self, rhs: Self) -> (r: V4)
        ensures
            r@ == tuple_sub(self@, rhs@),
    {
        let r = Self::new(self.x - rhs.x, self.y - rhs.y, self.z - rhs.z, self.w - rhs.w);
        assert(r@ =~= tuple_sub(self@, rhs@));
        r
    }
}

impl SubSpecImpl for V4 {
    open spec fn obeys_sub_spec() -> bool {
        false
    }

    open spec fn sub_req(self, rhs: Self) -> bool {
        true
    }

    open spec fn sub_spec(self, rhs: Self) -> Self {
        self
    }
}

impl core::ops::Neg for V4 {
    type Output = V4;

    fn neg(self) -> (r: V4)
        ensures
            r@ == tuple_neg(self@),
    {
        let r = Self::new(
            core::ops::Neg::neg(self.x),
            core::ops::Neg::neg(self.y),
            core::ops::Neg::neg(self.z),
            core::ops::Neg::neg(self.w),
        );
        assert(r@ =~= tuple_neg(self@));
        r
    }
}

impl NegSpecImpl for V4 {
    open spec fn obeys_neg_spec() -> bool {
        false
    }

    open spec fn neg_req(self) -> bool {
        true
    }

    open spec fn neg_spec(self) -> Self {
        self
    }
}

impl core::ops::Mul<Scalar> for V4 {
    type Output = V4;

    fn mul(self, rhs: Scalar) -> (r: V4)
        ensures
            r@ == tuple_scale(self@, rhs@),
    {
        let r = Self::new(self.x * rhs, self.y * rhs, self.z * rhs, self.w * rhs);
        assert(r@ =~= tuple_scale(self@, rhs@));
        r
    }
}

impl MulSpecImpl<Scalar> for V4 {
    open spec fn obeys_mul_spec() -> bool {
        false
    }

    open spec fn mul_req(self, rhs: Scalar) -> bool {
        true
    }

    open spec fn mul_spec(self, rhs: Scalar) -> Self {
        self
    }
}

impl core::ops::Mul<V4> for Scalar {
    type Output = V4;

    fn mul(self, rhs: V4) -> (r: V4)
        ensures
            r@ == tuple_scale(rhs@, self@),
    {
        rhs * self
    }
}

impl MulSpecImpl<V4> for Scalar {
    open spec fn obeys_mul_spec() -> bool {
        false
    }

    open spec fn mul_req(self, rhs: V4) -> bool {
        true
    }

    open spec fn mul_spec(self, rhs: V4) -> V4 {
        rhs
    }
}

impl core::ops::Div<Scalar> for V4 {
    type Output = V4;

    fn div(self, rhs: Scalar) -> (r: V4)
        ensures
            r@ == tuple_div(self@, rhs@),
    {
        let r = Self::new(self.x / rhs, self.y / rhs, self.z / rhs, self.w / rhs);
        assert(r@ =~= tuple_div(self@, rhs@));
        r
    }
}

impl DivSpecImpl<Scalar> for V4 {
    open spec fn obeys_div_spec() -> bool {
        false
    }

    open spec fn div_req(self, rhs: Scalar) -> bool {
        true
    }

    open spec fn div_spec(self, rhs: Scalar) -> Self {
        self
    }
}

} // verus!
