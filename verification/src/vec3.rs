//! Points, directions and colours: three doubles, each held as its bit pattern.
use crate::scalar::{Scalar, Value};
use vstd::prelude::*;
use vstd::std_specs::convert::FromSpecImpl;
use vstd::std_specs::ops::NegSpecImpl;

verus! {

/// A point or direction in space, or an RGB colour with channels in `[0, 1]`.
#[derive(Clone, Copy, Debug)]
pub struct Vec3 {
    pub x: Scalar,
    pub y: Scalar,
    pub z: Scalar,
}

impl Vec3 {
    pub fn new(x: Scalar, y: Scalar, z: Scalar) -> (r: Vec3)
        ensures
            r == (Vec3 { x, y, z }),
    {
        Vec3 { x, y, z }
    }

    /// The vector with `n` in every component.
    pub fn from_f64(n: Scalar) -> (r: Vec3)
        ensures
            r == (Vec3 { x: n, y: n, z: n }),
    {
        Vec3 { x: n, y: n, z: n }
    }

    /// The vector of three whole numbers. A zero among them is the
    /// positive zero.
    pub fn whole(x: i32, y: i32, z: i32) -> (r: Vec3)
        ensures
            r.x@ == Value::whole(x as int),
            r.y@ == Value::whole(y as int),
            r.z@ == Value::whole(z as int),
            x == 0 ==> r.x.bits == 0,
            y == 0 ==> r.y.bits == 0,
            z == 0 ==> r.z.bits == 0,
    {
        Vec3 { x: Scalar::from_i32(x), y: Scalar::from_i32(y), z: Scalar::from_i32(z) }
    }

    /// Whether any component is a NaN.
    pub open spec fn has_nan(self) -> bool {
        self.x@ is Nan || self.y@ is Nan || self.z@ is Nan
    }

    /// Whether every component is zero, of either sign.
    pub open spec fn all_zero(self) -> bool {
        self.x@ == Value::zero() && self.y@ == Value::zero() && self.z@ == Value::zero()
    }

    /// Whether some component is larger in magnitude than the same component
    /// of `bounds`. A NaN on either side of a comparison decides nothing.
    pub open spec fn outside(self, bounds: Vec3) -> bool {
        ||| bounds.x@.lt(self.x@.magnitude())
        ||| bounds.y@.lt(self.y@.magnitude())
        ||| bounds.z@.lt(self.z@.magnitude())
    }

    pub fn is_nan(self) -> (r: bool)
        ensures
            r == self.has_nan(),
    {
        self.x.is_nan() || self.y.is_nan() || self.z.is_nan()
    }

    pub fn is_zero(self) -> (r: bool)
        ensures
            r == self.all_zero(),
    {
        self.x.is_zero() && self.y.is_zero() && self.z.is_zero()
    }

    /// Whether the point lies beyond one of the three pairs of planes
    /// `x = ±bounds.x`, `y = ±bounds.y`, `z = ±bounds.z`.
    pub fn is_outside(self, bounds: Vec3) -> (r: bool)
        ensures
            r == self.outside(bounds),
    {
        self.x.abs().gt(bounds.x) || self.y.abs().gt(bounds.y) || self.z.abs().gt(bounds.z)
    }
}

impl Default for Vec3 {
    /// The origin.
    fn default() -> (r: Vec3)
        ensures
            r.x.bits == 0 && r.y.bits == 0 && r.z.bits == 0,
    {
        Vec3 { x: Scalar::zero(), y: Scalar::zero(), z: Scalar::zero() }
    }
}

impl core::ops::Neg for Vec3 {
    type Output = Vec3;

    /// The opposite vector; exact for every pattern.
    fn neg(self) -> (r: Vec3) {
        Vec3 { x: self.x.neg(), y: self.y.neg(), z: self.z.neg() }
    }
}

impl NegSpecImpl for Vec3 {
    open spec fn obeys_neg_spec() -> bool {
        true
    }

    open spec fn neg_req(self) -> bool {
        true
    }

    open spec fn neg_spec(self) -> Vec3 {
        Vec3 { x: self.x.flipped(), y: self.y.flipped(), z: self.z.flipped() }
    }
}

impl From<(Scalar, Scalar, Scalar)> for Vec3 {
    fn from(v: (Scalar, Scalar, Scalar)) -> (r: Vec3) {
        Vec3 { x: v.0, y: v.1, z: v.2 }
    }
}

impl FromSpecImpl<(Scalar, Scalar, Scalar)> for Vec3 {
    open spec fn obeys_from_spec() -> bool {
        true
    }

    open spec fn from_spec(v: (Scalar, Scalar, Scalar)) -> Vec3 {
        Vec3 { x: v.0, y: v.1, z: v.2 }
    }
}

} // verus!
