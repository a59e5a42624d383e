//! An object cut open along the plane `z = cut`: what lies beyond the plane
//! is taken away, and the cut face is flat.
use crate::scalar::{Scalar, Value};
use crate::vec3::Vec3;
use vstd::prelude::*;

verus! {

/// The pattern of `1e-3`: a point this near to the plane lies on the cut face.
pub const FACE_TOLERANCE_BITS: u64 = 0x3F50_624D_D2F1_A9FC;

/// The plane along which an object is cut.
#[derive(Clone, Copy, Debug)]
pub struct ZSectioned {
    pub z: Scalar,
}

impl ZSectioned {
    /// Whether `point` lies in the half that is taken away.
    pub fn is_cut_away(&self, point: Vec3) -> (r: bool)
        ensures
            r == self.z@.lt(point.z@),
    {
        point.z.gt(self.z)
    }

    /// Whether the normal at `point` is that of the cut face: it is where
    /// the point is no farther than the tolerance from the plane, or beyond
    /// it. `offset` is the point's `z` less the plane's.
    pub fn is_on_face(&self, point: Vec3, offset: Scalar) -> (r: bool)
        ensures
            r == (offset@.magnitude().le(Scalar { bits: FACE_TOLERANCE_BITS }@) || self.z@.lt(
                point.z@,
            )),
    {
        offset.abs().le(Scalar::from_bits(FACE_TOLERANCE_BITS)) || point.z.gt(self.z)
    }

    /// The normal of the cut face.
    pub fn face_normal() -> (r: Vec3)
        ensures
            r.x@ == Value::whole(0),
            r.y@ == Value::whole(1),
            r.z@ == Value::whole(0),
    {
        Vec3::whole(0, 1, 0)
    }
}

} // verus!
