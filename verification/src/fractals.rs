//! The fractals' escape-time iteration: where it starts, how long it runs,
//! and what becomes of the distance estimate that it ends in.
//!
//! The quaternion arithmetic of an iteration is the host's. Between two
//! iterations the host reports the orbit's magnitude to an [`Orbit`], and it
//! hands the estimate `|z| ln|z| / |dz|` to [`clamp_distance`] before scaling it.
use crate::scalar::{lemma_pattern_is_whole, Scalar, Value};
use crate::vec3::Vec3;
use vstd::prelude::*;

verus! {

/// The cap on iterations of one distance query.
pub const MAX_ITERS: u32 = 20;

/// The pattern of `4.0`: a quaternion orbit that is farther from the origin has escaped.
pub const QUATERNION_BAILOUT_BITS: u64 = 0x4010_0000_0000_0000;

/// The pattern of `2.0`: the Mandelbulb's orbit has escaped beyond it.
pub const MANDELBULB_BAILOUT_BITS: u64 = 0x4000_0000_0000_0000;

/// The pattern of `4.0`, the Mandelbulb's power.
pub const MANDELBULB_POWER_BITS: u64 = 0x4010_0000_0000_0000;

/// The pattern of `0.2`, by which a quaternion distance estimate is scaled
/// so that a march does not step through the surface.
pub const QUATERNION_ESTIMATE_SCALE_BITS: u64 = 0x3FC9_9999_9999_999A;

/// The pattern of `0.5`, the factor of the Mandelbulb's estimate `0.5 r ln r / dr`.
pub const MANDELBULB_ESTIMATE_SCALE_BITS: u64 = 0x3FE0_0000_0000_0000;

/// A quaternion `s + xi + yj + zk`.
#[derive(Clone, Copy, Debug)]
pub struct Quaternion {
    pub s: Scalar,
    pub x: Scalar,
    pub y: Scalar,
    pub z: Scalar,
}

impl Quaternion {
    /// The quaternion `1`, from which the orbit's derivative starts.
    pub fn one() -> (r: Quaternion)
        ensures
            r.s@ == Value::whole(1),
            r.x.bits == 0 && r.y.bits == 0 && r.z.bits == 0,
    {
        Quaternion { s: Scalar::one(), x: Scalar::zero(), y: Scalar::zero(), z: Scalar::zero() }
    }

    /// The quaternion `0`, from which the Mandelbrot orbit starts.
    pub fn zero() -> (r: Quaternion)
        ensures
            r.s.bits == 0 && r.x.bits == 0 && r.y.bits == 0 && r.z.bits == 0,
    {
        Quaternion { s: Scalar::zero(), x: Scalar::zero(), y: Scalar::zero(), z: Scalar::zero() }
    }

    /// A point of space as a quaternion, with `w` for the fourth component.
    pub open spec fn lifted(point: Vec3, w: Scalar) -> Quaternion {
        Quaternion { s: point.x, x: point.y, y: point.z, z: w }
    }

    pub fn lift(point: Vec3, w: Scalar) -> (r: Quaternion)
        ensures
            r == Self::lifted(point, w),
    {
        Quaternion { s: point.x, x: point.y, y: point.z, z: w }
    }
}

/// When an escape-time iteration stops.
#[derive(Clone, Copy, Debug)]
pub struct EscapeTime {
    /// No distance query runs more iterations than this.
    pub max_iters: u32,
    /// An orbit whose magnitude is greater than this has escaped.
    pub bailout: Scalar,
}

impl EscapeTime {
    /// The rule of the quaternion Julia and Mandelbrot sets.
    pub fn quaternion() -> (r: EscapeTime)
        ensures
            r.max_iters == MAX_ITERS,
            r.bailout.bits == QUATERNION_BAILOUT_BITS,
            r.bailout@ == Value::whole(4),
    {
        proof {
            vstd::arithmetic::power2::lemma2_to64_rest();
            lemma_pattern_is_whole(QUATERNION_BAILOUT_BITS, 4, 1025, 0);
        }
        EscapeTime { max_iters: MAX_ITERS, bailout: Scalar::from_bits(QUATERNION_BAILOUT_BITS) }
    }

    /// The rule of the Mandelbulb.
    pub fn mandelbulb() -> (r: EscapeTime)
        ensures
            r.max_iters == MAX_ITERS,
            r.bailout.bits == MANDELBULB_BAILOUT_BITS,
            r.bailout@ == Value::whole(2),
    {
        proof {
            vstd::arithmetic::power2::lemma2_to64_rest();
            lemma_pattern_is_whole(MANDELBULB_BAILOUT_BITS, 2, 1024, 0);
        }
        EscapeTime { max_iters: MAX_ITERS, bailout: Scalar::from_bits(MANDELBULB_BAILOUT_BITS) }
    }

    /// Whether an orbit of the given magnitude has escaped.
    pub open spec fn escaped(self, magnitude: Scalar) -> bool {
        self.bailout@.lt(magnitude@)
    }
}

/// The progress of one orbit: how many of its iterations have been counted.
///
/// The Julia set iterates and then looks at the magnitude, the Mandelbulb
/// looks and then iterates. Both run `while has_budget()`, and both end
/// where `record` of the magnitude says so.
#[derive(Clone, Copy, Debug)]
pub struct Orbit {
    pub rule: EscapeTime,
    /// The number of magnitudes recorded that had not escaped.
    pub completed: u32,
}

impl Orbit {
    /// An orbit that has not been iterated yet.
    pub fn new(rule: EscapeTime) -> (r: Orbit)
        ensures
            r.rule == rule,
            r.completed == 0,
    {
        Orbit { rule, completed: 0 }
    }

    /// Whether the cap on iterations leaves room for one more.
    pub fn has_budget(&self) -> (r: bool)
        ensures
            r == (self.completed < self.rule.max_iters),
    {
        self.completed < self.rule.max_iters
    }

    /// Takes the magnitude of the orbit and says whether the orbit goes on:
    /// it does, and is counted, unless the cap is reached or the magnitude is
    /// greater than the bailout. A NaN is not greater than anything.
    pub fn record(&mut self, magnitude: Scalar) -> (goes_on: bool)
        ensures
            final(self).rule == old(self).rule,
            goes_on == (old(self).completed < old(self).rule.max_iters && !old(self).rule.escaped(
                magnitude,
            )),
            goes_on ==> final(self).completed == old(self).completed + 1,
            !goes_on ==> final(self).completed == old(self).completed,
            old(self).completed <= old(self).rule.max_iters ==> final(self).completed <= old(
                self
            ).rule.max_iters,
    {
        if self.completed >= self.rule.max_iters || magnitude.gt(self.rule.bailout) {
            false
        } else {
            self.completed = self.completed + 1;
            true
        }
    }
}

/// The number of iterations that an orbit makes when its magnitudes are
/// `magnitudes`, one after the other: it stops at the first that has
/// escaped, and where the cap is reached.
pub open spec fn iterations(rule: EscapeTime, magnitudes: Seq<Scalar>) -> nat
    decreases magnitudes.len(),
{
    if magnitudes.len() == 0 {
        0
    } else {
        let before = iterations(rule, magnitudes.drop_last());
        if before == magnitudes.len() - 1 && before < rule.max_iters && !rule.escaped(
            magnitudes.last(),
        ) {
            before + 1
        } else {
            before
        }
    }
}

/// No orbit makes more iterations than the cap allows, however long it
/// stays within the bailout.
pub proof fn lemma_orbit_is_capped(rule: EscapeTime, magnitudes: Seq<Scalar>)
    ensures
        iterations(rule, magnitudes) <= rule.max_iters,
        iterations(rule, magnitudes) <= magnitudes.len(),
    decreases magnitudes.len(),
{
    if magnitudes.len() > 0 {
        lemma_orbit_is_capped(rule, magnitudes.drop_last());
    }
}

/// A distance estimate made fit for marching: zero in place of a negative
/// estimate and of a NaN, the estimate itself otherwise.
pub open spec fn clamped_distance(estimate: Scalar) -> Scalar {
    if estimate@ is Nan || estimate@.lt(Value::zero()) {
        Scalar { bits: 0 }
    } else {
        estimate
    }
}

/// Clamps a distance estimate. The result is never negative and never a NaN,
/// whatever the iteration ended in.
pub fn clamp_distance(estimate: Scalar) -> (r: Scalar)
    ensures
        r == clamped_distance(estimate),
        Value::zero().le(r@),
{
    if estimate.is_nan() || estimate.lt(Scalar::zero()) {
        Scalar::zero()
    } else {
        estimate
    }
}

/// The quaternion Julia set of the constant `c`.
#[derive(Clone, Copy, Debug)]
pub struct Julia {
    pub c: Quaternion,
    pub color: Vec3,
}

impl Julia {
    /// Where the orbit of `point` starts at animation time `t`, and where its
    /// derivative starts.
    pub fn seed(&self, point: Vec3, t: Scalar) -> (r: (Quaternion, Quaternion))
        ensures
            r.0 == Quaternion::lifted(point, t),
            r.1.s@ == Value::whole(1),
            r.1.x.bits == 0 && r.1.y.bits == 0 && r.1.z.bits == 0,
    {
        (Quaternion::lift(point, t), Quaternion::one())
    }

    /// The colour of the surface, the same everywhere and at every time.
    pub fn get_color(&self, t: Scalar) -> (r: Vec3)
        ensures
            r == self.color,
    {
        self.color
    }
}

/// The Mandelbulb of power four.
#[derive(Clone, Copy, Debug)]
pub struct Mandelbulb {
    pub color: Vec3,
}

impl Mandelbulb {
    pub fn get_color(&self, t: Scalar) -> (r: Vec3)
        ensures
            r == self.color,
    {
        self.color
    }
}

} // verus!
