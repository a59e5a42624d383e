//! Sphere tracing: when a march along a ray has hit, when it has missed, and
//! when it goes on.
//!
//! The host queries the distance field and moves the point; after every move
//! it reports what it found to a [`Marcher`], which decides. The decision
//! never depends on anything but the report and the count of reports so far.
use crate::scalar::{
    lemma_power_pattern, lemma_quanta_monotonic, quantum_exponent, Scalar, Value, ONE_BITS,
};
use vstd::arithmetic::power2::pow2;
use crate::vec3::Vec3;
use vstd::prelude::*;

verus! {

/// The pattern of `1e-4`: a distance below it counts as touching the surface.
pub const HIT_THRESHOLD_BITS: u64 = 0x3F1A_36E2_EB1C_432D;

/// The cap on distance queries that [`StepLimit::standard`] sets.
pub const MAX_STEPS: u32 = 200;

/// Where a ray met the surface.
#[derive(Clone, Copy, Debug)]
pub struct RayResult {
    /// The length travelled along the ray.
    pub len: Scalar,
    pub hit_point: Vec3,
}

/// Whether a march gives up after a number of distance queries, besides
/// giving up when the point leaves the bounding region.
#[derive(Clone, Copy, Debug, PartialEq, Eq, Structural)]
pub enum StepLimit {
    /// Only leaving the bounding region ends a march without a hit.
    Unlimited,
    /// A march that has made more than this many queries without a hit has missed.
    AtMost(u32),
}

impl StepLimit {
    /// The cap of [`MAX_STEPS`] queries.
    pub fn standard() -> (r: StepLimit)
        ensures
            r == StepLimit::AtMost(MAX_STEPS),
    {
        StepLimit::AtMost(MAX_STEPS)
    }

    /// Whether `queries` distance queries are more than the limit allows.
    pub open spec fn exceeded_by(self, queries: nat) -> bool {
        match self {
            StepLimit::Unlimited => false,
            StepLimit::AtMost(cap) => queries > cap,
        }
    }
}

/// What the host found after one move along the ray.
#[derive(Clone, Copy, Debug)]
pub struct Probe {
    /// The distance that the field reported at the point before the move.
    pub radius: Scalar,
    /// The length travelled so far, the last move included.
    pub ray_len: Scalar,
    /// The point after the move.
    pub point: Vec3,
}

/// The state of a march after a report.
#[derive(Clone, Copy, Debug)]
pub enum Progress {
    /// The reported distance was below the threshold: the march ends at the
    /// reported point.
    Hit(RayResult),
    /// The march ends without a hit.
    Miss,
    /// Neither: query the field at the reported point and move again.
    Advance,
}

/// The decision on the `queries`-th report of a march.
pub open spec fn decide(
    hit_threshold: Scalar,
    backplanes: Vec3,
    limit: StepLimit,
    queries: nat,
    probe: Probe,
) -> Progress {
    if probe.radius@.lt(hit_threshold@) {
        Progress::Hit(RayResult { len: probe.ray_len, hit_point: probe.point })
    } else if limit.exceeded_by(queries) || probe.point.outside(backplanes) {
        Progress::Miss
    } else {
        Progress::Advance
    }
}

/// One march along one ray.
pub struct Marcher {
    pub hit_threshold: Scalar,
    /// The bounding region: a march whose point has a coordinate larger in
    /// magnitude than the same coordinate of `backplanes` has missed.
    pub backplanes: Vec3,
    pub limit: StepLimit,
    /// The number of reports taken, which stops counting at `u64::MAX`.
    pub queries: u64,
}

impl Marcher {
    /// A march that has taken no report yet, with the threshold `1e-4`.
    pub fn new(backplanes: Vec3, limit: StepLimit) -> (r: Marcher)
        ensures
            r.hit_threshold.bits == HIT_THRESHOLD_BITS,
            Value::zero().lt(r.hit_threshold@),
            r.hit_threshold@.lt(Value::whole(1)),
            r.backplanes == backplanes,
            r.limit == limit,
            r.queries == 0,
    {
        proof {
            lemma_quanta_monotonic(0, HIT_THRESHOLD_BITS as nat);
            lemma_quanta_monotonic(HIT_THRESHOLD_BITS as nat, ONE_BITS as nat);
            lemma_power_pattern(1023);
            assert(1 * pow2(quantum_exponent()) == pow2(quantum_exponent())) by (nonlinear_arith);
        }
        Marcher { hit_threshold: Scalar::from_bits(HIT_THRESHOLD_BITS), backplanes, limit, queries: 0 }
    }

    /// The count after one more report.
    pub open spec fn counted(queries: u64) -> u64 {
        if queries < u64::MAX {
            (queries + 1) as u64
        } else {
            queries
        }
    }

    /// Takes the report of one move and decides how the march stands.
    ///
    /// A hit is reported exactly where the field's distance fell below the
    /// threshold, with the point and length as reported; nothing is ever
    /// rounded towards a hit. Comparisons with a NaN are false, so a NaN
    /// distance is no hit and a NaN coordinate is not outside.
    pub fn observe(&mut self, probe: Probe) -> (r: Progress)
        ensures
            final(self).hit_threshold == old(self).hit_threshold,
            final(self).backplanes == old(self).backplanes,
            final(self).limit == old(self).limit,
            final(self).queries == Self::counted(old(self).queries),
            r == decide(
                old(self).hit_threshold,
                old(self).backplanes,
                old(self).limit,
                final(self).queries as nat,
                probe,
            ),
    {
        if self.queries < u64::MAX {
            self.queries = self.queries + 1;
        }
        if probe.radius.lt(self.hit_threshold) {
            return Progress::Hit(RayResult { len: probe.ray_len, hit_point: probe.point });
        }
        let spent = match self.limit {
            StepLimit::Unlimited => false,
            StepLimit::AtMost(cap) => self.queries > cap as u64,
        };
        if spent || probe.point.is_outside(self.backplanes) {
            Progress::Miss
        } else {
            Progress::Advance
        }
    }
}

/// The count of reports is wide enough: where it has stopped counting it
/// decides as the true count would.
pub proof fn lemma_count_is_wide_enough(
    hit_threshold: Scalar,
    backplanes: Vec3,
    limit: StepLimit,
    queries: nat,
    probe: Probe,
)
    requires
        queries >= u64::MAX,
    ensures
        decide(hit_threshold, backplanes, limit, queries, probe) == decide(
            hit_threshold,
            backplanes,
            limit,
            u64::MAX as nat,
            probe,
        ),
{
}

/// How a march stands after a run of reports: the decision on the first
/// report that ended it, or `Advance` if none did.
pub open spec fn march(
    hit_threshold: Scalar,
    backplanes: Vec3,
    limit: StepLimit,
    probes: Seq<Probe>,
) -> Progress
    decreases probes.len(),
{
    if probes.len() == 0 {
        Progress::Advance
    } else {
        let before = march(hit_threshold, backplanes, limit, probes.drop_last());
        if before is Advance {
            decide(hit_threshold, backplanes, limit, probes.len(), probes.last())
        } else {
            before
        }
    }
}

/// A capped march ends: after more reports than the cap allows it stands at a
/// hit or at a miss, whatever the field reported.
pub proof fn lemma_capped_march_ends(
    hit_threshold: Scalar,
    backplanes: Vec3,
    cap: u32,
    probes: Seq<Probe>,
)
    requires
        probes.len() > cap,
    ensures
        !(march(hit_threshold, backplanes, StepLimit::AtMost(cap), probes) is Advance),
{
}

/// A march reports a hit only where the field's distance was below the
/// threshold, and then with the point and the length of that very report.
pub proof fn lemma_hit_is_within_threshold(
    hit_threshold: Scalar,
    backplanes: Vec3,
    limit: StepLimit,
    probes: Seq<Probe>,
)
    ensures
        match march(hit_threshold, backplanes, limit, probes) {
            Progress::Hit(result) => exists|i: int|
                0 <= i < probes.len() && #[trigger] probes[i].radius@.lt(hit_threshold@)
                    && result.hit_point == probes[i].point && result.len == probes[i].ray_len,
            _ => true,
        },
    decreases probes.len(),
{
    if probes.len() > 0 {
        let before = march(hit_threshold, backplanes, limit, probes.drop_last());
        lemma_hit_is_within_threshold(hit_threshold, backplanes, limit, probes.drop_last());
        if before is Advance {
            let i = probes.len() - 1;
            if probes[i].radius@.lt(hit_threshold@) {
                assert(probes[i].radius@.lt(hit_threshold@));
            }
        } else if let Progress::Hit(result) = before {
            let i = choose|i: int|
                0 <= i < probes.drop_last().len() && #[trigger] probes.drop_last()[i].radius@.lt(
                    hit_threshold@,
                ) && result.hit_point == probes.drop_last()[i].point && result.len
                    == probes.drop_last()[i].ray_len;
            assert(probes[i] == probes.drop_last()[i]);
            assert(probes[i].radius@.lt(hit_threshold@));
        }
    }
}

/// A march whose point leaves the bounding region before the field's distance
/// has fallen below the threshold is a miss.
pub proof fn lemma_leaving_the_bounds_is_a_miss(
    hit_threshold: Scalar,
    backplanes: Vec3,
    limit: StepLimit,
    probes: Seq<Probe>,
)
    requires
        probes.len() > 0,
        probes.last().point.outside(backplanes),
        forall|i: int| 0 <= i < probes.len() ==> !(#[trigger] probes[i].radius@.lt(hit_threshold@)),
    ensures
        march(hit_threshold, backplanes, limit, probes) is Miss,
{
    let earlier = probes.drop_last();
    lemma_no_hit_without_contact(hit_threshold, backplanes, limit, earlier);
}

/// Without a distance below the threshold there is no hit.
pub proof fn lemma_no_hit_without_contact(
    hit_threshold: Scalar,
    backplanes: Vec3,
    limit: StepLimit,
    probes: Seq<Probe>,
)
    requires
        forall|i: int| 0 <= i < probes.len() ==> !(#[trigger] probes[i].radius@.lt(hit_threshold@)),
    ensures
        !(march(hit_threshold, backplanes, limit, probes) is Hit),
    decreases probes.len(),
{
    if probes.len() > 0 {
        assert forall|i: int| 0 <= i < probes.drop_last().len() implies !(
        #[trigger] probes.drop_last()[i].radius@.lt(hit_threshold@)) by {
            assert(probes.drop_last()[i] == probes[i]);
        }
        lemma_no_hit_without_contact(hit_threshold, backplanes, limit, probes.drop_last());
    }
}

} // verus!
