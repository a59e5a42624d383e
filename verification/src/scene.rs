//! A scene of several objects: which of them is nearest to a point.
use crate::scalar::{Scalar, Value};
use vstd::prelude::*;

verus! {

/// Why a scene has no nearest object.
#[derive(Clone, Copy, Debug, PartialEq, Eq, Structural)]
pub enum SceneError {
    /// The scene holds no object.
    Empty,
    /// An object reported a NaN for its distance, so the distances have no order.
    NotANumber,
}

/// Whether one of the distances is a NaN.
pub open spec fn some_nan(distances: Seq<Scalar>) -> bool {
    exists|i: int| 0 <= i < distances.len() && #[trigger] distances[i]@ is Nan
}

/// Whether `index` is the first position of a least distance.
pub open spec fn first_least(distances: Seq<Scalar>, index: int) -> bool {
    &&& 0 <= index < distances.len()
    &&& forall|j: int| 0 <= j < index ==> distances[index]@.lt(#[trigger] distances[j]@)
    &&& forall|j: int| index <= j < distances.len() ==> distances[index]@.le(#[trigger] distances[j]@)
}

/// The index of the object nearest to the point whose distances are given,
/// one distance per object in the order of the scene, with that distance.
/// Of several objects at the same least distance the first is the nearest.
///
/// With a single object nothing is compared and its distance comes back as
/// it is. With more, a NaN among the distances is an error.
pub fn nearest(distances: &Vec<Scalar>) -> (r: Result<(usize, Scalar), SceneError>)
    ensures
        match r {
            Ok((index, distance)) => {
                &&& 0 <= index < distances.len()
                &&& distance == distances[index as int]
                &&& distances.len() == 1 || first_least(distances@, index as int)
            },
            Err(SceneError::Empty) => distances.len() == 0,
            Err(SceneError::NotANumber) => distances.len() >= 2 && some_nan(distances@),
        },
        distances.len() == 1 || (distances.len() >= 2 && !some_nan(distances@)) ==> r is Ok,
{
    let n = distances.len();
    if n == 0 {
        return Err(SceneError::Empty);
    }
    if n == 1 {
        return Ok((0, distances[0]));
    }
    if distances[0].is_nan() {
        return Err(SceneError::NotANumber);
    }
    let mut best: usize = 0;
    let mut i: usize = 1;
    while i < n
        invariant
            n == distances.len(),
            1 <= i <= n,
            0 <= best < i,
            forall|j: int| 0 <= j < i ==> !(#[trigger] distances[j]@ is Nan),
            forall|j: int| 0 <= j < best ==> distances[best as int]@.lt(#[trigger] distances[j]@),
            forall|j: int| best <= j < i ==> distances[best as int]@.le(#[trigger] distances[j]@),
        decreases n - i,
    {
        let candidate = distances[i];
        if candidate.is_nan() {
            return Err(SceneError::NotANumber);
        }
        if candidate.lt(distances[best]) {
            proof {
                let low = distances[i as int];
                let old_best = distances[best as int];
                assert forall|j: int| 0 <= j < i implies low@.lt(#[trigger] distances[j]@) by {
                    Value::lemma_lt_transitive(low@, old_best@, distances[j]@);
                }
            }
            best = i;
        } else {
            proof {
                Value::lemma_trichotomy(distances[best as int]@, candidate@);
            }
        }
        i = i + 1;
    }
    Ok((best, distances[best]))
}

} // verus!
