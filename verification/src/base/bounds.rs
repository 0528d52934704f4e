//! Bounds as they arrive from callers: flat lists of limits.

use vstd::prelude::*;
use crate::base::error::StateSpaceError;
use crate::base::scalar::Scalar;
use crate::base::states::so3_state::SO3State;

verus! {

/// The limits of one dimension.
#[derive(Clone, Copy, Debug, PartialEq, Eq, Structural)]
pub struct Bound {
    pub min: Scalar,
    pub max: Scalar,
}

/// The limits that a flat list gives: lower and upper limit in turn, one
/// pair for each dimension.
pub open spec fn spec_pair_bounds(flat: Seq<Scalar>) -> Seq<Bound> {
    Seq::new(
        (flat.len() / 2) as nat,
        |i: int| Bound { min: flat[2 * i], max: flat[2 * i + 1] },
    )
}

/// Pairs up a flat list of limits for a space of `dimension` dimensions. The
/// list must hold two limits for each dimension.
pub fn pair_bounds(dimension: usize, flat: &Vec<Scalar>) -> (bounds: Result<
    Vec<Bound>,
    StateSpaceError,
>)
    ensures
        match bounds {
            Ok(b) => flat@.len() == 2 * dimension && b@ == spec_pair_bounds(flat@),
            Err(e) => flat@.len() != 2 * dimension && e == StateSpaceError::InvalidDimension,
        },
{
    if flat.len() % 2 != 0 || flat.len() / 2 != dimension {
        return Err(StateSpaceError::InvalidDimension);
    }
    let mut bounds: Vec<Bound> = Vec::new();
    let size: usize = flat.len();
    let mut i: usize = 0;
    while i < dimension
        invariant
            i <= dimension,
            size == flat@.len(),
            flat@.len() == 2 * dimension,
            bounds@.len() == i,
            forall|j: int|
                0 <= j < i ==> #[trigger] bounds@[j] == (Bound {
                    min: flat@[2 * j],
                    max: flat@[2 * j + 1],
                }),
        decreases dimension - i,
    {
        bounds.push(Bound { min: flat[2 * i], max: flat[2 * i + 1] });
        i = i + 1;
    }
    assert(bounds@ =~= spec_pair_bounds(flat@));
    Ok(bounds)
}

/// The region that rotations are kept to: those within `max_angle` of `centre`.
#[derive(Clone, Copy, Debug, PartialEq, Eq, Structural)]
pub struct RotationBound {
    pub centre: SO3State,
    pub max_angle: Scalar,
}

/// A rotation bound applies only where both its centre and its angle are given.
pub fn rotation_bound(centre: Option<SO3State>, max_angle: Option<Scalar>) -> (bound: Option<
    RotationBound,
>)
    ensures
        bound == match (centre, max_angle) {
            (Some(c), Some(a)) => Some(RotationBound { centre: c, max_angle: a }),
            _ => None::<RotationBound>,
        },
{
    match (centre, max_angle) {
        (Some(c), Some(a)) => Some(RotationBound { centre: c, max_angle: a }),
        _ => None,
    }
}

} // verus!
