//! The space of poses in space: positions joined with rotations.

use vstd::prelude::*;
use rand::rngs::StdRng;
use crate::base::error::StateSamplingError;
use crate::base::measure::{fraction_of, spec_fraction_of, Fraction, Length, Weight};
use crate::base::space::StateSpace;
use crate::base::states::real_vector_state::RealVectorState;
use crate::base::spaces::se2_state_space::{
    at_least_one, joint_distance, spec_at_least_one, spec_joint_distance,
};
use crate::base::states::se3_state::{SE3Model, SE3State};
use crate::base::states::so3_state::SO3State;

verus! {

/// The space of poses in space, made of a space of positions and a space of
/// rotations. Bounds are those of the two parts, and so are
/// sampling and interpolation; the distance is the length of the vector of
/// the two parts' distances, multiplied by the space's weight.
#[verifier::reject_recursive_types(RV)]
#[verifier::reject_recursive_types(R)]
pub struct SE3StateSpace<
    RV: StateSpace<StateType = RealVectorState>,
    R: StateSpace<StateType = SO3State>,
> {
    pub weight: Weight,
    pub translation: RV,
    pub rotation: R,
    /// The part of the space's extent that a motion may cover unchecked.
    pub segment_fraction: Fraction,
}

impl<
    RV: StateSpace<StateType = RealVectorState>,
    R: StateSpace<StateType = SO3State>,
> SE3StateSpace<RV, R> {
    pub fn new(weight: Weight, translation: RV, rotation: R) -> (space: Self)
        ensures
            space.weight == weight,
            space.translation == translation,
            space.rotation == rotation,
            space.segment_fraction == (Fraction { numerator: 1, denominator: 100 }),
    {
        SE3StateSpace { weight, translation, rotation, segment_fraction: Fraction::hundredth() }
    }

    /// Sets the part of the space's extent that a motion may cover
    /// unchecked.
    pub fn set_longest_valid_segment_fraction(&mut self, fraction: Fraction)
        requires
            fraction.wf(),
            fraction.numerator > 0,
        ensures
            final(self).segment_fraction == fraction,
            final(self).weight == old(self).weight,
            final(self).translation == old(self).translation,
            final(self).rotation == old(self).rotation,
    {
        self.segment_fraction = fraction;
    }
}

/// The distance between two poses: the length of the vector of the distance
/// between their positions and the distance between their rotations,
/// multiplied by the weight of the space.
pub open spec fn se3_distance<
    RV: StateSpace<StateType = RealVectorState>,
    R: StateSpace<StateType = SO3State>,
>(space: SE3StateSpace<RV, R>, a: SE3Model, b: SE3Model) -> Length {
    spec_joint_distance(
        space.weight,
        space.translation.spec_distance(a.translation, b.translation),
        space.rotation.spec_distance(a.rotation, b.rotation),
    )
}

/// The pose between two poses: the position between their positions, with
/// the rotation between their rotations.
pub open spec fn se3_interpolate<
    RV: StateSpace<StateType = RealVectorState>,
    R: StateSpace<StateType = SO3State>,
>(space: SE3StateSpace<RV, R>, from: SE3Model, to: SE3Model, t: Fraction) -> SE3Model {
    SE3Model {
        translation: space.translation.spec_interpolate(from.translation, to.translation, t),
        rotation: space.rotation.spec_interpolate(from.rotation, to.rotation, t),
    }
}

/// A pose is within the bounds when its position and its rotation are.
pub open spec fn se3_satisfies_bounds<
    RV: StateSpace<StateType = RealVectorState>,
    R: StateSpace<StateType = SO3State>,
>(space: SE3StateSpace<RV, R>, state: SE3Model) -> bool {
    space.translation.spec_satisfies_bounds(state.translation)
        && space.rotation.spec_satisfies_bounds(state.rotation)
}

/// Enforcing the bounds on a pose enforces them on its position and on its
/// rotation.
pub open spec fn se3_enforce_bounds<
    RV: StateSpace<StateType = RealVectorState>,
    R: StateSpace<StateType = SO3State>,
>(space: SE3StateSpace<RV, R>, state: SE3Model) -> SE3Model {
    SE3Model {
        translation: space.translation.spec_enforce_bounds(state.translation),
        rotation: space.rotation.spec_enforce_bounds(state.rotation),
    }
}

/// The greatest distance between two poses: the two parts' extents put
/// together as distances are.
pub open spec fn se3_maximum_extent<
    RV: StateSpace<StateType = RealVectorState>,
    R: StateSpace<StateType = SO3State>,
>(space: SE3StateSpace<RV, R>) -> Length {
    spec_joint_distance(
        space.weight,
        space.translation.spec_maximum_extent(),
        space.rotation.spec_maximum_extent(),
    )
}

/// The longest valid segment of a space of poses: the space's part of its
/// extent, and at least one unit.
pub open spec fn se3_longest_valid_segment_length<
    RV: StateSpace<StateType = RealVectorState>,
    R: StateSpace<StateType = SO3State>,
>(space: SE3StateSpace<RV, R>) -> Length {
    spec_at_least_one(spec_fraction_of(se3_maximum_extent(space), space.segment_fraction))
}

impl<
    RV: StateSpace<StateType = RealVectorState>,
    R: StateSpace<StateType = SO3State>,
> StateSpace for SE3StateSpace<RV, R> {
    type StateType = SE3State;

    open spec fn spec_distance(&self, a: SE3Model, b: SE3Model) -> Length {
        se3_distance(*self, a, b)
    }

    open spec fn spec_interpolate(&self, from: SE3Model, to: SE3Model, t: Fraction) -> SE3Model {
        se3_interpolate(*self, from, to, t)
    }

    open spec fn spec_satisfies_bounds(&self, state: SE3Model) -> bool {
        se3_satisfies_bounds(*self, state)
    }

    open spec fn spec_enforce_bounds(&self, state: SE3Model) -> SE3Model {
        se3_enforce_bounds(*self, state)
    }

    open spec fn spec_maximum_extent(&self) -> Length {
        se3_maximum_extent(*self)
    }

    open spec fn spec_longest_valid_segment_length(&self) -> Length {
        se3_longest_valid_segment_length(*self)
    }

    proof fn lemma_distance_is_symmetric(&self, a: SE3Model, b: SE3Model) {
        self.translation.lemma_distance_is_symmetric(a.translation, b.translation);
        self.rotation.lemma_distance_is_symmetric(a.rotation, b.rotation);
    }

    fn distance(&self, a: &SE3State, b: &SE3State) -> (d: Length) {
        let shift: Length = self.translation.distance(&a.translation, &b.translation);
        let turn: Length = self.rotation.distance(&a.rotation, &b.rotation);
        joint_distance(&self.weight, shift, turn)
    }

    fn interpolate(&self, from: &SE3State, to: &SE3State, t: Fraction, out: &mut SE3State) {
        self.translation.interpolate(&from.translation, &to.translation, t, &mut out.translation);
        self.rotation.interpolate(&from.rotation, &to.rotation, t, &mut out.rotation);
    }

    fn satisfies_bounds(&self, state: &SE3State) -> (inside: bool) {
        self.translation.satisfies_bounds(&state.translation) && self.rotation.satisfies_bounds(
            &state.rotation,
        )
    }

    fn enforce_bounds(&self, state: &mut SE3State) {
        self.translation.enforce_bounds(&mut state.translation);
        self.rotation.enforce_bounds(&mut state.rotation);
    }

    fn sample_uniform(&self, rng: &mut StdRng) -> (sample: Result<SE3State, StateSamplingError>) {
        let translation = match self.translation.sample_uniform(rng) {
            Ok(t) => t,
            Err(e) => {
                return Err(e);
            },
        };
        let rotation = match self.rotation.sample_uniform(rng) {
            Ok(r) => r,
            Err(e) => {
                return Err(e);
            },
        };
        Ok(SE3State { translation, rotation })
    }

    fn get_maximum_extent(&self) -> (extent: Length) {
        let shift: Length = self.translation.get_maximum_extent();
        let turn: Length = self.rotation.get_maximum_extent();
        joint_distance(&self.weight, shift, turn)
    }

    fn get_longest_valid_segment_length(&self) -> (longest: Length) {
        at_least_one(fraction_of(self.get_maximum_extent(), self.segment_fraction))
    }
}

/// Where interpolation in both parts starts at the one state and ends at the
/// other, so does the interpolation of poses.
pub proof fn lemma_se3_interpolation_ends<
    RV: StateSpace<StateType = RealVectorState>,
    R: StateSpace<StateType = SO3State>,
>(space: &SE3StateSpace<RV, R>, a: SE3Model, b: SE3Model, zero: Fraction, one: Fraction)
    requires
        space.translation.spec_interpolate(a.translation, b.translation, zero) == a.translation,
        space.rotation.spec_interpolate(a.rotation, b.rotation, zero) == a.rotation,
        space.translation.spec_interpolate(a.translation, b.translation, one) == b.translation,
        space.rotation.spec_interpolate(a.rotation, b.rotation, one) == b.rotation,
    ensures
        space.spec_interpolate(a, b, zero) == a,
        space.spec_interpolate(a, b, one) == b,
{
}

/// Enforcing the bounds of a space of poses yields a pose within them, and
/// enforcing them again changes nothing.
pub proof fn lemma_se3_enforcing_bounds_settles<
    RV: StateSpace<StateType = RealVectorState>,
    R: StateSpace<StateType = SO3State>,
>(space: &SE3StateSpace<RV, R>, state: SE3Model)
    requires
        space.translation.spec_satisfies_bounds(
            space.translation.spec_enforce_bounds(state.translation),
        ),
        space.rotation.spec_satisfies_bounds(space.rotation.spec_enforce_bounds(state.rotation)),
        space.translation.spec_enforce_bounds(
            space.translation.spec_enforce_bounds(state.translation),
        ) == space.translation.spec_enforce_bounds(state.translation),
        space.rotation.spec_enforce_bounds(space.rotation.spec_enforce_bounds(state.rotation))
            == space.rotation.spec_enforce_bounds(state.rotation),
    ensures
        space.spec_satisfies_bounds(space.spec_enforce_bounds(state)),
        space.spec_enforce_bounds(space.spec_enforce_bounds(state)) == space.spec_enforce_bounds(
            state,
        ),
{
}

} // verus!
