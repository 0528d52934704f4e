//! The space of poses in the plane: positions joined with headings.

use vstd::prelude::*;
use rand::rngs::StdRng;
use crate::base::error::StateSamplingError;
use crate::base::measure::{
    cap, fraction_of, is_sqrt, lemma_sqrt_is_unique, norm, spec_cap, spec_fraction_of, spec_isqrt,
    spec_norm, sum_of_squares, Fraction, Length, Weight,
};
use crate::base::space::StateSpace;
use crate::base::states::real_vector_state::RealVectorState;
use crate::base::states::se2_state::{SE2Model, SE2State};
use crate::base::states::so2_state::SO2State;

verus! {

/// The distance between two states of a space of two parts, given the
/// distances `first` and `second` between their parts: the length of the
/// vector of the two, multiplied by the weight of the space.
pub open spec fn spec_joint_distance(weight: Weight, first: Length, second: Length) -> Length {
    spec_cap(weight.spec_apply(spec_norm(seq![first as nat, second as nat]) as nat))
}

/// Two states whose parts are no distance apart are no distance apart,
/// whatever the weight.
pub proof fn lemma_joint_distance_of_nothing(weight: Weight)
    ensures
        spec_joint_distance(weight, 0, 0) == 0,
{
    let terms = seq![0nat, 0nat];
    let one = terms.drop_last();
    let none = one.drop_last();
    assert(none.len() == 0);
    assert(sum_of_squares(none) == 0);
    assert(one.last() == 0);
    assert(sum_of_squares(one) == sum_of_squares(none) + one.last() * one.last());
    assert(terms.last() == 0);
    assert(sum_of_squares(terms) == sum_of_squares(one) + terms.last() * terms.last());
    assert(sum_of_squares(terms) == 0);
    assert(0nat * 0nat <= 0nat < (0nat + 1) * (0nat + 1)) by (nonlinear_arith);
    assert(is_sqrt(0, 0));
    assert(is_sqrt(0, spec_isqrt(0)));
    lemma_sqrt_is_unique(0, spec_isqrt(0), 0);
    assert(weight.spec_apply(0) == 0);
}

/// Puts the distances between the parts of two states together.
pub fn joint_distance(weight: &Weight, first: Length, second: Length) -> (d: Length)
    ensures
        d == spec_joint_distance(*weight, first, second),
{
    let mut terms: Vec<u128> = Vec::new();
    terms.push(first as u128);
    terms.push(second as u128);
    proof {
        assert(terms@.map_values(|t: u128| t as nat) =~= seq![first as nat, second as nat]);
    }
    cap(weight.apply(norm(&terms)))
}

/// A length that is at least the first unit.
pub open spec fn spec_at_least_one(length: Length) -> Length {
    if length == 0 {
        1
    } else {
        length
    }
}

/// Raises a length of nothing to the first unit.
pub fn at_least_one(length: Length) -> (raised: Length)
    ensures
        raised == spec_at_least_one(length),
        raised > 0,
{
    if length == 0 {
        1
    } else {
        length
    }
}

/// The space of poses in the plane, made of a space of positions and a
/// space of headings. Bounds are those of the two parts, and so are
/// sampling and interpolation; the distance is the length of the vector of
/// the two parts' distances, multiplied by the space's weight.
#[verifier::reject_recursive_types(RV)]
#[verifier::reject_recursive_types(C)]
pub struct SE2StateSpace<
    RV: StateSpace<StateType = RealVectorState>,
    C: StateSpace<StateType = SO2State>,
> {
    pub weight: Weight,
    pub translation: RV,
    pub rotation: C,
    /// The part of the space's extent that a motion may cover unchecked.
    pub segment_fraction: Fraction,
}

impl<
    RV: StateSpace<StateType = RealVectorState>,
    C: StateSpace<StateType = SO2State>,
> SE2StateSpace<RV, C> {
    pub fn new(weight: Weight, translation: RV, rotation: C) -> (space: Self)
        ensures
            space.weight == weight,
            space.translation == translation,
            space.rotation == rotation,
            space.segment_fraction == (Fraction { numerator: 1, denominator: 100 }),
    {
        SE2StateSpace { weight, translation, rotation, segment_fraction: Fraction::hundredth() }
    }

    /// Sets the part of the space's extent that a motion may cover
    /// unchecked.
    pub fn set_longest_valid_segment_fraction(&mut self, fraction: Fraction)
        requires
            fraction.wf(),
            fraction.numerator > 0,
        ensures
            final(self).segment_fraction == fraction,
            final(self).weight == old(self).weight,
            final(self).translation == old(self).translation,
            final(self).rotation == old(self).rotation,
    {
        self.segment_fraction = fraction;
    }
}

/// The distance between two poses: the length of the vector of the distance
/// between their positions and the distance between their headings,
/// multiplied by the weight of the space.
pub open spec fn se2_distance<
    RV: StateSpace<StateType = RealVectorState>,
    C: StateSpace<StateType = SO2State>,
>(space: SE2StateSpace<RV, C>, a: SE2Model, b: SE2Model) -> Length {
    spec_joint_distance(
        space.weight,
        space.translation.spec_distance(a.translation, b.translation),
        space.rotation.spec_distance(a.rotation, b.rotation),
    )
}

/// The pose between two poses: the position between their positions, with
/// the heading between their headings.
pub open spec fn se2_interpolate<
    RV: StateSpace<StateType = RealVectorState>,
    C: StateSpace<StateType = SO2State>,
>(space: SE2StateSpace<RV, C>, from: SE2Model, to: SE2Model, t: Fraction) -> SE2Model {
    SE2Model {
        translation: space.translation.spec_interpolate(from.translation, to.translation, t),
        rotation: space.rotation.spec_interpolate(from.rotation, to.rotation, t),
    }
}

/// A pose is within the bounds when its position and its heading are.
pub open spec fn se2_satisfies_bounds<
    RV: StateSpace<StateType = RealVectorState>,
    C: StateSpace<StateType = SO2State>,
>(space: SE2StateSpace<RV, C>, state: SE2Model) -> bool {
    space.translation.spec_satisfies_bounds(state.translation)
        && space.rotation.spec_satisfies_bounds(state.rotation)
}

/// Enforcing the bounds on a pose enforces them on its position and on its
/// heading.
pub open spec fn se2_enforce_bounds<
    RV: StateSpace<StateType = RealVectorState>,
    C: StateSpace<StateType = SO2State>,
>(space: SE2StateSpace<RV, C>, state: SE2Model) -> SE2Model {
    SE2Model {
        translation: space.translation.spec_enforce_bounds(state.translation),
        rotation: space.rotation.spec_enforce_bounds(state.rotation),
    }
}

/// The greatest distance between two poses: the two parts' extents put
/// together as distances are.
pub open spec fn se2_maximum_extent<
    RV: StateSpace<StateType = RealVectorState>,
    C: StateSpace<StateType = SO2State>,
>(space: SE2StateSpace<RV, C>) -> Length {
    spec_joint_distance(
        space.weight,
        space.translation.spec_maximum_extent(),
        space.rotation.spec_maximum_extent(),
    )
}

/// The longest valid segment of a space of poses: the space's part of its
/// extent, and at least one unit.
pub open spec fn se2_longest_valid_segment_length<
    RV: StateSpace<StateType = RealVectorState>,
    C: StateSpace<StateType = SO2State>,
>(space: SE2StateSpace<RV, C>) -> Length {
    spec_at_least_one(spec_fraction_of(se2_maximum_extent(space), space.segment_fraction))
}

impl<
    RV: StateSpace<StateType = RealVectorState>,
    C: StateSpace<StateType = SO2State>,
> StateSpace for SE2StateSpace<RV, C> {
    type StateType = SE2State;

    open spec fn spec_distance(&self, a: SE2Model, b: SE2Model) -> Length {
        se2_distance(*self, a, b)
    }

    open spec fn spec_interpolate(&self, from: SE2Model, to: SE2Model, t: Fraction) -> SE2Model {
        se2_interpolate(*self, from, to, t)
    }

    open spec fn spec_satisfies_bounds(&self, state: SE2Model) -> bool {
        se2_satisfies_bounds(*self, state)
    }

    open spec fn spec_enforce_bounds(&self, state: SE2Model) -> SE2Model {
        se2_enforce_bounds(*self, state)
    }

    open spec fn spec_maximum_extent(&self) -> Length {
        se2_maximum_extent(*self)
    }

    open spec fn spec_longest_valid_segment_length(&self) -> Length {
        se2_longest_valid_segment_length(*self)
    }

    proof fn lemma_distance_is_symmetric(&self, a: SE2Model, b: SE2Model) {
        self.translation.lemma_distance_is_symmetric(a.translation, b.translation);
        self.rotation.lemma_distance_is_symmetric(a.rotation, b.rotation);
    }

    fn distance(&self, a: &SE2State, b: &SE2State) -> (d: Length) {
        let shift: Length = self.translation.distance(&a.translation, &b.translation);
        let turn: Length = self.rotation.distance(&a.rotation, &b.rotation);
        joint_distance(&self.weight, shift, turn)
    }

    fn interpolate(&self, from: &SE2State, to: &SE2State, t: Fraction, out: &mut SE2State) {
        self.translation.interpolate(&from.translation, &to.translation, t, &mut out.translation);
        self.rotation.interpolate(&from.rotation, &to.rotation, t, &mut out.rotation);
    }

    fn satisfies_bounds(&self, state: &SE2State) -> (inside: bool) {
        self.translation.satisfies_bounds(&state.translation) && self.rotation.satisfies_bounds(
            &state.rotation,
        )
    }

    fn enforce_bounds(&self, state: &mut SE2State) {
        self.translation.enforce_bounds(&mut state.translation);
        self.rotation.enforce_bounds(&mut state.rotation);
    }

    fn sample_uniform(&self, rng: &mut StdRng) -> (sample: Result<SE2State, StateSamplingError>) {
        let translation = match self.translation.sample_uniform(rng) {
            Ok(t) => t,
            Err(e) => {
                return Err(e);
            },
        };
        let rotation = match self.rotation.sample_uniform(rng) {
            Ok(r) => r,
            Err(e) => {
                return Err(e);
            },
        };
        Ok(SE2State { translation, rotation })
    }

    fn get_maximum_extent(&self) -> (extent: Length) {
        let shift: Length = self.translation.get_maximum_extent();
        let turn: Length = self.rotation.get_maximum_extent();
        joint_distance(&self.weight, shift, turn)
    }

    fn get_longest_valid_segment_length(&self) -> (longest: Length) {
        at_least_one(fraction_of(self.get_maximum_extent(), self.segment_fraction))
    }
}

/// Where interpolation in both parts starts at the one state and ends at the
/// other, so does the interpolation of poses.
pub proof fn lemma_se2_interpolation_ends<
    RV: StateSpace<StateType = RealVectorState>,
    C: StateSpace<StateType = SO2State>,
>(space: &SE2StateSpace<RV, C>, a: SE2Model, b: SE2Model, zero: Fraction, one: Fraction)
    requires
        space.translation.spec_interpolate(a.translation, b.translation, zero) == a.translation,
        space.rotation.spec_interpolate(a.rotation, b.rotation, zero) == a.rotation,
        space.translation.spec_interpolate(a.translation, b.translation, one) == b.translation,
        space.rotation.spec_interpolate(a.rotation, b.rotation, one) == b.rotation,
    ensures
        space.spec_interpolate(a, b, zero) == a,
        space.spec_interpolate(a, b, one) == b,
{
}

/// Enforcing the bounds of a space of poses yields a pose within them, and
/// enforcing them again changes nothing.
pub proof fn lemma_se2_enforcing_bounds_settles<
    RV: StateSpace<StateType = RealVectorState>,
    C: StateSpace<StateType = SO2State>,
>(space: &SE2StateSpace<RV, C>, state: SE2Model)
    requires
        space.translation.spec_satisfies_bounds(
            space.translation.spec_enforce_bounds(state.translation),
        ),
        space.rotation.spec_satisfies_bounds(space.rotation.spec_enforce_bounds(state.rotation)),
        space.translation.spec_enforce_bounds(
            space.translation.spec_enforce_bounds(state.translation),
        ) == space.translation.spec_enforce_bounds(state.translation),
        space.rotation.spec_enforce_bounds(space.rotation.spec_enforce_bounds(state.rotation))
            == space.rotation.spec_enforce_bounds(state.rotation),
    ensures
        space.spec_satisfies_bounds(space.spec_enforce_bounds(state)),
        space.spec_enforce_bounds(space.spec_enforce_bounds(state)) == space.spec_enforce_bounds(
            state,
        ),
{
}

} // verus!
