//! The state-space abstraction.

use vstd::prelude::*;
use rand::rngs::StdRng;
use crate::base::error::StateSamplingError;
use crate::base::measure::{Fraction, Length};
use crate::base::state::{ModelOf, State};

verus! {

/// A configuration space: it owns the meaning of distance, bounds,
/// interpolation and sampling for one family of states.
///
/// The geometry of a space is given by its implementation, and the planners
/// are proved against the contract stated here alone. It asks that distance,
/// interpolation and the bounds test are functions of the points they are
/// given, that the distance between two points is the same in both
/// directions, that interpolation starts at the one point and ends at the
/// other,
/// that enforcing the bounds yields a point within them and leaves such a
/// point as it is, that a sampled state lies within the bounds, and that the
/// longest valid segment is longer than nothing. An implementation
/// that breaks the contract voids what the planners promise.
pub trait StateSpace {
    type StateType: State;

    /// The distance between two points, in units of the space's resolution.
    spec fn spec_distance(
        &self,
        a: ModelOf<Self::StateType>,
        b: ModelOf<Self::StateType>,
    ) -> Length;

    /// The point at fraction `t` of the way from `from` to `to`.
    spec fn spec_interpolate(
        &self,
        from: ModelOf<Self::StateType>,
        to: ModelOf<Self::StateType>,
        t: Fraction,
    ) -> ModelOf<Self::StateType>;

    /// Whether a point lies within the space's bounds.
    spec fn spec_satisfies_bounds(&self, state: ModelOf<Self::StateType>) -> bool;

    /// The point that a point is moved to when the bounds are enforced.
    spec fn spec_enforce_bounds(&self, state: ModelOf<Self::StateType>) -> ModelOf<
        Self::StateType,
    >;

    /// The extent of the space: the length that the space gives as the
    /// greatest between two points within its bounds.
    spec fn spec_maximum_extent(&self) -> Length;

    /// The longest piece of a motion that may go unchecked.
    spec fn spec_longest_valid_segment_length(&self) -> Length;

    /// The distance from one point to another is the distance back. A space
    /// that is not proved along with the library states this without proof.
    proof fn lemma_distance_is_symmetric(
        &self,
        a: ModelOf<Self::StateType>,
        b: ModelOf<Self::StateType>,
    )
        ensures
            self.spec_distance(a, b) == self.spec_distance(b, a),
    ;

    /// Measures the distance between two states.
    fn distance(&self, a: &Self::StateType, b: &Self::StateType) -> (d: Length)
        ensures
            d == self.spec_distance(a@, b@),
    ;

    /// Writes to `out` the state at fraction `t` of the way from `from` to
    /// `to`: `from` itself at nothing of the way, `to` itself at all of it.
    fn interpolate(
        &self,
        from: &Self::StateType,
        to: &Self::StateType,
        t: Fraction,
        out: &mut Self::StateType,
    )
        requires
            t.wf(),
        ensures
            final(out)@ == self.spec_interpolate(from@, to@, t),
            t.numerator == 0 ==> final(out)@ == from@,
            t.numerator == t.denominator ==> final(out)@ == to@,
    ;

    /// Tests a state against the bounds.
    fn satisfies_bounds(&self, state: &Self::StateType) -> (inside: bool)
        ensures
            inside == self.spec_satisfies_bounds(state@),
    ;

    /// Moves a state into the bounds. Doing so again changes nothing.
    fn enforce_bounds(&self, state: &mut Self::StateType)
        ensures
            final(state)@ == self.spec_enforce_bounds(old(state)@),
            self.spec_satisfies_bounds(final(state)@),
            self.spec_enforce_bounds(final(state)@) == final(state)@,
    ;

    /// Draws a state within the bounds, or fails where the space cannot be
    /// sampled.
    fn sample_uniform(&self, rng: &mut StdRng) -> (sample: Result<
        Self::StateType,
        StateSamplingError,
    >)
        ensures
            sample matches Ok(s) ==> self.spec_satisfies_bounds(s@),
    ;

    /// The extent of the space, of which the longest valid segment is a
    /// part.
    fn get_maximum_extent(&self) -> (extent: Length)
        ensures
            extent == self.spec_maximum_extent(),
    ;

    /// The longest piece of a motion that may go unchecked: motions are cut
    /// into pieces no longer than this, and the ends of the pieces checked.
    fn get_longest_valid_segment_length(&self) -> (longest: Length)
        ensures
            longest == self.spec_longest_valid_segment_length(),
            longest > 0,
    ;
}

} // verus!
