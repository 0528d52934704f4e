//! Goals: what a planner is asked to reach.

use vstd::prelude::*;
use rand::rngs::StdRng;
use crate::base::error::StateSamplingError;
use crate::base::measure::Length;
use crate::base::state::{ModelOf, State};

verus! {

/// A set of states to reach.
///
/// Goals are given by their implementations, and the planners are proved
/// against the contracts stated here alone: whether a state satisfies the
/// goal, and how far it is from it, are functions of the point that the
/// state stands for; a state at distance zero satisfies the goal; and a
/// state that the goal samples satisfies it.
pub trait Goal<S: State> {
    /// Whether a point belongs to the goal.
    spec fn spec_is_satisfied(&self, state: ModelOf<S>) -> bool;

    /// Tests a state against the goal.
    fn is_satisfied(&self, state: &S) -> (reached: bool)
        ensures
            reached == self.spec_is_satisfied(state@),
    ;
}

/// A goal that can say how far a state is from it.
pub trait GoalRegion<S: State>: Goal<S> {
    /// The distance from a point to the goal.
    spec fn spec_distance_goal(&self, state: ModelOf<S>) -> Length;

    /// Measures the distance from a state to the goal.
    fn distance_goal(&self, state: &S) -> (d: Length)
        ensures
            d == self.spec_distance_goal(state@),
            d == 0 ==> self.spec_is_satisfied(state@),
    ;
}

/// A goal region that can produce states of its own.
pub trait GoalSampleableRegion<S: State>: GoalRegion<S> {
    /// Draws a state of the goal, or fails where none can be had.
    fn sample_goal(&self, rng: &mut StdRng) -> (sample: Result<S, StateSamplingError>)
        ensures
            sample matches Ok(s) ==> self.spec_is_satisfied(s@),
    ;
}

} // verus!
