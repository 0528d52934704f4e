//! Drawing the states that planners grow towards.

use vstd::prelude::*;
use rand::rngs::StdRng;
use crate::base::goal::GoalSampleableRegion;
use crate::base::random::{flip, Probability};
use crate::base::space::StateSpace;
use crate::base::state::State;

verus! {

/// Draws the next target: with chance `goal_bias` a state of the goal, else a
/// state of the space. A goal that fails to produce a state is passed over
/// and the space is sampled instead; `None` means that the space failed too.
/// With a bias of nought the goal is never asked.
pub(crate) fn draw_target<S: State, SP: StateSpace<StateType = S>, G: GoalSampleableRegion<S>>(
    space: &SP,
    goal: &G,
    rng: &mut StdRng,
    goal_bias: &Probability,
) -> (target: Option<S>)
    ensures
        target matches Some(s) ==> space.spec_satisfies_bounds(s@) || goal.spec_is_satisfied(s@),
        goal_bias.spec_numerator() == 0 ==> (target matches Some(s)
            ==> space.spec_satisfies_bounds(s@)),
{
    if flip(rng, goal_bias) {
        match goal.sample_goal(rng) {
            Ok(s) => {
                return Some(s);
            },
            Err(_) => {},
        }
    }
    match space.sample_uniform(rng) {
        Ok(s) => Some(s),
        Err(_) => None,
    }
}

} // verus!
