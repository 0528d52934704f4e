//! The bundle that a planner works on.

use vstd::prelude::*;
use std::sync::Arc;
use crate::base::goal::Goal;
use crate::base::space::StateSpace;
use crate::base::state::{ModelOf, State};
use crate::base::validity::StateValidityChecker;

verus! {

/// A planning problem: the space, where to start, and what to reach.
#[verifier::reject_recursive_types(S)]
#[verifier::reject_recursive_types(SP)]
#[verifier::reject_recursive_types(G)]
pub struct ProblemDefinition<S: State, SP: StateSpace<StateType = S>, G: Goal<S>> {
    pub space: Arc<SP>,
    pub start_states: Vec<S>,
    pub goal: Arc<G>,
}

impl<S: State, SP: StateSpace<StateType = S>, G: Goal<S>> ProblemDefinition<S, SP, G> {
    /// Bundles a problem. There must be at least one start state, and every
    /// start state must lie within the bounds of the space.
    pub fn new(space: Arc<SP>, start_states: Vec<S>, goal: Arc<G>) -> (problem: Option<Self>)
        ensures
            problem is Some <==> start_states@.len() > 0 && forall|i: int|
                0 <= i < start_states@.len() ==> space.spec_satisfies_bounds(
                    (#[trigger] start_states@[i])@,
                ),
            problem matches Some(pd) ==> pd.space == space && pd.start_states == start_states
                && pd.goal == goal,
    {
        if start_states.len() == 0 {
            return None;
        }
        let mut i: usize = 0;
        while i < start_states.len()
            invariant
                i <= start_states@.len(),
                forall|j: int|
                    0 <= j < i ==> space.spec_satisfies_bounds((#[trigger] start_states@[j])@),
            decreases start_states@.len() - i,
        {
            if !space.satisfies_bounds(&start_states[i]) {
                return None;
            }
            i = i + 1;
        }
        Some(ProblemDefinition { space, start_states, goal })
    }

    /// The state that planners start from: the first start state.
    pub open spec fn spec_start(&self) -> ModelOf<S>
        recommends
            self.start_states@.len() > 0,
    {
        self.start_states@[0]@
    }

    /// Whether planning can begin: there is a start state, it lies within the
    /// space's bounds, and the checker accepts it.
    pub open spec fn start_ok<VC: StateValidityChecker<S>>(&self, checker: &VC) -> bool {
        &&& self.start_states@.len() > 0
        &&& self.space.spec_satisfies_bounds(self.spec_start())
        &&& checker.spec_is_valid(self.spec_start())
    }

    /// Checks the start state against the bounds and the checker.
    pub fn check_start<VC: StateValidityChecker<S>>(&self, checker: &VC) -> (ok: bool)
        ensures
            ok == self.start_ok(checker),
    {
        if self.start_states.len() == 0 {
            return false;
        }
        let start = &self.start_states[0];
        self.space.satisfies_bounds(start) && checker.is_valid(start)
    }
}

} // verus!
