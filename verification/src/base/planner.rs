//! What all planners share.

use vstd::prelude::*;
use std::sync::Arc;
use std::time::Duration;
use crate::base::error::PlanningError;
use crate::base::goal::Goal;
use crate::base::problem_definition::ProblemDefinition;
use crate::base::space::StateSpace;
use crate::base::state::{ModelOf, State};
use crate::base::validity::StateValidityChecker;
use crate::geometric::motion::{lemma_motion_is_valid_both_ways, motion_valid, same_way_back};

verus! {

/// A sequence of states leading from a start to a goal.
pub struct Path<S: State>(pub Vec<S>);

impl<S: State> Path<S> {
    /// The points that the path visits, in order.
    pub open spec fn models(&self) -> Seq<ModelOf<S>> {
        Seq::new(self.0@.len(), |k: int| self.0@[k]@)
    }

    /// The number of states on the path.
    pub fn len(&self) -> (n: usize)
        ensures
            n == self.models().len(),
    {
        self.0.len()
    }
}

/// Settings common to all planners.
#[derive(Clone, Copy, Debug)]
pub struct PlannerConfig {
    /// The seed of the planner's random stream; `None` asks for a fresh one.
    pub seed: Option<u64>,
}

/// The length of a path: the sum of the distances from each of its points to
/// the next.
pub open spec fn path_length<SP: StateSpace>(space: &SP, path: Seq<ModelOf<SP::StateType>>) -> nat
    decreases path.len(),
{
    if path.len() <= 1 {
        0
    } else {
        path_length(space, path.drop_last()) + space.spec_distance(
            path[path.len() - 2],
            path.last(),
        ) as nat
    }
}

/// What every planner promises of a path it returns: it starts at the start
/// state, ends in the goal, visits only valid states, and each of its motions
/// is valid in at least one direction.
pub open spec fn is_solution<
    S: State,
    SP: StateSpace<StateType = S>,
    G: Goal<S>,
    VC: StateValidityChecker<S>,
>(pd: &ProblemDefinition<S, SP, G>, checker: &VC, path: Seq<ModelOf<S>>) -> bool {
    &&& path.len() >= 1
    &&& pd.start_states@.len() > 0
    &&& path[0] == pd.spec_start()
    &&& pd.goal.spec_is_satisfied(path.last())
    &&& forall|k: int| 0 <= k < path.len() ==> checker.spec_is_valid(#[trigger] path[k])
    &&& forall|k: int|
        0 <= k < path.len() - 1 ==> {
            ||| motion_valid(&*pd.space, checker, #[trigger] path[k], path[k + 1])
            ||| motion_valid(&*pd.space, checker, path[k + 1], path[k])
        }
}

/// A solution whose motions are all valid in the direction of travel.
pub open spec fn is_directed_solution<
    S: State,
    SP: StateSpace<StateType = S>,
    G: Goal<S>,
    VC: StateValidityChecker<S>,
>(pd: &ProblemDefinition<S, SP, G>, checker: &VC, path: Seq<ModelOf<S>>) -> bool {
    &&& path.len() >= 1
    &&& pd.start_states@.len() > 0
    &&& path[0] == pd.spec_start()
    &&& pd.goal.spec_is_satisfied(path.last())
    &&& forall|k: int| 0 <= k < path.len() ==> checker.spec_is_valid(#[trigger] path[k])
    &&& forall|k: int|
        0 <= k < path.len() - 1 ==> motion_valid(
            &*pd.space,
            checker,
            #[trigger] path[k],
            path[k + 1],
        )
}

/// A solution is valid in the direction of travel at every step, where the
/// way from each of its points to the next passes the points of the way from
/// the next to it.
pub proof fn lemma_solution_is_directed<
    S: State,
    SP: StateSpace<StateType = S>,
    G: Goal<S>,
    VC: StateValidityChecker<S>,
>(pd: &ProblemDefinition<S, SP, G>, checker: &VC, path: Seq<ModelOf<S>>)
    requires
        is_solution(pd, checker, path),
        forall|k: int|
            0 <= k < path.len() - 1 ==> same_way_back(&*pd.space, path[k + 1], #[trigger] path[k]),
    ensures
        is_directed_solution(pd, checker, path),
{
    assert forall|k: int| 0 <= k < path.len() - 1 implies motion_valid(
        &*pd.space,
        checker,
        #[trigger] path[k],
        path[k + 1],
    ) by {
        assert(checker.spec_is_valid(path[k + 1]));
        if !motion_valid(&*pd.space, checker, path[k], path[k + 1]) {
            lemma_motion_is_valid_both_ways(&*pd.space, checker, path[k + 1], path[k]);
        }
    }
}

/// A directed solution is a solution.
pub proof fn lemma_directed_solution_is_solution<
    S: State,
    SP: StateSpace<StateType = S>,
    G: Goal<S>,
    VC: StateValidityChecker<S>,
>(pd: &ProblemDefinition<S, SP, G>, checker: &VC, path: Seq<ModelOf<S>>)
    requires
        is_directed_solution(pd, checker, path),
    ensures
        is_solution(pd, checker, path),
{
}

/// The life cycle shared by all planners: `setup` hands over the problem and
/// forgets what was found before; `solve` searches until it has a path, runs
/// out of time, or gives up.
pub trait Planner<
    S: State,
    SP: StateSpace<StateType = S>,
    G: Goal<S>,
    VC: StateValidityChecker<S>,
>: Sized {
    /// The planner's own invariant.
    spec fn wf(&self) -> bool;

    /// The problem handed over by `setup`, if any.
    spec fn spec_problem(&self) -> Option<Arc<ProblemDefinition<S, SP, G>>>;

    /// The validity checker handed over by `setup`, if any.
    spec fn spec_checker(&self) -> Option<Arc<VC>>;

    fn setup(&mut self, problem_def: Arc<ProblemDefinition<S, SP, G>>, validity_checker: Arc<VC>)
        requires
            old(self).wf(),
        ensures
            final(self).wf(),
            final(self).spec_problem() == Some(problem_def),
            final(self).spec_checker() == Some(validity_checker),
    ;

    fn solve(&mut self, timeout: Duration) -> (result: Result<Path<S>, PlanningError>)
        requires
            old(self).wf(),
        ensures
            final(self).wf(),
            final(self).spec_problem() == old(self).spec_problem(),
            final(self).spec_checker() == old(self).spec_checker(),
            result == Err::<Path<S>, PlanningError>(PlanningError::PlannerUninitialised) <==> (old(
                self,
            ).spec_problem() is None || old(self).spec_checker() is None),
            result matches Ok(path) ==> is_solution(
                &*old(self).spec_problem()->0,
                &*old(self).spec_checker()->0,
                path.models(),
            ),
            result == Err::<Path<S>, PlanningError>(PlanningError::InvalidStartState) ==> !old(
                self,
            ).spec_problem()->0.start_ok(&*old(self).spec_checker()->0),
    ;
}

} // verus!
