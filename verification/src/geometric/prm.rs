//! PRM: a roadmap of sampled states, queried for the cheapest way through.

use vstd::prelude::*;
use rand::rngs::StdRng;
use std::sync::Arc;
use std::time::Duration;
use crate::base::clock::Deadline;
use crate::base::error::PlanningError;
use crate::base::goal::GoalRegion;
use crate::base::measure::Length;
use crate::base::planner::{is_solution, Path, Planner, PlannerConfig};
use crate::base::problem_definition::ProblemDefinition;
use crate::base::random::rng_for;
use crate::base::space::StateSpace;
use crate::base::state::{DynClone, ModelOf, State};
use crate::base::validity::StateValidityChecker;
use crate::geometric::roadmap::{
    add_milestone, begins_with, find_route, joined_as_linked,
    lemma_added_milestone_is_joined_as_linked, lemma_route_stays_within_radius, lemma_route_is_connected, query_graph, reaches_goal,
    roadmap_grown_from, roadmap_sound, roadmap_undirected, route_states, spec_route_states,
    Milestone,
};
use crate::geometric::shortest_path::{hop_edge, route_cost, Hop};

verus! {

/// Whether `path` is the start followed by the milestones of a cheapest
/// route from the start to a milestone that satisfies the goal.
pub open spec fn is_cheapest_route<
    S: State,
    SP: StateSpace<StateType = S>,
    G: GoalRegion<S>,
    VC: StateValidityChecker<S>,
>(
    pd: &ProblemDefinition<S, SP, G>,
    checker: &VC,
    roadmap: Seq<Milestone<S>>,
    radius: Length,
    path: Seq<ModelOf<S>>,
) -> bool {
    let g = query_graph(&*pd.space, checker, roadmap, pd.spec_start(), radius);
    exists|hops: Seq<Hop>, stops: Seq<usize>|
        {
            &&& hops.len() >= 1
            &&& stops.len() == hops.len()
            &&& #[trigger] reaches_goal(g, &*pd.goal, roadmap, hops, stops.last() as int)
            &&& forall|k: int|
                0 <= k < hops.len() ==> #[trigger] stops[k] == hop_edge(g, hops[k]).to
            &&& path == #[trigger] spec_route_states(roadmap, pd.spec_start(), stops)
            &&& forall|r2: Seq<Hop>, t2: int| #[trigger]
                reaches_goal(g, &*pd.goal, roadmap, r2, t2) ==> route_cost(g, hops) <= route_cost(
                    g,
                    r2,
                )
        }
}

/// Whether no route leads from the start to a milestone that satisfies the goal.
pub open spec fn no_route<
    S: State,
    SP: StateSpace<StateType = S>,
    G: GoalRegion<S>,
    VC: StateValidityChecker<S>,
>(
    pd: &ProblemDefinition<S, SP, G>,
    checker: &VC,
    roadmap: Seq<Milestone<S>>,
    radius: Length,
) -> bool {
    forall|r2: Seq<Hop>, t2: int|
        !#[trigger] reaches_goal(
            query_graph(&*pd.space, checker, roadmap, pd.spec_start(), radius),
            &*pd.goal,
            roadmap,
            r2,
            t2,
        )
}

/// The roadmap planner.
#[verifier::reject_recursive_types(S)]
#[verifier::reject_recursive_types(SP)]
#[verifier::reject_recursive_types(G)]
#[verifier::reject_recursive_types(VC)]
pub struct PRM<
    S: State,
    SP: StateSpace<StateType = S>,
    G: GoalRegion<S>,
    VC: StateValidityChecker<S>,
> {
    /// The number of milestones that the roadmap is grown to.
    pub num_samples: usize,
    /// Milestones closer than this are joined.
    pub connection_radius: Length,
    problem_def: Option<Arc<ProblemDefinition<S, SP, G>>>,
    validity_checker: Option<Arc<VC>>,
    roadmap: Vec<Milestone<S>>,
    rng: StdRng,
}

/// Samples valid states into the roadmap until it holds `target` milestones.
/// Answers `false` if the deadline passes first, or after `u64::MAX` samples.
fn grow_roadmap<SP: StateSpace, VC: StateValidityChecker<SP::StateType>>(
    space: &SP,
    checker: &VC,
    roadmap: &mut Vec<Milestone<SP::StateType>>,
    rng: &mut StdRng,
    target: usize,
    radius: Length,
    deadline: &Deadline,
) -> (complete: bool)
    requires
        roadmap_sound(space, checker, old(roadmap)@),
        roadmap_undirected(old(roadmap)@),
        old(roadmap)@.len() < usize::MAX,
        target < usize::MAX,
    ensures
        roadmap_sound(space, checker, final(roadmap)@),
        roadmap_undirected(final(roadmap)@),
        final(roadmap)@.len() < usize::MAX,
        final(roadmap)@.len() >= old(roadmap)@.len(),
        roadmap_grown_from(space, final(roadmap)@, old(roadmap)@),
        joined_as_linked(space, checker, final(roadmap)@, old(roadmap)@.len() as int, radius),
        complete <==> final(roadmap)@.len() >= target,
        old(roadmap)@.len() >= target ==> complete && final(roadmap)@ == old(roadmap)@,
{
    let mut rounds: u64 = 0;
    while roadmap.len() < target
        invariant
            roadmap_sound(space, checker, roadmap@),
            roadmap_undirected(roadmap@),
            roadmap@.len() < usize::MAX,
            roadmap@.len() >= old(roadmap)@.len(),
            roadmap_grown_from(space, roadmap@, old(roadmap)@),
            joined_as_linked(space, checker, roadmap@, old(roadmap)@.len() as int, radius),
            target < usize::MAX,
            old(roadmap)@.len() >= target ==> roadmap@ == old(roadmap)@,
        decreases u64::MAX - rounds,
    {
        if deadline.expired() || rounds == u64::MAX {
            return false;
        }
        rounds = rounds + 1;
        match space.sample_uniform(rng) {
            Ok(sample) => {
                if checker.is_valid(&sample) {
                    let ghost before = roadmap@;
                    add_milestone(space, checker, roadmap, sample, radius);
                    proof {
                        lemma_added_milestone_is_joined_as_linked(
                            space,
                            checker,
                            before,
                            roadmap@,
                            old(roadmap)@.len() as int,
                            radius,
                        );
                        assert forall|i: int| 0 <= i < old(roadmap)@.len() implies (
                        #[trigger] roadmap@[i]).state == old(roadmap)@[i].state && begins_with(
                            roadmap@[i].edges@,
                            old(roadmap)@[i].edges@,
                        ) by {
                            assert(roadmap@[i].state == before[i].state);
                            assert(begins_with(before[i].edges@, old(roadmap)@[i].edges@));
                        }
                        assert forall|j: int|
                            old(roadmap)@.len() <= j < roadmap@.len() implies space.spec_satisfies_bounds(
                            (#[trigger] roadmap@[j]).state@,
                        ) by {
                            if j < before.len() {
                                assert(roadmap@[j].state == before[j].state);
                            }
                        }
                    }
                }
            },
            Err(_) => {},
        }
    }
    true
}

impl<
    S: State,
    SP: StateSpace<StateType = S>,
    G: GoalRegion<S>,
    VC: StateValidityChecker<S>,
> PRM<S, SP, G, VC> {
    /// Whether `setup` has been called.
    pub open spec fn is_setup(&self) -> bool {
        self.spec_problem() is Some && self.spec_checker() is Some
    }

    /// The milestones and their edges.
    pub closed spec fn spec_roadmap(&self) -> Seq<Milestone<S>> {
        self.roadmap@
    }

    /// The roadmap of a planner that has been set up holds valid milestones
    /// only, and every edge is recorded at both of its ends and joins two
    /// milestones between which the motion is valid in at least one direction.
    pub proof fn lemma_roadmap_is_sound(&self)
        requires
            self.wf(),
            self.is_setup(),
        ensures
            roadmap_sound(
                &*self.spec_problem()->0.space,
                &*self.spec_checker()->0,
                self.spec_roadmap(),
            ),
            roadmap_undirected(self.spec_roadmap()),
    {
    }

    pub closed spec fn spec_num_samples(&self) -> usize {
        self.num_samples
    }

    pub closed spec fn spec_connection_radius(&self) -> Length {
        self.connection_radius
    }

    /// The size that the roadmap is grown to: `num_samples`, short of the
    /// largest count that the machine can index.
    pub open spec fn spec_target_size(&self) -> int {
        if self.spec_num_samples() < usize::MAX {
            self.spec_num_samples() as int
        } else {
            usize::MAX - 1
        }
    }

    /// A planner that has not been set up.
    pub fn new(num_samples: usize, connection_radius: Length, config: &PlannerConfig) -> (planner:
        Self)
        ensures
            planner.wf(),
            !planner.is_setup(),
            planner.spec_problem() is None,
            planner.spec_checker() is None,
            planner.spec_num_samples() == num_samples,
            planner.spec_connection_radius() == connection_radius,
            planner.spec_roadmap().len() == 0,
    {
        PRM {
            num_samples,
            connection_radius,
            problem_def: None,
            validity_checker: None,
            roadmap: Vec::new(),
            rng: rng_for(config.seed),
        }
    }

    /// The number of milestones in the roadmap.
    pub fn roadmap_size(&self) -> (n: usize)
        ensures
            n == self.spec_roadmap().len(),
    {
        self.roadmap.len()
    }

    /// Grows the roadmap to `num_samples` milestones: samples states, keeps
    /// the valid ones, and joins each to the milestones less than
    /// `connection_radius` away to which the motion is valid. A roadmap left
    /// by an earlier call is grown further, not rebuilt.
    pub fn construct_roadmap(&mut self, timeout: Duration) -> (result: Result<(), PlanningError>)
        requires
            old(self).wf(),
        ensures
            final(self).wf(),
            final(self).spec_problem() == old(self).spec_problem(),
            final(self).spec_checker() == old(self).spec_checker(),
            final(self).spec_num_samples() == old(self).spec_num_samples(),
            final(self).spec_connection_radius() == old(self).spec_connection_radius(),
            final(self).spec_roadmap().len() >= old(self).spec_roadmap().len(),
            !old(self).is_setup() ==> final(self).spec_roadmap() == old(self).spec_roadmap(),
            old(self).is_setup() ==> roadmap_grown_from(
                &*old(self).spec_problem()->0.space,
                final(self).spec_roadmap(),
                old(self).spec_roadmap(),
            ),
            old(self).is_setup() ==> joined_as_linked(
                &*old(self).spec_problem()->0.space,
                &*old(self).spec_checker()->0,
                final(self).spec_roadmap(),
                old(self).spec_roadmap().len() as int,
                old(self).spec_connection_radius(),
            ),
            match result {
                Ok(_) => old(self).is_setup() && final(self).spec_roadmap().len() >= old(
                    self,
                ).spec_target_size(),
                Err(e) => if old(self).is_setup() {
                    e == PlanningError::Timeout && final(self).spec_roadmap().len() < old(
                        self,
                    ).spec_target_size()
                } else {
                    e == PlanningError::PlannerUninitialised
                },
            },
            old(self).is_setup() && old(self).spec_roadmap().len() >= old(self).spec_target_size()
                ==> result is Ok && final(self).spec_roadmap() == old(self).spec_roadmap(),
    {
        let pd = match &self.problem_def {
            Some(pd) => pd,
            None => {
                return Err(PlanningError::PlannerUninitialised);
            },
        };
        let vc = match &self.validity_checker {
            Some(vc) => vc,
            None => {
                return Err(PlanningError::PlannerUninitialised);
            },
        };
        let deadline = Deadline::start(&timeout);
        let target: usize = if self.num_samples < usize::MAX {
            self.num_samples
        } else {
            usize::MAX - 1
        };
        if grow_roadmap(
            &*pd.space,
            &**vc,
            &mut self.roadmap,
            &mut self.rng,
            target,
            self.connection_radius,
            &deadline,
        ) {
            Ok(())
        } else {
            Err(PlanningError::Timeout)
        }
    }

    /// Grows the roadmap as `construct_roadmap` does, and takes the end of
    /// the budget for the end of the growth: only a planner that has not
    /// been set up is an error.
    pub fn grow(&mut self, timeout: Duration) -> (result: Result<(), PlanningError>)
        requires
            old(self).wf(),
        ensures
            final(self).wf(),
            final(self).spec_problem() == old(self).spec_problem(),
            final(self).spec_checker() == old(self).spec_checker(),
            final(self).spec_num_samples() == old(self).spec_num_samples(),
            final(self).spec_connection_radius() == old(self).spec_connection_radius(),
            result == if old(self).is_setup() {
                Ok::<(), PlanningError>(())
            } else {
                Err::<(), PlanningError>(PlanningError::PlannerUninitialised)
            },
            !old(self).is_setup() ==> final(self).spec_roadmap() == old(self).spec_roadmap(),
            old(self).is_setup() ==> roadmap_grown_from(
                &*old(self).spec_problem()->0.space,
                final(self).spec_roadmap(),
                old(self).spec_roadmap(),
            ),
            old(self).is_setup() ==> joined_as_linked(
                &*old(self).spec_problem()->0.space,
                &*old(self).spec_checker()->0,
                final(self).spec_roadmap(),
                old(self).spec_roadmap().len() as int,
                old(self).spec_connection_radius(),
            ),
            old(self).is_setup() && old(self).spec_roadmap().len() >= old(self).spec_target_size()
                ==> final(self).spec_roadmap() == old(self).spec_roadmap(),
    {
        match self.construct_roadmap(timeout) {
            Ok(_) => Ok(()),
            Err(PlanningError::Timeout) => Ok(()),
            Err(e) => Err(e),
        }
    }

    /// Queries the roadmap, after growing it with `grow` if it holds no
    /// milestone yet. A roadmap that holds one is queried as it stands.
    pub fn grow_and_query(&mut self, timeout: Duration) -> (result: Result<Path<S>, PlanningError>)
        requires
            old(self).wf(),
        ensures
            final(self).wf(),
            final(self).spec_problem() == old(self).spec_problem(),
            final(self).spec_checker() == old(self).spec_checker(),
            final(self).spec_num_samples() == old(self).spec_num_samples(),
            final(self).spec_connection_radius() == old(self).spec_connection_radius(),
            final(self).query_answer(result),
            result matches Ok(path) ==> is_solution(
                &*old(self).spec_problem()->0,
                &*old(self).spec_checker()->0,
                path.models(),
            ),
            old(self).spec_roadmap().len() > 0 || !old(self).is_setup()
                ==> final(self).spec_roadmap() == old(self).spec_roadmap(),
            old(self).is_setup() ==> roadmap_grown_from(
                &*old(self).spec_problem()->0.space,
                final(self).spec_roadmap(),
                old(self).spec_roadmap(),
            ),
            old(self).is_setup() ==> joined_as_linked(
                &*old(self).spec_problem()->0.space,
                &*old(self).spec_checker()->0,
                final(self).spec_roadmap(),
                old(self).spec_roadmap().len() as int,
                old(self).spec_connection_radius(),
            ),
    {
        if self.roadmap.len() == 0 {
            match self.grow(timeout) {
                Ok(_) => {},
                Err(e) => {
                    return Err(e);
                },
            }
        }
        self.query()
    }

    /// What a query of the roadmap as it stands answers.
    pub open spec fn query_answer(&self, result: Result<Path<S>, PlanningError>) -> bool {
        if !self.is_setup() {
            result == Err::<Path<S>, PlanningError>(PlanningError::PlannerUninitialised)
        } else {
            let pd = self.spec_problem()->0;
            let vc = self.spec_checker()->0;
            if !pd.start_ok(&*vc) {
                result == Err::<Path<S>, PlanningError>(PlanningError::InvalidStartState)
            } else if pd.goal.spec_is_satisfied(pd.spec_start()) {
                result matches Ok(path) && path.models() == seq![pd.spec_start()]
            } else if no_route(&*pd, &*vc, self.spec_roadmap(), self.spec_connection_radius()) {
                result == Err::<Path<S>, PlanningError>(PlanningError::NoSolutionFound)
            } else {
                result matches Ok(path) && is_cheapest_route(
                    &*pd,
                    &*vc,
                    self.spec_roadmap(),
                    self.spec_connection_radius(),
                    path.models(),
                )
            }
        }
    }

    /// Looks in the roadmap as it stands for the cheapest way from the start
    /// to a milestone that satisfies the goal.
    ///
    /// The start state is checked first. A start that already satisfies the
    /// goal is answered with the path that holds it alone. Otherwise the
    /// start is joined to the milestones less than `connection_radius` away
    /// to which the motion is valid, and the cheapest route to a goal
    /// milestone is returned, or `NoSolutionFound` if there is none.
    pub fn query(&self) -> (result: Result<Path<S>, PlanningError>)
        requires
            self.wf(),
        ensures
            self.query_answer(result),
            result matches Ok(path) ==> is_solution(
                &*self.spec_problem()->0,
                &*self.spec_checker()->0,
                path.models(),
            ),
    {
        let pd = match &self.problem_def {
            Some(pd) => pd,
            None => {
                return Err(PlanningError::PlannerUninitialised);
            },
        };
        let vc = match &self.validity_checker {
            Some(vc) => vc,
            None => {
                return Err(PlanningError::PlannerUninitialised);
            },
        };
        if !pd.check_start(&**vc) {
            return Err(PlanningError::InvalidStartState);
        }
        let start = &pd.start_states[0];
        if pd.goal.is_satisfied(start) {
            let mut states: Vec<S> = Vec::new();
            states.push(*start.clone_box());
            let path = Path(states);
            assert(path.models() == seq![pd.spec_start()]);
            return Ok(path);
        }
        match find_route(
            &*pd.space,
            &**vc,
            &*pd.goal,
            &self.roadmap,
            start,
            self.connection_radius,
        ) {
            None => Err(PlanningError::NoSolutionFound),
            Some(route) => {
                let ghost g = query_graph(
                    &*pd.space,
                    &**vc,
                    self.roadmap@,
                    pd.spec_start(),
                    self.connection_radius,
                );
                proof {
                    lemma_route_is_connected(
                        &*pd.space,
                        &**vc,
                        self.roadmap@,
                        pd.spec_start(),
                        self.connection_radius,
                        route.stops@.last() as int,
                        route.hops@,
                        route.stops@,
                    );
                }
                let states = route_states(&self.roadmap, start, &route.stops);
                let path = Path(states);
                proof {
                    let models = spec_route_states(self.roadmap@, pd.spec_start(), route.stops@);
                    assert(path.models() =~= models);
                    assert(reaches_goal(
                        g,
                        &*pd.goal,
                        self.roadmap@,
                        route.hops@,
                        route.stops@.last() as int,
                    ));
                    assert(models.last() == self.roadmap@[route.stops@.last() as int].state@);
                }
                Ok(path)
            },
        }
    }
}

impl<
    S: State,
    SP: StateSpace<StateType = S>,
    G: GoalRegion<S>,
    VC: StateValidityChecker<S>,
> Planner<S, SP, G, VC> for PRM<S, SP, G, VC> {
    /// Without a problem the roadmap is empty; with one it is sound.
    closed spec fn wf(&self) -> bool {
        match (self.problem_def, self.validity_checker) {
            (Some(pd), Some(vc)) => {
                &&& roadmap_sound(&*pd.space, &*vc, self.roadmap@)
                &&& roadmap_undirected(self.roadmap@)
                &&& self.roadmap@.len() < usize::MAX
            },
            _ => self.roadmap@.len() == 0,
        }
    }

    closed spec fn spec_problem(&self) -> Option<Arc<ProblemDefinition<S, SP, G>>> {
        self.problem_def
    }

    closed spec fn spec_checker(&self) -> Option<Arc<VC>> {
        self.validity_checker
    }

    /// Stores the problem and the checker, and empties the roadmap.
    fn setup(&mut self, problem_def: Arc<ProblemDefinition<S, SP, G>>, validity_checker: Arc<VC>)
        ensures
            final(self).spec_roadmap().len() == 0,
            final(self).spec_num_samples() == old(self).spec_num_samples(),
            final(self).spec_connection_radius() == old(self).spec_connection_radius(),
    {
        self.problem_def = Some(problem_def);
        self.validity_checker = Some(validity_checker);
        self.roadmap.clear();
    }

    /// Grows the roadmap to its size, then queries it.
    ///
    /// The roadmap is built first, and `Timeout` is reported if the budget
    /// ends before it is complete. What follows is the answer of `query`.
    /// A roadmap that is complete already is queried as it stands.
    fn solve(&mut self, timeout: Duration) -> (result: Result<Path<S>, PlanningError>)
        ensures
            final(self).spec_num_samples() == old(self).spec_num_samples(),
            final(self).spec_connection_radius() == old(self).spec_connection_radius(),
            final(self).spec_roadmap().len() >= old(self).spec_roadmap().len(),
            !old(self).is_setup() ==> final(self).spec_roadmap() == old(self).spec_roadmap(),
            old(self).is_setup() ==> roadmap_grown_from(
                &*old(self).spec_problem()->0.space,
                final(self).spec_roadmap(),
                old(self).spec_roadmap(),
            ),
            old(self).is_setup() ==> joined_as_linked(
                &*old(self).spec_problem()->0.space,
                &*old(self).spec_checker()->0,
                final(self).spec_roadmap(),
                old(self).spec_roadmap().len() as int,
                old(self).spec_connection_radius(),
            ),
            result == Err::<Path<S>, PlanningError>(PlanningError::Timeout)
                ==> final(self).spec_roadmap().len() < old(self).spec_target_size(),
            old(self).is_setup() ==> {
                ||| result == Err::<Path<S>, PlanningError>(PlanningError::Timeout)
                ||| final(self).spec_roadmap().len() >= old(self).spec_target_size()
                    && final(self).query_answer(result)
            },
            old(self).is_setup() && old(self).spec_roadmap().len() >= old(self).spec_target_size()
                ==> final(self).query_answer(result) && final(self).spec_roadmap() == old(
                self,
            ).spec_roadmap(),
    {
        match self.construct_roadmap(timeout) {
            Ok(_) => self.query(),
            Err(e) => Err(e),
        }
    }
}

/// A path that `solve` returns visits only valid states, and each of its
/// motions is valid in at least one direction.
pub proof fn lemma_cheapest_route_is_solution<
    S: State,
    SP: StateSpace<StateType = S>,
    G: GoalRegion<S>,
    VC: StateValidityChecker<S>,
>(
    pd: &ProblemDefinition<S, SP, G>,
    checker: &VC,
    roadmap: Seq<Milestone<S>>,
    radius: Length,
    path: Seq<ModelOf<S>>,
)
    requires
        roadmap_sound(&*pd.space, checker, roadmap),
        roadmap.len() < usize::MAX,
        pd.start_ok(checker),
        is_cheapest_route(pd, checker, roadmap, radius, path),
    ensures
        is_solution(pd, checker, path),
{
    let g = query_graph(&*pd.space, checker, roadmap, pd.spec_start(), radius);
    let (hops, stops): (Seq<Hop>, Seq<usize>) = choose|hops: Seq<Hop>, stops: Seq<usize>|
        {
            &&& hops.len() >= 1
            &&& stops.len() == hops.len()
            &&& #[trigger] reaches_goal(g, &*pd.goal, roadmap, hops, stops.last() as int)
            &&& forall|k: int|
                0 <= k < hops.len() ==> #[trigger] stops[k] == hop_edge(g, hops[k]).to
            &&& path == #[trigger] spec_route_states(roadmap, pd.spec_start(), stops)
            &&& forall|r2: Seq<Hop>, t2: int| #[trigger]
                reaches_goal(g, &*pd.goal, roadmap, r2, t2) ==> route_cost(g, hops) <= route_cost(
                    g,
                    r2,
                )
        };
    lemma_route_is_connected(
        &*pd.space,
        checker,
        roadmap,
        pd.spec_start(),
        radius,
        stops.last() as int,
        hops,
        stops,
    );
    assert(path.last() == roadmap[stops.last() as int].state@);
}

/// A path that `query` returns steps less than the connection radius at a
/// time, where every milestone of the roadmap was joined with that radius.
pub proof fn lemma_cheapest_route_steps_within_radius<
    S: State,
    SP: StateSpace<StateType = S>,
    G: GoalRegion<S>,
    VC: StateValidityChecker<S>,
>(
    pd: &ProblemDefinition<S, SP, G>,
    checker: &VC,
    roadmap: Seq<Milestone<S>>,
    radius: Length,
    path: Seq<ModelOf<S>>,
)
    requires
        roadmap_undirected(roadmap),
        joined_as_linked(&*pd.space, checker, roadmap, 0, radius),
        roadmap.len() < usize::MAX,
        is_cheapest_route(pd, checker, roadmap, radius, path),
    ensures
        forall|k: int|
            0 <= k < path.len() - 1 ==> pd.space.spec_distance(#[trigger] path[k], path[k + 1])
                < radius,
{
    let g = query_graph(&*pd.space, checker, roadmap, pd.spec_start(), radius);
    let (hops, stops): (Seq<Hop>, Seq<usize>) = choose|hops: Seq<Hop>, stops: Seq<usize>|
        {
            &&& hops.len() >= 1
            &&& stops.len() == hops.len()
            &&& #[trigger] reaches_goal(g, &*pd.goal, roadmap, hops, stops.last() as int)
            &&& forall|k: int|
                0 <= k < hops.len() ==> #[trigger] stops[k] == hop_edge(g, hops[k]).to
            &&& path == #[trigger] spec_route_states(roadmap, pd.spec_start(), stops)
            &&& forall|r2: Seq<Hop>, t2: int| #[trigger]
                reaches_goal(g, &*pd.goal, roadmap, r2, t2) ==> route_cost(g, hops) <= route_cost(
                    g,
                    r2,
                )
        };
    lemma_route_stays_within_radius(
        &*pd.space,
        checker,
        roadmap,
        pd.spec_start(),
        radius,
        stops.last() as int,
        hops,
        stops,
    );
    assert(path.len() == stops.len() + 1);
}

} // verus!
