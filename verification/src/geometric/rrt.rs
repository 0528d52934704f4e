//! RRT: a single tree grown from the start, biased towards the goal.

use vstd::prelude::*;
use rand::rngs::StdRng;
use std::sync::Arc;
use std::time::Duration;
use crate::base::clock::Deadline;
use crate::base::error::PlanningError;
use crate::base::goal::GoalSampleableRegion;
use crate::base::measure::Length;
use crate::base::planner::{is_directed_solution, Path, Planner, PlannerConfig};
use crate::base::problem_definition::ProblemDefinition;
use crate::base::random::{rng_for, Probability};
use crate::base::space::StateSpace;
use crate::base::state::{DynClone, State};
use crate::base::validity::StateValidityChecker;
use crate::geometric::sampling::draw_target;
use crate::geometric::tree::{
    branch_states, extend, extract_path, lemma_branch_ends, lemma_branch_is_valid, node_models,
    spec_extend_status, spec_extended, tree_sound, tree_wf, ExtendStatus, Node,
};

verus! {

/// One round of growing: extends the tree towards `target` and, exactly when
/// a node was added and it satisfies the goal, returns the branch that leads
/// to it.
pub fn grow_to_goal<
    S: State,
    SP: StateSpace<StateType = S>,
    G: GoalSampleableRegion<S>,
    VC: StateValidityChecker<S>,
>(
    space: &SP,
    checker: &VC,
    goal: &G,
    tree: &mut Vec<Node<S>>,
    target: &S,
    max_distance: Length,
) -> (found: Option<Path<S>>)
    requires
        old(tree).len() > 0,
        tree_wf(old(tree)@),
        tree_sound(space, checker, old(tree)@),
    ensures
        tree_wf(final(tree)@),
        tree_sound(space, checker, final(tree)@),
        node_models(final(tree)@) == spec_extended(
            space,
            checker,
            node_models(old(tree)@),
            target@,
            max_distance,
        ),
        spec_extend_status(space, checker, node_models(old(tree)@), target@, max_distance)
            == ExtendStatus::Trapped ==> final(tree)@ == old(tree)@,
        spec_extend_status(space, checker, node_models(old(tree)@), target@, max_distance)
            != ExtendStatus::Trapped ==> final(tree)@.len() == old(tree)@.len() + 1
            && final(tree)@.drop_last() == old(tree)@,
        found is Some <==> spec_extend_status(
            space,
            checker,
            node_models(old(tree)@),
            target@,
            max_distance,
        ) != ExtendStatus::Trapped && goal.spec_is_satisfied(final(tree)@.last().state@),
        found matches Some(path) ==> path.models() == branch_states(
            final(tree)@,
            final(tree)@.len() - 1,
        ),
{
    let status = extend(space, checker, tree, target, max_distance);
    if status == ExtendStatus::Trapped {
        return None;
    }
    let last: usize = tree.len() - 1;
    if !goal.is_satisfied(&tree[last].state) {
        return None;
    }
    let states = extract_path(tree, last);
    let path = Path(states);
    assert(path.models() == branch_states(tree@, last as int));
    Some(path)
}

/// The single-tree planner.
#[verifier::reject_recursive_types(S)]
#[verifier::reject_recursive_types(SP)]
#[verifier::reject_recursive_types(G)]
#[verifier::reject_recursive_types(VC)]
pub struct RRT<
    S: State,
    SP: StateSpace<StateType = S>,
    G: GoalSampleableRegion<S>,
    VC: StateValidityChecker<S>,
> {
    /// The longest step by which the tree grows.
    pub max_distance: Length,
    /// The chance of growing towards a state of the goal.
    pub goal_bias: Probability,
    problem_def: Option<Arc<ProblemDefinition<S, SP, G>>>,
    validity_checker: Option<Arc<VC>>,
    tree: Vec<Node<S>>,
    rng: StdRng,
}

impl<
    S: State,
    SP: StateSpace<StateType = S>,
    G: GoalSampleableRegion<S>,
    VC: StateValidityChecker<S>,
> RRT<S, SP, G, VC> {
    /// Whether `setup` has been called.
    pub open spec fn is_setup(&self) -> bool {
        self.spec_problem() is Some && self.spec_checker() is Some
    }

    /// The longest step by which the tree grows.
    pub closed spec fn spec_max_distance(&self) -> Length {
        self.max_distance
    }

    /// The chance of growing towards a state of the goal.
    pub closed spec fn spec_goal_bias(&self) -> Probability {
        self.goal_bias
    }

    /// The tree grown so far.
    pub closed spec fn spec_tree(&self) -> Seq<Node<S>> {
        self.tree@
    }

    /// The number of nodes in the tree.
    pub open spec fn spec_tree_size(&self) -> nat {
        self.spec_tree().len()
    }

    /// The tree of a planner that has been set up grows from the start
    /// state, and every node of it is valid and joined to its parent by a
    /// valid motion.
    pub proof fn lemma_tree_is_sound(&self)
        requires
            self.wf(),
            self.is_setup(),
        ensures
            tree_wf(self.spec_tree()),
            tree_sound(&*self.spec_problem()->0.space, &*self.spec_checker()->0, self.spec_tree()),
            self.spec_tree().len() > 0 ==> self.spec_tree()[0].state@
                == self.spec_problem()->0.spec_start(),
    {
    }

    /// A planner that has not been set up.
    pub fn new(max_distance: Length, goal_bias: Probability, config: &PlannerConfig) -> (planner:
        Self)
        ensures
            planner.wf(),
            !planner.is_setup(),
            planner.spec_problem() is None,
            planner.spec_checker() is None,
            planner.spec_max_distance() == max_distance,
            planner.spec_goal_bias() == goal_bias,
            planner.spec_tree_size() == 0,
    {
        RRT {
            max_distance,
            goal_bias,
            problem_def: None,
            validity_checker: None,
            tree: Vec::new(),
            rng: rng_for(config.seed),
        }
    }

    /// The number of nodes in the tree.
    pub fn tree_size(&self) -> (n: usize)
        ensures
            n == self.spec_tree_size(),
    {
        self.tree.len()
    }
}

impl<
    S: State,
    SP: StateSpace<StateType = S>,
    G: GoalSampleableRegion<S>,
    VC: StateValidityChecker<S>,
> Planner<S, SP, G, VC> for RRT<S, SP, G, VC> {
    /// Without a problem the tree is empty. With one, the tree is sound, and
    /// if it has a root, the root is the start state, which was checked.
    closed spec fn wf(&self) -> bool {
        match (self.problem_def, self.validity_checker) {
            (Some(pd), Some(vc)) => {
                &&& tree_wf(self.tree@)
                &&& tree_sound(&*pd.space, &*vc, self.tree@)
                &&& self.tree@.len() > 0 ==> pd.start_ok(&*vc) && self.tree@[0].state@
                    == pd.spec_start()
            },
            _ => self.tree@.len() == 0,
        }
    }

    closed spec fn spec_problem(&self) -> Option<Arc<ProblemDefinition<S, SP, G>>> {
        self.problem_def
    }

    closed spec fn spec_checker(&self) -> Option<Arc<VC>> {
        self.validity_checker
    }

    /// Stores the problem and the checker, and empties the tree.
    fn setup(&mut self, problem_def: Arc<ProblemDefinition<S, SP, G>>, validity_checker: Arc<VC>)
        ensures
            final(self).spec_tree_size() == 0,
            final(self).spec_max_distance() == old(self).spec_max_distance(),
            final(self).spec_goal_bias() == old(self).spec_goal_bias(),
    {
        self.problem_def = Some(problem_def);
        self.validity_checker = Some(validity_checker);
        self.tree.clear();
    }

    /// Grows the tree until a new node satisfies the goal, and returns the
    /// branch that leads to it.
    ///
    /// A start state that already satisfies the goal is answered at once
    /// with the path that holds it alone. Otherwise each round first looks
    /// at the clock and fails with `Timeout` once the budget is spent; the
    /// count of rounds is capped at `u64::MAX`, beyond which the planner
    /// reports `Timeout` as well. The tree is kept, so that a later call goes
    /// on from it.
    fn solve(&mut self, timeout: Duration) -> (result: Result<Path<S>, PlanningError>)
        ensures
            result matches Ok(path) ==> is_directed_solution(
                &*old(self).spec_problem()->0,
                &*old(self).spec_checker()->0,
                path.models(),
            ),
            result matches Ok(path) ==> {
                let tree = final(self).spec_tree();
                ||| path.models() == branch_states(tree, tree.len() - 1)
                ||| path.models() == branch_states(tree, 0)
            },
            result == Err::<Path<S>, PlanningError>(PlanningError::InvalidStartState) <==> (old(
                self,
            ).is_setup() && !old(self).spec_problem()->0.start_ok(&*old(self).spec_checker()->0)),
            result != Err::<Path<S>, PlanningError>(PlanningError::NoSolutionFound),
            final(self).spec_tree_size() >= old(self).spec_tree_size(),
            forall|i: int|
                0 <= i < old(self).spec_tree_size() ==> #[trigger] final(self).spec_tree()[i]
                    == old(self).spec_tree()[i],
            final(self).spec_max_distance() == old(self).spec_max_distance(),
            final(self).spec_goal_bias() == old(self).spec_goal_bias(),
            !old(self).is_setup() ==> final(self).spec_tree() == old(self).spec_tree(),
            old(self).is_setup() && !old(self).spec_problem()->0.start_ok(
                &*old(self).spec_checker()->0,
            ) ==> final(self).spec_tree() == old(self).spec_tree(),
            old(self).is_setup() && old(self).spec_problem()->0.start_ok(
                &*old(self).spec_checker()->0,
            ) ==> {
                let problem = old(self).spec_problem()->0;
                let tree = final(self).spec_tree();
                &&& tree.len() > 0
                &&& tree[0].state@ == problem.spec_start()
                &&& problem.goal.spec_is_satisfied(problem.spec_start()) ==> (result matches Ok(
                    path,
                ) && path.models() == seq![problem.spec_start()])
                &&& forall|i: int|
                    old(self).spec_tree_size() <= i < tree.len() - 1
                        ==> !problem.goal.spec_is_satisfied((#[trigger] tree[i]).state@)
                &&& result is Err ==> forall|i: int|
                    old(self).spec_tree_size() <= i < tree.len()
                        ==> !problem.goal.spec_is_satisfied((#[trigger] tree[i]).state@)
            },
    {
        let pd = match &self.problem_def {
            Some(pd) => pd,
            None => {
                return Err(PlanningError::PlannerUninitialised);
            },
        };
        let vc = match &self.validity_checker {
            Some(vc) => vc,
            None => {
                return Err(PlanningError::PlannerUninitialised);
            },
        };
        let deadline = Deadline::start(&timeout);
        if self.tree.len() == 0 {
            if !pd.check_start(&**vc) {
                return Err(PlanningError::InvalidStartState);
            }
            let root = pd.start_states[0].clone_box();
            self.tree.push(Node { state: *root, parent: None });
        }
        if pd.goal.is_satisfied(&self.tree[0].state) {
            proof {
                lemma_branch_ends(self.tree@, 0);
                lemma_branch_is_valid(&*pd.space, &**vc, self.tree@, 0);
            }
            let states = extract_path(&self.tree, 0);
            let path = Path(states);
            assert(path.models() == branch_states(self.tree@, 0));
            assert(path.models() =~= seq![pd.spec_start()]);
            return Ok(path);
        }
        let mut rounds: u64 = 0;
        loop
            invariant
                self.problem_def == old(self).problem_def,
                self.validity_checker == old(self).validity_checker,
                self.max_distance == old(self).max_distance,
                self.goal_bias == old(self).goal_bias,
                self.problem_def == Some(*pd),
                self.validity_checker == Some(*vc),
                self.tree@.len() > 0,
                self.tree@.len() >= old(self).tree@.len(),
                forall|i: int|
                    0 <= i < old(self).tree@.len() ==> #[trigger] self.tree@[i] == old(self).tree@[i],
                !pd.goal.spec_is_satisfied(pd.spec_start()),
                self.tree@[0].state@ == pd.spec_start(),
                forall|i: int|
                    old(self).tree@.len() <= i < self.tree@.len() ==> !pd.goal.spec_is_satisfied(
                        (#[trigger] self.tree@[i]).state@,
                    ),
                pd.start_ok(&**vc),
                self.wf(),
            decreases u64::MAX - rounds,
        {
            if deadline.expired() || rounds == u64::MAX {
                return Err(PlanningError::Timeout);
            }
            rounds = rounds + 1;
            let target = match draw_target(&*pd.space, &*pd.goal, &mut self.rng, &self.goal_bias) {
                Some(s) => s,
                None => {
                    continue ;
                },
            };
            let ghost before = self.tree@;
            let found = grow_to_goal(
                &*pd.space,
                &**vc,
                &*pd.goal,
                &mut self.tree,
                &target,
                self.max_distance,
            );
            proof {
                let grew = self.tree@.len() > before.len();
                assert forall|i: int| 0 <= i < before.len() implies #[trigger] self.tree@[i]
                    == before[i] by {
                    if grew {
                        assert(self.tree@.drop_last()[i] == before[i]);
                    }
                }
            }
            match found {
                Some(path) => {
                    proof {
                        lemma_branch_ends(self.tree@, self.tree@.len() - 1);
                        lemma_branch_is_valid(&*pd.space, &**vc, self.tree@, self.tree@.len() - 1);
                    }
                    return Ok(path);
                },
                None => {},
            }
        }
    }
}

} // verus!
