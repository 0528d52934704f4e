//! RRT-Connect: one tree grown from the start, one from the goal, each
//! reaching for the other's newest node.

use vstd::prelude::*;
use rand::rngs::StdRng;
use std::sync::Arc;
use std::time::Duration;
use crate::base::clock::Deadline;
use crate::base::error::PlanningError;
use crate::base::goal::GoalSampleableRegion;
use crate::base::measure::Length;
use crate::base::planner::{Path, Planner, PlannerConfig};
use crate::base::problem_definition::ProblemDefinition;
use crate::base::random::rng_for;
use crate::base::space::StateSpace;
use crate::base::state::{DynClone, ModelOf, State};
use crate::base::validity::StateValidityChecker;
use crate::geometric::motion::motion_valid;
use crate::geometric::roadmap::connected;
use crate::geometric::tree::{
    backwards, branch_states, extend, extract_path, grown_from, lemma_branch_ends,
    lemma_branch_is_valid,
    node_models, path_models, spec_extend_status, spec_extended, spec_nearest, tree_sound,
    tree_wf, ExtendStatus, Node,
};

verus! {

/// A path whose first `m` states come from the start tree and the rest from
/// the goal tree: every state is valid, the motions among the first `m`
/// states are valid as travelled, the motions among the rest are valid in
/// the direction in which the goal tree grew, against the travel, and the
/// motion from the one tree to the other is valid in one of the two
/// directions.
pub open spec fn bidirectional_path<SP: StateSpace, VC: StateValidityChecker<SP::StateType>>(
    space: &SP,
    checker: &VC,
    path: Seq<ModelOf<SP::StateType>>,
    m: int,
) -> bool {
    &&& 1 <= m <= path.len()
    &&& forall|k: int| 0 <= k < path.len() ==> checker.spec_is_valid(#[trigger] path[k])
    &&& forall|k: int|
        0 <= k < m - 1 ==> motion_valid(space, checker, #[trigger] path[k], path[k + 1])
    &&& m < path.len() ==> connected(space, checker, path[m - 1], path[m])
    &&& forall|k: int|
        m <= k < path.len() - 1 ==> motion_valid(space, checker, path[k + 1], #[trigger] path[k])
}

/// A branch of the start tree, followed by a branch of the goal tree taken
/// from its tip to its root, is a bidirectional path if the motion between
/// the two tips is valid in one of the two directions.
pub proof fn lemma_joined_branches<SP: StateSpace, VC: StateValidityChecker<SP::StateType>>(
    space: &SP,
    checker: &VC,
    start_tree: Seq<Node<SP::StateType>>,
    a: int,
    goal_tree: Seq<Node<SP::StateType>>,
    b: int,
)
    requires
        tree_wf(start_tree),
        tree_sound(space, checker, start_tree),
        0 <= a < start_tree.len(),
        tree_wf(goal_tree),
        tree_sound(space, checker, goal_tree),
        0 <= b < goal_tree.len(),
        connected(space, checker, start_tree[a].state@, goal_tree[b].state@),
    ensures
        bidirectional_path(
            space,
            checker,
            branch_states(start_tree, a) + backwards(branch_states(goal_tree, b)),
            branch_states(start_tree, a).len() as int,
        ),
        (branch_states(start_tree, a) + backwards(branch_states(goal_tree, b)))[0]
            == start_tree[0].state@,
        (branch_states(start_tree, a) + backwards(branch_states(goal_tree, b))).last()
            == goal_tree[0].state@,
{
    let first = branch_states(start_tree, a);
    let second = branch_states(goal_tree, b);
    let path = first + backwards(second);
    let m = first.len() as int;
    lemma_branch_ends(start_tree, a);
    lemma_branch_ends(goal_tree, b);
    lemma_branch_is_valid(space, checker, start_tree, a);
    lemma_branch_is_valid(space, checker, goal_tree, b);
    assert forall|k: int| 0 <= k < path.len() implies checker.spec_is_valid(#[trigger] path[k]) by {
        if k < m {
            assert(path[k] == first[k]);
        } else {
            assert(path[k] == second[second.len() - 1 - (k - m)]);
        }
    }
    assert forall|k: int| 0 <= k < m - 1 implies motion_valid(
        space,
        checker,
        #[trigger] path[k],
        path[k + 1],
    ) by {
        assert(path[k] == first[k]);
        assert(path[k + 1] == first[k + 1]);
    }
    assert(path[m - 1] == first.last());
    assert(path[m] == second[second.len() - 1]);
    assert forall|k: int| m <= k < path.len() - 1 implies motion_valid(
        space,
        checker,
        path[k + 1],
        #[trigger] path[k],
    ) by {
        let j = second.len() - 1 - (k - m);
        assert(path[k] == second[j]);
        assert(path[k + 1] == second[j - 1]);
    }
    assert(path[0] == first[0]);
    assert(path.last() == second[0]);
}

/// Stitches the two trees together at node `a` of the start tree and node
/// `b` of the goal tree: the path runs down the start tree to `a`, crosses
/// to `b`, and climbs the goal tree to its root.
pub fn stitch<S: State>(
    start_tree: &Vec<Node<S>>,
    a: usize,
    goal_tree: &Vec<Node<S>>,
    b: usize,
) -> (path: Vec<S>)
    requires
        tree_wf(start_tree@),
        a < start_tree.len(),
        tree_wf(goal_tree@),
        b < goal_tree.len(),
    ensures
        path_models(path@) == branch_states(start_tree@, a as int) + backwards(
            branch_states(goal_tree@, b as int),
        ),
{
    let mut path = extract_path(start_tree, a);
    let mut rest = extract_path(goal_tree, b);
    let ghost first = path_models(path@);
    let ghost second = path_models(rest@);
    while rest.len() > 0
        invariant
            rest.len() <= second.len(),
            path_models(rest@) == second.subrange(0, rest.len() as int),
            path_models(path@) == first + backwards(second).subrange(
                0,
                second.len() - rest.len(),
            ),
        decreases rest.len(),
    {
        let ghost rest0 = rest@;
        let ghost path0 = path@;
        let last = rest.pop();
        match last {
            Some(s) => {
                path.push(s);
                proof {
                    assert(s == rest0[rest0.len() - 1]);
                    assert(s@ == path_models(rest0)[rest0.len() - 1]);
                    assert(path_models(rest@) =~= second.subrange(0, rest.len() as int));
                    assert(path_models(path@) =~= path_models(path0).push(s@));
                    assert(path_models(path@) =~= first + backwards(second).subrange(
                        0,
                        second.len() - rest.len(),
                    ));
                }
            },
            None => {},
        }
    }
    proof {
        assert(backwards(second).subrange(0, second.len() as int) =~= backwards(second));
    }
    path
}

/// The states of a tree after it has reached for `target`: it grows towards
/// it step by step until a step arrives or is blocked, or the tree is full.
/// With steps of no length it does not grow at all.
#[verifier::opaque]
pub open spec fn spec_connected<SP: StateSpace, VC: StateValidityChecker<SP::StateType>>(
    space: &SP,
    checker: &VC,
    states: Seq<ModelOf<SP::StateType>>,
    target: ModelOf<SP::StateType>,
    max_distance: Length,
) -> Seq<ModelOf<SP::StateType>>
    decreases usize::MAX - states.len(),
{
    if max_distance == 0 || states.len() >= usize::MAX - 1 {
        states
    } else {
        match spec_extend_status(space, checker, states, target, max_distance) {
            ExtendStatus::Trapped => states,
            ExtendStatus::Reached => spec_extended(space, checker, states, target, max_distance),
            ExtendStatus::Advanced => spec_connected(
                space,
                checker,
                spec_extended(space, checker, states, target, max_distance),
                target,
                max_distance,
            ),
        }
    }
}

/// Whether the last step of a tree that reaches for `target` arrives at it.
#[verifier::opaque]
pub open spec fn spec_connect_reaches<SP: StateSpace, VC: StateValidityChecker<SP::StateType>>(
    space: &SP,
    checker: &VC,
    states: Seq<ModelOf<SP::StateType>>,
    target: ModelOf<SP::StateType>,
    max_distance: Length,
) -> bool
    decreases usize::MAX - states.len(),
{
    if max_distance == 0 || states.len() >= usize::MAX - 1 {
        false
    } else {
        match spec_extend_status(space, checker, states, target, max_distance) {
            ExtendStatus::Trapped => false,
            ExtendStatus::Reached => true,
            ExtendStatus::Advanced => spec_connect_reaches(
                space,
                checker,
                spec_extended(space, checker, states, target, max_distance),
                target,
                max_distance,
            ),
        }
    }
}

/// What reaching for a target comes to after the first step: nothing more if
/// the step is blocked or arrives, the same again from the grown tree if it
/// only comes nearer.
pub proof fn lemma_connect_unfolds<SP: StateSpace, VC: StateValidityChecker<SP::StateType>>(
    space: &SP,
    checker: &VC,
    states: Seq<ModelOf<SP::StateType>>,
    target: ModelOf<SP::StateType>,
    max_distance: Length,
)
    ensures
        max_distance == 0 || states.len() >= usize::MAX - 1 ==> {
            &&& spec_connected(space, checker, states, target, max_distance) == states
            &&& !spec_connect_reaches(space, checker, states, target, max_distance)
        },
        max_distance != 0 && states.len() < usize::MAX - 1 ==> {
            let grown = spec_extended(space, checker, states, target, max_distance);
            match spec_extend_status(space, checker, states, target, max_distance) {
                ExtendStatus::Trapped => {
                    &&& spec_connected(space, checker, states, target, max_distance) == states
                    &&& !spec_connect_reaches(space, checker, states, target, max_distance)
                },
                ExtendStatus::Reached => {
                    &&& spec_connected(space, checker, states, target, max_distance) == grown
                    &&& spec_connect_reaches(space, checker, states, target, max_distance)
                },
                ExtendStatus::Advanced => {
                    &&& spec_connected(space, checker, states, target, max_distance)
                        == spec_connected(space, checker, grown, target, max_distance)
                    &&& spec_connect_reaches(space, checker, states, target, max_distance)
                        == spec_connect_reaches(space, checker, grown, target, max_distance)
                },
            }
        },
{
    reveal(spec_connected);
    reveal(spec_connect_reaches);
}

/// Grows the tree towards `target` step by step until a step arrives at it
/// or is blocked. Answers whether the last step arrived. Every new node
/// hangs from the node that was nearest to the target when it was added.
pub fn connect_to<SP: StateSpace, VC: StateValidityChecker<SP::StateType>>(
    space: &SP,
    checker: &VC,
    tree: &mut Vec<Node<SP::StateType>>,
    target: &SP::StateType,
    max_distance: Length,
) -> (reached: bool)
    requires
        old(tree).len() > 0,
        tree_wf(old(tree)@),
        tree_sound(space, checker, old(tree)@),
    ensures
        tree_wf(final(tree)@),
        tree_sound(space, checker, final(tree)@),
        final(tree)@.len() >= old(tree)@.len(),
        forall|j: int| 0 <= j < old(tree)@.len() ==> #[trigger] final(tree)@[j] == old(tree)@[j],
        node_models(final(tree)@) == spec_connected(
            space,
            checker,
            node_models(old(tree)@),
            target@,
            max_distance,
        ),
        reached == spec_connect_reaches(
            space,
            checker,
            node_models(old(tree)@),
            target@,
            max_distance,
        ),
        forall|i: int|
            old(tree)@.len() <= i < final(tree)@.len() ==> (#[trigger] final(tree)@[i]).parent
                == Some(
                spec_nearest(space, node_models(final(tree)@).subrange(0, i), target@, i) as usize,
            ),
        reached ==> final(tree)@.len() > old(tree)@.len() && final(tree)@.last().state@
            == target@,
{
    loop
        invariant
            tree@.len() > 0,
            tree_wf(tree@),
            tree_sound(space, checker, tree@),
            tree@.len() >= old(tree)@.len(),
            forall|j: int| 0 <= j < old(tree)@.len() ==> #[trigger] tree@[j] == old(tree)@[j],
            spec_connected(space, checker, node_models(old(tree)@), target@, max_distance)
                == spec_connected(space, checker, node_models(tree@), target@, max_distance),
            spec_connect_reaches(space, checker, node_models(old(tree)@), target@, max_distance)
                == spec_connect_reaches(space, checker, node_models(tree@), target@, max_distance),
            forall|i: int|
                old(tree)@.len() <= i < tree@.len() ==> (#[trigger] tree@[i]).parent == Some(
                    spec_nearest(space, node_models(tree@).subrange(0, i), target@, i) as usize,
                ),
        decreases usize::MAX - tree@.len(),
    {
        proof {
            lemma_connect_unfolds(space, checker, node_models(tree@), target@, max_distance);
        }
        if max_distance == 0 || tree.len() >= usize::MAX - 1 {
            return false;
        }
        let ghost before = tree@;
        let status = extend(space, checker, tree, target, max_distance);
        proof {
            if status != ExtendStatus::Trapped {
                assert forall|j: int| 0 <= j < old(tree)@.len() implies #[trigger] tree@[j] == old(
                    tree,
                )@[j] by {
                    assert(tree@.drop_last()[j] == before[j]);
                }
                assert forall|i: int| old(tree)@.len() <= i < tree@.len() implies (
                #[trigger] tree@[i]).parent == Some(
                    spec_nearest(space, node_models(tree@).subrange(0, i), target@, i) as usize,
                ) by {
                    if i < before.len() {
                        assert(tree@.drop_last()[i] == before[i]);
                        assert(node_models(tree@).subrange(0, i) =~= node_models(before).subrange(
                            0,
                            i,
                        ));
                    } else {
                        assert(node_models(tree@).subrange(0, i) =~= node_models(before));
                    }
                }
            }
        }
        match status {
            ExtendStatus::Trapped => {
                return false;
            },
            ExtendStatus::Reached => {
                return true;
            },
            ExtendStatus::Advanced => {},
        }
    }
}

/// One round of growth: extends `near_tree` towards `target`, and if that
/// adds a node, lets `far_tree` reach for it. Where `far_tree` arrives, its
/// newest node is the new node of `near_tree` over again, and the answer
/// names the new node of `near_tree` and the node of `far_tree` from which
/// the last step was taken: the motion from the latter to the former is
/// valid.
pub fn grow_and_connect<SP: StateSpace, VC: StateValidityChecker<SP::StateType>>(
    space: &SP,
    checker: &VC,
    near_tree: &mut Vec<Node<SP::StateType>>,
    far_tree: &mut Vec<Node<SP::StateType>>,
    target: &SP::StateType,
    max_distance: Length,
) -> (link: Option<(usize, usize)>)
    requires
        old(near_tree).len() > 0,
        tree_wf(old(near_tree)@),
        tree_sound(space, checker, old(near_tree)@),
        old(far_tree).len() > 0,
        tree_wf(old(far_tree)@),
        tree_sound(space, checker, old(far_tree)@),
    ensures
        tree_wf(final(near_tree)@),
        tree_sound(space, checker, final(near_tree)@),
        tree_wf(final(far_tree)@),
        tree_sound(space, checker, final(far_tree)@),
        final(near_tree)@.len() >= old(near_tree)@.len(),
        final(far_tree)@.len() >= old(far_tree)@.len(),
        final(near_tree)@[0] == old(near_tree)@[0],
        final(far_tree)@[0] == old(far_tree)@[0],
        grown_from(final(near_tree)@, old(near_tree)@),
        grown_from(final(far_tree)@, old(far_tree)@),
        node_models(final(near_tree)@) == spec_extended(
            space,
            checker,
            node_models(old(near_tree)@),
            target@,
            max_distance,
        ),
        ({
            let near0 = node_models(old(near_tree)@);
            let far0 = node_models(old(far_tree)@);
            let tip = node_models(final(near_tree)@).last();
            if spec_extend_status(space, checker, near0, target@, max_distance)
                == ExtendStatus::Trapped {
                &&& link is None
                &&& final(near_tree)@ == old(near_tree)@
                &&& final(far_tree)@ == old(far_tree)@
            } else {
                &&& node_models(final(far_tree)@) == spec_connected(
                    space,
                    checker,
                    far0,
                    tip,
                    max_distance,
                )
                &&& link is Some <==> spec_connect_reaches(space, checker, far0, tip, max_distance)
            }
        }),
        link matches Some((i, j)) ==> {
            &&& i == final(near_tree)@.len() - 1
            &&& i == old(near_tree)@.len()
            &&& j < final(far_tree)@.len() - 1
            &&& final(far_tree)@.last().parent == Some(j)
            &&& final(far_tree)@.last().state@ == final(near_tree)@[i as int].state@
            &&& motion_valid(
                space,
                checker,
                final(far_tree)@[j as int].state@,
                final(near_tree)@[i as int].state@,
            )
        },
{
    let ghost near0 = near_tree@;
    let status = extend(space, checker, near_tree, target, max_distance);
    if status == ExtendStatus::Trapped {
        return None;
    }
    proof {
        assert forall|j: int| 0 <= j < near0.len() implies #[trigger] near_tree@[j] == near0[j] by {
            assert(near_tree@.drop_last()[j] == near0[j]);
        }
    }
    let tip: usize = near_tree.len() - 1;
    if !connect_to(space, checker, far_tree, &near_tree[tip].state, max_distance) {
        return None;
    }
    let last: usize = far_tree.len() - 1;
    match far_tree[last].parent {
        Some(j) => Some((tip, j)),
        None => None,
    }
}

/// A path that runs through the start tree and then through the goal tree.
pub open spec fn meets_in_the_middle<SP: StateSpace, VC: StateValidityChecker<SP::StateType>>(
    space: &SP,
    checker: &VC,
    path: Seq<ModelOf<SP::StateType>>,
) -> bool {
    exists|m: int| bidirectional_path(space, checker, path, m)
}

/// One round of the planner: roots the goal tree in a state drawn from the
/// goal if it has no root yet, draws a target from the space, and grows the
/// trees towards it as `connect_step` says. A round in which the goal or the
/// space gives no state changes nothing but the generator.
fn connect_round<
    SP: StateSpace,
    G: GoalSampleableRegion<SP::StateType>,
    VC: StateValidityChecker<SP::StateType>,
>(
    space: &SP,
    checker: &VC,
    goal: &G,
    start_tree: &mut Vec<Node<SP::StateType>>,
    goal_tree: &mut Vec<Node<SP::StateType>>,
    from_start: &mut bool,
    rng: &mut StdRng,
    max_distance: Length,
) -> (found: Option<Vec<SP::StateType>>)
    requires
        old(start_tree).len() > 0,
        tree_wf(old(start_tree)@),
        tree_sound(space, checker, old(start_tree)@),
        tree_wf(old(goal_tree)@),
        tree_sound(space, checker, old(goal_tree)@),
        old(goal_tree)@.len() > 0 ==> goal.spec_is_satisfied(old(goal_tree)@[0].state@),
    ensures
        tree_wf(final(start_tree)@),
        tree_sound(space, checker, final(start_tree)@),
        tree_wf(final(goal_tree)@),
        tree_sound(space, checker, final(goal_tree)@),
        final(start_tree)@.len() >= old(start_tree)@.len(),
        final(goal_tree)@.len() >= old(goal_tree)@.len(),
        final(start_tree)@[0] == old(start_tree)@[0],
        grown_from(final(start_tree)@, old(start_tree)@),
        grown_from(final(goal_tree)@, old(goal_tree)@),
        final(goal_tree)@.len() > 0 ==> goal.spec_is_satisfied(final(goal_tree)@[0].state@),
        found matches Some(states) ==> {
            &&& final(goal_tree)@.len() > 0
            &&& meets_in_the_middle(space, checker, path_models(states@))
            &&& path_models(states@)[0] == final(start_tree)@[0].state@
            &&& path_models(states@).last() == final(goal_tree)@[0].state@
        },
        ({
            ||| {
                &&& found is None
                &&& final(start_tree)@ == old(start_tree)@
                &&& *final(from_start) == *old(from_start)
                &&& final(goal_tree)@ == old(goal_tree)@ || newly_rooted(
                    checker,
                    goal,
                    old(goal_tree)@,
                    final(goal_tree)@,
                )
            }
            ||| exists|target: ModelOf<SP::StateType>, rooted: Seq<Node<SP::StateType>>|
                {
                    &&& rooted == old(goal_tree)@ || newly_rooted(
                        checker,
                        goal,
                        old(goal_tree)@,
                        rooted,
                    )
                    &&& space.spec_satisfies_bounds(target)
                    &&& *final(from_start) == !*old(from_start)
                    &&& #[trigger] grown_in_turn(
                        space,
                        checker,
                        old(start_tree)@,
                        rooted,
                        final(start_tree)@,
                        final(goal_tree)@,
                        *old(from_start),
                        target,
                        max_distance,
                        found_models(found),
                    )
                }
        }),
{
    if goal_tree.len() == 0 {
        match goal.sample_goal(rng) {
            Ok(root) => {
                if !plant(checker, goal_tree, root) {
                    return None;
                }
                proof {
                    assert forall|i: int| 0 <= i < goal_tree@.len() implies {
                        &&& checker.spec_is_valid((#[trigger] goal_tree@[i]).state@)
                        &&& goal_tree@[i].parent matches Some(p) ==> motion_valid(
                            space,
                            checker,
                            goal_tree@[p as int].state@,
                            goal_tree@[i].state@,
                        )
                    } by {}
                }
            },
            Err(_) => {
                return None;
            },
        }
    }
    let ghost rooted = goal_tree@;
    match space.sample_uniform(rng) {
        Ok(target) => {
            let found = connect_step(
                space,
                checker,
                start_tree,
                goal_tree,
                from_start,
                &target,
                max_distance,
            );
            proof {
                assert(grown_in_turn(
                    space,
                    checker,
                    old(start_tree)@,
                    rooted,
                    start_tree@,
                    goal_tree@,
                    *old(from_start),
                    target@,
                    max_distance,
                    found_models(found),
                ));
            }
            found
        },
        Err(_) => None,
    }
}

/// Roots an empty tree in `state`, if the state is valid.
pub fn plant<S: State, VC: StateValidityChecker<S>>(
    checker: &VC,
    tree: &mut Vec<Node<S>>,
    state: S,
) -> (planted: bool)
    requires
        old(tree)@.len() == 0,
    ensures
        planted == checker.spec_is_valid(state@),
        planted ==> final(tree)@.len() == 1 && final(tree)@[0].state == state
            && final(tree)@[0].parent is None,
        !planted ==> final(tree)@ == old(tree)@,
        tree_wf(final(tree)@),
{
    if checker.is_valid(&state) {
        tree.push(Node { state, parent: None });
        true
    } else {
        false
    }
}

/// How the two trees stand after a round towards `target`: the near tree has
/// been asked to grow towards the target, and if it did, the far tree has
/// reached for the near tree's new node; else both are as they were.
pub open spec fn grown_towards<SP: StateSpace, VC: StateValidityChecker<SP::StateType>>(
    space: &SP,
    checker: &VC,
    near0: Seq<Node<SP::StateType>>,
    far0: Seq<Node<SP::StateType>>,
    near1: Seq<Node<SP::StateType>>,
    far1: Seq<Node<SP::StateType>>,
    target: ModelOf<SP::StateType>,
    max_distance: Length,
) -> bool {
    &&& node_models(near1) == spec_extended(
        space,
        checker,
        node_models(near0),
        target,
        max_distance,
    )
    &&& if spec_extend_status(space, checker, node_models(near0), target, max_distance)
        == ExtendStatus::Trapped {
        near1 == near0 && far1 == far0
    } else {
        node_models(far1) == spec_connected(
            space,
            checker,
            node_models(far0),
            node_models(near1).last(),
            max_distance,
        )
    }
}

/// Whether the two trees meet in a round towards `target`: the near tree
/// grows towards the target, and the far tree, reaching for the new node,
/// arrives at it.
pub open spec fn trees_meet<SP: StateSpace, VC: StateValidityChecker<SP::StateType>>(
    space: &SP,
    checker: &VC,
    near0: Seq<Node<SP::StateType>>,
    far0: Seq<Node<SP::StateType>>,
    target: ModelOf<SP::StateType>,
    max_distance: Length,
) -> bool {
    &&& spec_extend_status(space, checker, node_models(near0), target, max_distance)
        != ExtendStatus::Trapped
    &&& spec_connect_reaches(
        space,
        checker,
        node_models(far0),
        spec_extended(space, checker, node_models(near0), target, max_distance).last(),
        max_distance,
    )
}

/// One round of growth towards `target`, with the turn passing to the other
/// tree: the tree whose turn it is is extended towards the target, the other
/// reaches for the new node, and where it arrives, the two are stitched
/// together at that node into the path from the root of the start tree to
/// the root of the goal tree.
pub fn connect_step<SP: StateSpace, VC: StateValidityChecker<SP::StateType>>(
    space: &SP,
    checker: &VC,
    start_tree: &mut Vec<Node<SP::StateType>>,
    goal_tree: &mut Vec<Node<SP::StateType>>,
    from_start: &mut bool,
    target: &SP::StateType,
    max_distance: Length,
) -> (found: Option<Vec<SP::StateType>>)
    requires
        old(start_tree).len() > 0,
        tree_wf(old(start_tree)@),
        tree_sound(space, checker, old(start_tree)@),
        old(goal_tree).len() > 0,
        tree_wf(old(goal_tree)@),
        tree_sound(space, checker, old(goal_tree)@),
    ensures
        tree_wf(final(start_tree)@),
        tree_sound(space, checker, final(start_tree)@),
        tree_wf(final(goal_tree)@),
        tree_sound(space, checker, final(goal_tree)@),
        final(start_tree)@.len() >= old(start_tree)@.len(),
        final(goal_tree)@.len() >= old(goal_tree)@.len(),
        final(start_tree)@[0] == old(start_tree)@[0],
        final(goal_tree)@[0] == old(goal_tree)@[0],
        grown_from(final(start_tree)@, old(start_tree)@),
        grown_from(final(goal_tree)@, old(goal_tree)@),
        *final(from_start) == !*old(from_start),
        grown_in_turn(
            space,
            checker,
            old(start_tree)@,
            old(goal_tree)@,
            final(start_tree)@,
            final(goal_tree)@,
            *old(from_start),
            target@,
            max_distance,
            found_models(found),
        ),
        found matches Some(p) ==> {
            &&& meets_in_the_middle(space, checker, path_models(p@))
            &&& path_models(p@)[0] == final(start_tree)@[0].state@
            &&& path_models(p@).last() == final(goal_tree)@[0].state@
        },
{
    let link = if *from_start {
        grow_and_connect(space, checker, start_tree, goal_tree, target, max_distance)
    } else {
        match grow_and_connect(space, checker, goal_tree, start_tree, target, max_distance) {
            Some((i, j)) => Some((j, i)),
            None => None,
        }
    };
    *from_start = !*from_start;
    match link {
        Some((a, b)) => {
            proof {
                lemma_joined_branches(
                    space,
                    checker,
                    start_tree@,
                    a as int,
                    goal_tree@,
                    b as int,
                );
            }
            let joined = stitch(start_tree, a, goal_tree, b);
            proof {
                assert(bidirectional_path(
                    space,
                    checker,
                    path_models(joined@),
                    branch_states(start_tree@, a as int).len() as int,
                ));
            }
            Some(joined)
        },
        None => None,
    }
}

/// The points of the path that a round found, if it found one.
pub open spec fn found_models<S: State>(found: Option<Vec<S>>) -> Option<Seq<ModelOf<S>>> {
    match found {
        Some(path) => Some(path_models(path@)),
        None => None,
    }
}

/// How the two trees stand after a round towards `target`, and what the
/// round found: the tree whose turn it was has been asked to grow, the other
/// has reached for its new node, and a path was found if and only if it
/// arrived there: the branch of the start tree to the meeting point,
/// followed by the branch of the goal tree from there to its root.
pub open spec fn grown_in_turn<SP: StateSpace, VC: StateValidityChecker<SP::StateType>>(
    space: &SP,
    checker: &VC,
    start0: Seq<Node<SP::StateType>>,
    goal0: Seq<Node<SP::StateType>>,
    start1: Seq<Node<SP::StateType>>,
    goal1: Seq<Node<SP::StateType>>,
    from_start: bool,
    target: ModelOf<SP::StateType>,
    max_distance: Length,
    found: Option<Seq<ModelOf<SP::StateType>>>,
) -> bool {
    if from_start {
        &&& grown_towards(space, checker, start0, goal0, start1, goal1, target, max_distance)
        &&& found is Some <==> trees_meet(space, checker, start0, goal0, target, max_distance)
        &&& found matches Some(p) ==> p == branch_states(start1, start1.len() - 1) + backwards(
            branch_states(goal1, goal1.last().parent->0 as int),
        )
    } else {
        &&& grown_towards(space, checker, goal0, start0, goal1, start1, target, max_distance)
        &&& found is Some <==> trees_meet(space, checker, goal0, start0, target, max_distance)
        &&& found matches Some(p) ==> p == branch_states(
            start1,
            start1.last().parent->0 as int,
        ) + backwards(branch_states(goal1, goal1.len() - 1))
    }
}

/// Whether a tree has just been rooted in a valid state of the goal.
pub open spec fn newly_rooted<S: State, G: GoalSampleableRegion<S>, VC: StateValidityChecker<S>>(
    checker: &VC,
    goal: &G,
    before: Seq<Node<S>>,
    after: Seq<Node<S>>,
) -> bool {
    &&& before.len() == 0
    &&& after.len() == 1
    &&& after[0].parent is None
    &&& checker.spec_is_valid(after[0].state@)
    &&& goal.spec_is_satisfied(after[0].state@)
}

/// The bidirectional planner.
#[verifier::reject_recursive_types(S)]
#[verifier::reject_recursive_types(SP)]
#[verifier::reject_recursive_types(G)]
#[verifier::reject_recursive_types(VC)]
pub struct RRTConnect<
    S: State,
    SP: StateSpace<StateType = S>,
    G: GoalSampleableRegion<S>,
    VC: StateValidityChecker<S>,
> {
    /// The longest step by which a tree grows.
    pub max_distance: Length,
    problem_def: Option<Arc<ProblemDefinition<S, SP, G>>>,
    validity_checker: Option<Arc<VC>>,
    start_tree: Vec<Node<S>>,
    goal_tree: Vec<Node<S>>,
    /// Whether the next round extends the start tree.
    from_start: bool,
    rng: StdRng,
}

impl<
    S: State,
    SP: StateSpace<StateType = S>,
    G: GoalSampleableRegion<S>,
    VC: StateValidityChecker<S>,
> RRTConnect<S, SP, G, VC> {
    /// Whether `setup` has been called.
    pub open spec fn is_setup(&self) -> bool {
        self.spec_problem() is Some && self.spec_checker() is Some
    }

    pub closed spec fn spec_max_distance(&self) -> Length {
        self.max_distance
    }

    /// The tree rooted at the start.
    pub closed spec fn spec_start_tree(&self) -> Seq<Node<S>> {
        self.start_tree@
    }

    /// The tree rooted in the goal.
    pub closed spec fn spec_goal_tree(&self) -> Seq<Node<S>> {
        self.goal_tree@
    }

    /// The number of nodes in the tree rooted at the start.
    pub open spec fn spec_start_tree_size(&self) -> nat {
        self.spec_start_tree().len()
    }

    /// The number of nodes in the tree rooted in the goal.
    pub open spec fn spec_goal_tree_size(&self) -> nat {
        self.spec_goal_tree().len()
    }

    /// Both trees of a planner that has been set up are sound: the one grows
    /// from the start state, the other from a state that satisfies the goal,
    /// and every node is valid and joined to its parent by a valid motion.
    pub proof fn lemma_trees_are_sound(&self)
        requires
            self.wf(),
            self.is_setup(),
        ensures
            tree_wf(self.spec_start_tree()),
            tree_sound(
                &*self.spec_problem()->0.space,
                &*self.spec_checker()->0,
                self.spec_start_tree(),
            ),
            self.spec_start_tree().len() > 0 ==> self.spec_start_tree()[0].state@
                == self.spec_problem()->0.spec_start(),
            tree_wf(self.spec_goal_tree()),
            tree_sound(
                &*self.spec_problem()->0.space,
                &*self.spec_checker()->0,
                self.spec_goal_tree(),
            ),
            self.spec_goal_tree().len() > 0 ==> self.spec_problem()->0.goal.spec_is_satisfied(
                self.spec_goal_tree()[0].state@,
            ),
    {
    }

    /// A planner that has not been set up.
    pub fn new(max_distance: Length, config: &PlannerConfig) -> (planner: Self)
        ensures
            planner.wf(),
            !planner.is_setup(),
            planner.spec_problem() is None,
            planner.spec_checker() is None,
            planner.spec_max_distance() == max_distance,
            planner.spec_start_tree_size() == 0,
            planner.spec_goal_tree_size() == 0,
    {
        RRTConnect {
            max_distance,
            problem_def: None,
            validity_checker: None,
            start_tree: Vec::new(),
            goal_tree: Vec::new(),
            from_start: true,
            rng: rng_for(config.seed),
        }
    }

    /// The number of nodes in the tree rooted at the start.
    pub fn start_tree_size(&self) -> (n: usize)
        ensures
            n == self.spec_start_tree_size(),
    {
        self.start_tree.len()
    }

    /// The number of nodes in the tree rooted in the goal.
    pub fn goal_tree_size(&self) -> (n: usize)
        ensures
            n == self.spec_goal_tree_size(),
    {
        self.goal_tree.len()
    }
}

impl<
    S: State,
    SP: StateSpace<StateType = S>,
    G: GoalSampleableRegion<S>,
    VC: StateValidityChecker<S>,
> Planner<S, SP, G, VC> for RRTConnect<S, SP, G, VC> {
    /// Without a problem both trees are empty. With one, both are sound; the
    /// start tree, if it has a root, is rooted at the checked start state,
    /// and the goal tree, if it has one, in a state that satisfies the goal.
    closed spec fn wf(&self) -> bool {
        match (self.problem_def, self.validity_checker) {
            (Some(pd), Some(vc)) => {
                &&& tree_wf(self.start_tree@)
                &&& tree_sound(&*pd.space, &*vc, self.start_tree@)
                &&& self.start_tree@.len() > 0 ==> pd.start_ok(&*vc) && self.start_tree@[0].state@
                    == pd.spec_start()
                &&& tree_wf(self.goal_tree@)
                &&& tree_sound(&*pd.space, &*vc, self.goal_tree@)
                &&& self.goal_tree@.len() > 0 ==> pd.goal.spec_is_satisfied(
                    self.goal_tree@[0].state@,
                )
            },
            _ => self.start_tree@.len() == 0 && self.goal_tree@.len() == 0,
        }
    }

    closed spec fn spec_problem(&self) -> Option<Arc<ProblemDefinition<S, SP, G>>> {
        self.problem_def
    }

    closed spec fn spec_checker(&self) -> Option<Arc<VC>> {
        self.validity_checker
    }

    /// Stores the problem and the checker, and empties both trees.
    fn setup(&mut self, problem_def: Arc<ProblemDefinition<S, SP, G>>, validity_checker: Arc<VC>)
        ensures
            final(self).spec_start_tree_size() == 0,
            final(self).spec_goal_tree_size() == 0,
            final(self).spec_max_distance() == old(self).spec_max_distance(),
    {
        self.problem_def = Some(problem_def);
        self.validity_checker = Some(validity_checker);
        self.start_tree.clear();
        self.goal_tree.clear();
        self.from_start = true;
    }

    /// Grows the two trees in turn until one reaches the other, and returns
    /// the path through both.
    ///
    /// A start state that already satisfies the goal is answered at once
    /// with the path that holds it alone. Otherwise each round first looks
    /// at the clock and fails with `Timeout` once the budget is spent; the
    /// count of rounds is capped at `u64::MAX`, beyond which the planner
    /// reports `Timeout` as well. The goal tree is rooted in a valid state drawn from the goal;
    /// a round in which none can be had, or in which the space gives no
    /// sample, is passed over. In every other round the tree whose turn it is
    /// is extended towards a sample of the space, and the other tree reaches
    /// for the new node; where it arrives, the two trees are stitched
    /// together at that node.
    fn solve(&mut self, timeout: Duration) -> (result: Result<Path<S>, PlanningError>)
        ensures
            result matches Ok(path) ==> meets_in_the_middle(
                &*old(self).spec_problem()->0.space,
                &*old(self).spec_checker()->0,
                path.models(),
            ),
            result == Err::<Path<S>, PlanningError>(PlanningError::InvalidStartState) <==> (old(
                self,
            ).is_setup() && !old(self).spec_problem()->0.start_ok(&*old(self).spec_checker()->0)),
            result != Err::<Path<S>, PlanningError>(PlanningError::NoSolutionFound),
            final(self).spec_start_tree_size() >= old(self).spec_start_tree_size(),
            final(self).spec_goal_tree_size() >= old(self).spec_goal_tree_size(),
            final(self).spec_max_distance() == old(self).spec_max_distance(),
            grown_from(final(self).spec_start_tree(), old(self).spec_start_tree()),
            grown_from(final(self).spec_goal_tree(), old(self).spec_goal_tree()),
            !old(self).is_setup() ==> final(self).spec_start_tree() == old(self).spec_start_tree(),
            old(self).is_setup() && !old(self).spec_problem()->0.start_ok(
                &*old(self).spec_checker()->0,
            ) ==> final(self).spec_start_tree() == old(self).spec_start_tree(),
            old(self).is_setup() && old(self).spec_problem()->0.start_ok(
                &*old(self).spec_checker()->0,
            ) ==> {
                let problem = old(self).spec_problem()->0;
                let start_tree = final(self).spec_start_tree();
                let goal_tree = final(self).spec_goal_tree();
                &&& start_tree.len() > 0
                &&& start_tree[0].state@ == problem.spec_start()
                &&& goal_tree.len() > 0 ==> problem.goal.spec_is_satisfied(goal_tree[0].state@)
                &&& problem.goal.spec_is_satisfied(problem.spec_start()) ==> (result matches Ok(
                    path,
                ) && path.models() == seq![problem.spec_start()])
                &&& result matches Ok(path) ==> path.models()[0] == problem.spec_start() && (
                path.models().len() == 1 || (goal_tree.len() > 0 && path.models().last()
                    == goal_tree[0].state@))
            },
    {
        let pd = match &self.problem_def {
            Some(pd) => pd,
            None => {
                return Err(PlanningError::PlannerUninitialised);
            },
        };
        let vc = match &self.validity_checker {
            Some(vc) => vc,
            None => {
                return Err(PlanningError::PlannerUninitialised);
            },
        };
        let deadline = Deadline::start(&timeout);
        if self.start_tree.len() == 0 {
            if !pd.check_start(&**vc) {
                return Err(PlanningError::InvalidStartState);
            }
            let root = pd.start_states[0].clone_box();
            self.start_tree.push(Node { state: *root, parent: None });
        }
        if pd.goal.is_satisfied(&self.start_tree[0].state) {
            proof {
                lemma_branch_ends(self.start_tree@, 0);
                lemma_branch_is_valid(&*pd.space, &**vc, self.start_tree@, 0);
            }
            let states = extract_path(&self.start_tree, 0);
            let path = Path(states);
            proof {
                assert(path.models() == branch_states(self.start_tree@, 0));
                assert(path.models().len() == 1);
                assert(path.models() =~= seq![pd.spec_start()]);
                assert(bidirectional_path(&*pd.space, &**vc, path.models(), 1));
            }
            return Ok(path);
        }
        let mut rounds: u64 = 0;
        loop
            invariant
                self.problem_def == old(self).problem_def,
                self.validity_checker == old(self).validity_checker,
                self.max_distance == old(self).max_distance,
                self.problem_def == Some(*pd),
                self.validity_checker == Some(*vc),
                self.start_tree@.len() > 0,
                self.start_tree@.len() >= old(self).start_tree@.len(),
                self.goal_tree@.len() >= old(self).goal_tree@.len(),
                grown_from(self.start_tree@, old(self).start_tree@),
                grown_from(self.goal_tree@, old(self).goal_tree@),
                !pd.goal.spec_is_satisfied(pd.spec_start()),
                pd.start_ok(&**vc),
                self.wf(),
            decreases u64::MAX - rounds,
        {
            if deadline.expired() || rounds == u64::MAX {
                return Err(PlanningError::Timeout);
            }
            rounds = rounds + 1;
            match connect_round(
                &*pd.space,
                &**vc,
                &*pd.goal,
                &mut self.start_tree,
                &mut self.goal_tree,
                &mut self.from_start,
                &mut self.rng,
                self.max_distance,
            ) {
                Some(states) => {
                    let path = Path(states);
                    proof {
                        assert(path.models() == path_models(states@));
                    }
                    return Ok(path);
                },
                None => {},
            }
        }
    }
}

} // verus!
