//! RRT*: a tree that is rewired as it grows, so that the branches to its
//! nodes get cheaper with time.

use vstd::prelude::*;
use rand::rngs::StdRng;
use std::sync::Arc;
use std::time::Duration;
use crate::base::clock::Deadline;
use crate::base::error::PlanningError;
use crate::base::goal::{Goal, GoalSampleableRegion};
use crate::base::measure::{step_fraction, Fraction, Length};
use crate::base::planner::{is_directed_solution, path_length, Path, Planner, PlannerConfig};
use crate::base::problem_definition::ProblemDefinition;
use crate::base::random::{rng_for, Probability};
use crate::base::space::StateSpace;
use crate::base::state::{DynClone, ModelOf, State};
use crate::base::validity::StateValidityChecker;
use crate::geometric::motion::{check_motion, motion_valid};
use crate::geometric::sampling::draw_target;
use crate::geometric::star_tree::{
    add_length, capped, lemma_branch_length_is_path_length, lemma_cost_is_branch_length,
    lemma_star_branch_ends, lemma_star_branch_is_valid, link_ok, rewired, rewired_rank, sat_add,
    spec_cost, star_models, star_sound, StarNode, StarTree,
};
use crate::geometric::tree::{spec_nearest, steer};

verus! {

/// Whether `node` can become the parent of `new`: it is no farther than
/// `radius` from it, and the motion from it to `new` is valid.
pub open spec fn in_reach<SP: StateSpace, VC: StateValidityChecker<SP::StateType>>(
    space: &SP,
    checker: &VC,
    node: ModelOf<SP::StateType>,
    new: ModelOf<SP::StateType>,
    radius: Length,
) -> bool {
    space.spec_distance(node, new) <= radius && motion_valid(space, checker, node, new)
}

/// The indices, in rising order, of those of the first `upto` states that
/// have `new` in reach.
pub open spec fn spec_near<SP: StateSpace, VC: StateValidityChecker<SP::StateType>>(
    space: &SP,
    checker: &VC,
    states: Seq<ModelOf<SP::StateType>>,
    new: ModelOf<SP::StateType>,
    radius: Length,
    upto: int,
) -> Seq<usize>
    decreases upto,
{
    if upto <= 0 {
        Seq::empty()
    } else {
        let rest = spec_near(space, checker, states, new, radius, upto - 1);
        if in_reach(space, checker, states[upto - 1], new, radius) {
            rest.push((upto - 1) as usize)
        } else {
            rest
        }
    }
}

/// Every index in `spec_near` is below `upto` and has `new` in reach.
pub proof fn lemma_near<SP: StateSpace, VC: StateValidityChecker<SP::StateType>>(
    space: &SP,
    checker: &VC,
    states: Seq<ModelOf<SP::StateType>>,
    new: ModelOf<SP::StateType>,
    radius: Length,
    upto: int,
)
    requires
        0 <= upto <= states.len(),
        upto <= usize::MAX,
    ensures
        forall|k: int|
            0 <= k < spec_near(space, checker, states, new, radius, upto).len() ==> {
                let i = #[trigger] spec_near(space, checker, states, new, radius, upto)[k];
                i < upto && in_reach(space, checker, states[i as int], new, radius)
            },
    decreases upto,
{
    if upto > 0 {
        lemma_near(space, checker, states, new, radius, upto - 1);
        let rest = spec_near(space, checker, states, new, radius, upto - 1);
        let all = spec_near(space, checker, states, new, radius, upto);
        assert forall|k: int| 0 <= k < all.len() implies {
            let i = #[trigger] all[k];
            i < upto && in_reach(space, checker, states[i as int], new, radius)
        } by {
            if k < rest.len() {
                assert(all[k] == rest[k]);
            }
        }
    }
}

/// The cost of reaching `new` through node `i`.
pub open spec fn cost_through<SP: StateSpace>(
    space: &SP,
    tree: &StarTree<SP::StateType>,
    new: ModelOf<SP::StateType>,
    i: int,
) -> u128 {
    sat_add(tree.cost(i), space.spec_distance(tree.nodes@[i].state@, new))
}

/// Whether `b` is the parent to choose among `near`: none of them gives a
/// cheaper way to `new`, and those with a lower index give a dearer one.
pub open spec fn is_best_parent<SP: StateSpace>(
    space: &SP,
    tree: &StarTree<SP::StateType>,
    new: ModelOf<SP::StateType>,
    near: Seq<usize>,
    b: usize,
) -> bool {
    &&& near.contains(b)
    &&& forall|k: int|
        0 <= k < near.len() ==> {
            &&& cost_through(space, tree, new, b as int) <= cost_through(
                space,
                tree,
                new,
                (#[trigger] near[k]) as int,
            )
            &&& near[k] < b ==> cost_through(space, tree, new, b as int) < cost_through(
                space,
                tree,
                new,
                near[k] as int,
            )
        }
}

/// The nodes that a new state can hang from, and the one chosen among them.
pub struct ParentChoice {
    /// The nodes that have the new state in reach, in rising order.
    pub near: Vec<usize>,
    /// The chosen parent; `None` where `near` is empty.
    pub parent: Option<usize>,
    /// The length of the edge from the chosen parent.
    pub edge: Length,
}

/// Finds the nodes that have `new` in reach and, among them, the parent
/// through which `new` is cheapest to reach, the lowest index among equals.
pub fn choose_parent<SP: StateSpace, VC: StateValidityChecker<SP::StateType>>(
    space: &SP,
    checker: &VC,
    tree: &StarTree<SP::StateType>,
    new: &SP::StateType,
    radius: Length,
) -> (choice: ParentChoice)
    requires
        tree.wf(),
    ensures
        choice.near@ == spec_near(
            space,
            checker,
            star_models(tree.nodes@),
            new@,
            radius,
            tree.nodes@.len() as int,
        ),
        match choice.parent {
            None => choice.near@.len() == 0,
            Some(b) => {
                &&& is_best_parent(space, tree, new@, choice.near@, b)
                &&& b < tree.nodes@.len()
                &&& choice.edge == space.spec_distance(tree.nodes@[b as int].state@, new@)
            },
        },
{
    let ghost states = star_models(tree.nodes@);
    let mut near: Vec<usize> = Vec::new();
    let mut parent: Option<usize> = None;
    let mut edge: Length = 0;
    let mut best: u128 = 0;
    let mut i: usize = 0;
    while i < tree.nodes.len()
        invariant
            tree.wf(),
            i <= tree.nodes@.len(),
            states == star_models(tree.nodes@),
            near@ == spec_near(space, checker, states, new@, radius, i as int),
            forall|k: int| 0 <= k < near@.len() ==> #[trigger] near@[k] < i,
            parent is None ==> near@.len() == 0,
            parent matches Some(b) ==> {
                &&& is_best_parent(space, tree, new@, near@, b)
                &&& b < i
                &&& best == cost_through(space, tree, new@, b as int)
                &&& edge == space.spec_distance(tree.nodes@[b as int].state@, new@)
            },
        decreases tree.nodes@.len() - i,
    {
        let d: Length = space.distance(&tree.nodes[i].state, new);
        if d <= radius && check_motion(space, checker, &tree.nodes[i].state, new) {
            let ghost near0 = near@;
            near.push(i);
            let through: u128 = add_length(tree.cost_of(i), d);
            let better: bool = match parent {
                None => true,
                Some(_) => through < best,
            };
            if better {
                parent = Some(i);
                edge = d;
                best = through;
                proof {
                    assert(near@[near@.len() - 1] == i);
                    assert forall|k: int| 0 <= k < near@.len() implies {
                        &&& cost_through(space, tree, new@, i as int) <= cost_through(
                            space,
                            tree,
                            new@,
                            (#[trigger] near@[k]) as int,
                        )
                        &&& near@[k] < i ==> cost_through(space, tree, new@, i as int)
                            < cost_through(space, tree, new@, near@[k] as int)
                    } by {
                        if k < near0.len() {
                            assert(near@[k] == near0[k]);
                        }
                    }
                }
            } else {
                proof {
                    let b = parent->0;
                    let pos = choose|pos: int| 0 <= pos < near0.len() && near0[pos] == b;
                    assert(near@[pos] == b);
                    assert forall|k: int| 0 <= k < near@.len() implies {
                        &&& cost_through(space, tree, new@, b as int) <= cost_through(
                            space,
                            tree,
                            new@,
                            (#[trigger] near@[k]) as int,
                        )
                        &&& near@[k] < b ==> cost_through(space, tree, new@, b as int)
                            < cost_through(space, tree, new@, near@[k] as int)
                    } by {
                        if k < near0.len() {
                            assert(near@[k] == near0[k]);
                        }
                    }
                }
            }
        }
        i = i + 1;
    }
    ParentChoice { near, parent, edge }
}

/// Scans the tree for the node nearest to `target`.
pub fn nearest_node<SP: StateSpace>(
    space: &SP,
    tree: &StarTree<SP::StateType>,
    target: &SP::StateType,
) -> (k: usize)
    requires
        tree.nodes@.len() > 0,
    ensures
        k == spec_nearest(space, star_models(tree.nodes@), target@, tree.nodes@.len() as int),
        k < tree.nodes@.len(),
{
    let mut best: usize = 0;
    let mut best_distance: Length = space.distance(&tree.nodes[0].state, target);
    let mut n: usize = 1;
    while n < tree.nodes.len()
        invariant
            1 <= n <= tree.nodes@.len(),
            best < n,
            best == spec_nearest(space, star_models(tree.nodes@), target@, n as int),
            best_distance == space.spec_distance(tree.nodes@[best as int].state@, target@),
        decreases tree.nodes@.len() - n,
    {
        let d: Length = space.distance(&tree.nodes[n].state, target);
        if d < best_distance {
            best = n;
            best_distance = d;
        }
        n = n + 1;
    }
    best
}

/// Whether node `j` takes the node `new_index` as its parent when offered:
/// it is neither that node nor the parent of that node, it gets cheaper to
/// reach, and the motion from the new node to it is valid.
pub open spec fn takes_parent<SP: StateSpace, VC: StateValidityChecker<SP::StateType>>(
    space: &SP,
    checker: &VC,
    nodes: Seq<StarNode<SP::StateType>>,
    rank: Seq<nat>,
    j: int,
    new_index: int,
    parent: int,
) -> bool {
    &&& j != parent
    &&& j != new_index
    &&& sat_add(
        spec_cost(nodes, rank, new_index),
        space.spec_distance(nodes[new_index].state@, nodes[j].state@),
    ) < spec_cost(nodes, rank, j)
    &&& motion_valid(space, checker, nodes[new_index].state@, nodes[j].state@)
}

/// The tree after the node `new_index` has been offered as a parent to the
/// first `k` of `near`, one after another: its nodes and their ranks.
pub open spec fn rewired_upto<SP: StateSpace, VC: StateValidityChecker<SP::StateType>>(
    space: &SP,
    checker: &VC,
    nodes: Seq<StarNode<SP::StateType>>,
    rank: Seq<nat>,
    near: Seq<usize>,
    new_index: usize,
    parent: usize,
    k: nat,
) -> (Seq<StarNode<SP::StateType>>, Seq<nat>)
    decreases k,
{
    if k == 0 {
        (nodes, rank)
    } else {
        let before = rewired_upto(
            space,
            checker,
            nodes,
            rank,
            near,
            new_index,
            parent,
            (k - 1) as nat,
        );
        let j = near[k - 1] as int;
        if takes_parent(space, checker, before.0, before.1, j, new_index as int, parent as int) {
            (
                rewired(
                    before.0,
                    j,
                    new_index,
                    space.spec_distance(before.0[new_index as int].state@, before.0[j].state@),
                ),
                rewired_rank(before.0, before.1, j, new_index),
            )
        } else {
            before
        }
    }
}

/// Offers the node `new_index` as a parent to each of `near` but its own
/// parent, in the order of `near`: a node takes it where that makes the node
/// cheaper to reach and the motion from the new node to it is valid. No cost
/// rises, and the cost of the new node stays as it is.
pub fn rewire_near<SP: StateSpace, VC: StateValidityChecker<SP::StateType>>(
    space: &SP,
    checker: &VC,
    tree: &mut StarTree<SP::StateType>,
    near: &Vec<usize>,
    new_index: usize,
    parent: usize,
)
    requires
        old(tree).wf(),
        star_sound(space, checker, old(tree).nodes@),
        new_index < old(tree).nodes@.len(),
        forall|k: int| 0 <= k < near@.len() ==> #[trigger] near@[k] < old(tree).nodes@.len(),
    ensures
        final(tree).wf(),
        star_sound(space, checker, final(tree).nodes@),
        final(tree).nodes@.len() == old(tree).nodes@.len(),
        forall|x: int|
            0 <= x < old(tree).nodes@.len() ==> (#[trigger] final(tree).nodes@[x]).state
                == old(tree).nodes@[x].state,
        forall|x: int|
            0 <= x < old(tree).nodes@.len() ==> #[trigger] final(tree).cost(x) <= old(tree).cost(x),
        final(tree).cost(new_index as int) == old(tree).cost(new_index as int),
        final(tree).nodes@[new_index as int] == old(tree).nodes@[new_index as int],
        forall|x: int|
            0 <= x < old(tree).nodes@.len() ==> {
                ||| #[trigger] final(tree).nodes@[x] == old(tree).nodes@[x]
                ||| (near@.contains(x as usize) && x != parent && final(tree).nodes@[x].parent
                    == Some(new_index) && final(tree).cost(x) < old(tree).cost(x))
            },
        (final(tree).nodes@, final(tree).rank@) == rewired_upto(
            space,
            checker,
            old(tree).nodes@,
            old(tree).rank@,
            near@,
            new_index,
            parent,
            near@.len(),
        ),
{
    let mut k: usize = 0;
    while k < near.len()
        invariant
            k <= near@.len(),
            tree.wf(),
            star_sound(space, checker, tree.nodes@),
            tree.nodes@.len() == old(tree).nodes@.len(),
            new_index < tree.nodes@.len(),
            forall|m: int| 0 <= m < near@.len() ==> #[trigger] near@[m] < old(tree).nodes@.len(),
            forall|x: int|
                0 <= x < old(tree).nodes@.len() ==> (#[trigger] tree.nodes@[x]).state
                    == old(tree).nodes@[x].state,
            forall|x: int|
                0 <= x < old(tree).nodes@.len() ==> #[trigger] tree.cost(x) <= old(tree).cost(x),
            tree.cost(new_index as int) == old(tree).cost(new_index as int),
            tree.nodes@[new_index as int] == old(tree).nodes@[new_index as int],
            forall|x: int|
                0 <= x < old(tree).nodes@.len() ==> {
                    ||| #[trigger] tree.nodes@[x] == old(tree).nodes@[x]
                    ||| (near@.contains(x as usize) && x != parent && tree.nodes@[x].parent == Some(
                        new_index,
                    ) && tree.cost(x) < old(tree).cost(x))
                },
            (tree.nodes@, tree.rank@) == rewired_upto(
                space,
                checker,
                old(tree).nodes@,
                old(tree).rank@,
                near@,
                new_index,
                parent,
                k as nat,
            ),
        decreases near@.len() - k,
    {
        let j: usize = near[k];
        if j != parent && j != new_index {
            let d: Length = space.distance(&tree.nodes[new_index].state, &tree.nodes[j].state);
            let through: u128 = add_length(tree.cost_of(new_index), d);
            if through < tree.cost_of(j) && check_motion(
                space,
                checker,
                &tree.nodes[new_index].state,
                &tree.nodes[j].state,
            ) {
                let ghost before = *tree;
                proof {
                    assert(!link_ok(before.nodes@, before.rank@, 0));
                    assert(j != 0);
                }
                tree.rewire(j, new_index, d);
                proof {
                    let after = tree.nodes@;
                    assert forall|i: int| 0 <= i < after.len() implies {
                        &&& checker.spec_is_valid((#[trigger] after[i]).state@)
                        &&& (after[i].parent is Some && after[i].parent->0 < after.len()) ==> {
                            let p = after[i].parent->0 as int;
                            &&& motion_valid(space, checker, after[p].state@, after[i].state@)
                            &&& after[i].edge == space.spec_distance(
                                after[p].state@,
                                after[i].state@,
                            )
                        }
                    } by {
                        assert(after[i].state == before.nodes@[i].state);
                        if i != j {
                            assert(after[i] == before.nodes@[i]);
                            if after[i].parent is Some && after[i].parent->0 < after.len() {
                                let p = after[i].parent->0 as int;
                                assert(after[p].state == before.nodes@[p].state);
                            }
                        }
                    }
                    assert forall|x: int| 0 <= x < old(tree).nodes@.len() implies #[trigger] tree.cost(
                        x,
                    ) <= old(tree).cost(x) by {
                        assert(tree.cost(x) <= before.cost(x));
                        assert(before.cost(x) <= old(tree).cost(x));
                    }
                    assert forall|x: int| 0 <= x < old(tree).nodes@.len() implies (
                    #[trigger] tree.nodes@[x]).state == old(tree).nodes@[x].state by {
                        assert(before.nodes@[x].state == old(tree).nodes@[x].state);
                    }
                    assert(near@[k as int] == j);
                    assert forall|x: int| 0 <= x < old(tree).nodes@.len() implies {
                        ||| #[trigger] tree.nodes@[x] == old(tree).nodes@[x]
                        ||| (near@.contains(x as usize) && x != parent && tree.nodes@[x].parent
                            == Some(new_index) && tree.cost(x) < old(tree).cost(x))
                    } by {
                        assert(before.cost(x) <= old(tree).cost(x));
                        if x != j {
                            assert(tree.nodes@[x] == before.nodes@[x]);
                            if before.nodes@[x] != old(tree).nodes@[x] {
                                assert(tree.cost(x) <= before.cost(x));
                            }
                        }
                    }
                }
            }
        }
        k = k + 1;
    }
}

/// Grows the tree towards `target`: steps towards it from the nearest node,
/// and if the new state is valid and some node has it in reach, hangs it from
/// the best parent and offers it as a parent to the others in reach. Answers
/// the index of the new node, if one was added.
///
/// The nodes that were there keep their states, and none of them gets dearer
/// to reach: the cheapest known way to the goal never gets dearer.
pub fn star_step<SP: StateSpace, VC: StateValidityChecker<SP::StateType>>(
    space: &SP,
    checker: &VC,
    tree: &mut StarTree<SP::StateType>,
    target: &SP::StateType,
    max_distance: Length,
    search_radius: Length,
) -> (added: Option<usize>)
    requires
        old(tree).wf(),
        star_sound(space, checker, old(tree).nodes@),
        old(tree).nodes@.len() > 0,
    ensures
        final(tree).wf(),
        star_sound(space, checker, final(tree).nodes@),
        forall|x: int|
            0 <= x < old(tree).nodes@.len() ==> (#[trigger] final(tree).nodes@[x]).state == old(
                tree,
            ).nodes@[x].state,
        forall|x: int|
            0 <= x < old(tree).nodes@.len() ==> #[trigger] final(tree).cost(x) <= old(tree).cost(x),
        grown_by_step(
            space,
            checker,
            &*old(tree),
            &*final(tree),
            target@,
            max_distance,
            search_radius,
            added,
        ),
{
    let k: usize = nearest_node(space, tree, target);
    let d: Length = space.distance(&tree.nodes[k].state, target);
    let t: Fraction = step_fraction(max_distance, d);
    let mut candidate = *tree.nodes[k].state.clone_box();
    space.interpolate(&tree.nodes[k].state, target, t, &mut candidate);
    if !checker.is_valid(&candidate) {
        return None;
    }
    let choice = choose_parent(space, checker, tree, &candidate, search_radius);
    let parent: usize = match choice.parent {
        Some(p) => p,
        None => {
            return None;
        },
    };
    let ghost before = *tree;
    let ghost new_model = candidate@;
    let size: usize = tree.len();
    proof {
        assert(before.nodes@.len() == size);
        lemma_near(
            space,
            checker,
            star_models(before.nodes@),
            new_model,
            search_radius,
            before.nodes@.len() as int,
        );
        let pos = choose|pos: int| 0 <= pos < choice.near@.len() && choice.near@[pos] == parent;
        assert(in_reach(
            space,
            checker,
            star_models(before.nodes@)[choice.near@[pos] as int],
            new_model,
            search_radius,
        ));
    }
    let index: usize = tree.insert(candidate, parent, choice.edge);
    proof {
        let after = tree.nodes@;
        assert forall|i: int| 0 <= i < after.len() implies {
            &&& checker.spec_is_valid((#[trigger] after[i]).state@)
            &&& (after[i].parent is Some && after[i].parent->0 < after.len()) ==> {
                let p = after[i].parent->0 as int;
                &&& motion_valid(space, checker, after[p].state@, after[i].state@)
                &&& after[i].edge == space.spec_distance(after[p].state@, after[i].state@)
            }
        } by {
            if i < before.nodes@.len() {
                assert(after[i] == before.nodes@[i]);
                assert(link_ok(before.nodes@, before.rank@, i) || i == 0);
                if i > 0 {
                    assert(after[after[i].parent->0 as int] == before.nodes@[after[i].parent->0 as int]);
                }
            } else {
                assert(after[parent as int] == before.nodes@[parent as int]);
            }
        }
        assert forall|m: int| 0 <= m < choice.near@.len() implies #[trigger] choice.near@[m]
            < tree.nodes@.len() by {}
    }
    let ghost grown = *tree;
    rewire_near(space, checker, tree, &choice.near, index, parent);
    proof {
        assert forall|x: int| 0 <= x < before.nodes@.len() implies (#[trigger] tree.nodes@[x]).state
            == before.nodes@[x].state by {
            assert(grown.nodes@[x] == before.nodes@[x]);
        }
        assert forall|x: int| 0 <= x < before.nodes@.len() implies #[trigger] tree.cost(x)
            <= before.cost(x) by {
            assert(tree.cost(x) <= grown.cost(x));
            assert(grown.cost(x) == before.cost(x));
        }
        assert(tree.nodes@[size as int] == grown.nodes@[size as int]);
        assert(grown.nodes@ == before.nodes@.push(tree.nodes@[size as int]));
        assert(grown.rank@ == before.rank@.push(before.rank@[parent as int] + 1));
    }
    Some(index)
}

/// One round of the planner: draws a target and grows the tree towards it
/// as `star_step` says. A round in which neither the goal nor the space
/// gives a state leaves the tree as it was.
fn star_round<
    SP: StateSpace,
    G: GoalSampleableRegion<SP::StateType>,
    VC: StateValidityChecker<SP::StateType>,
>(
    space: &SP,
    checker: &VC,
    goal: &G,
    tree: &mut StarTree<SP::StateType>,
    rng: &mut StdRng,
    max_distance: Length,
    goal_bias: &Probability,
    search_radius: Length,
)
    requires
        old(tree).wf(),
        star_sound(space, checker, old(tree).nodes@),
        old(tree).nodes@.len() > 0,
    ensures
        final(tree).wf(),
        star_sound(space, checker, final(tree).nodes@),
        final(tree).nodes@.len() >= old(tree).nodes@.len(),
        forall|x: int|
            0 <= x < old(tree).nodes@.len() ==> (#[trigger] final(tree).nodes@[x]).state == old(
                tree,
            ).nodes@[x].state,
        forall|x: int|
            0 <= x < old(tree).nodes@.len() ==> #[trigger] final(tree).cost(x) <= old(tree).cost(x),
        *final(tree) == *old(tree) || exists|target: ModelOf<SP::StateType>, added: Option<usize>|
            {
                &&& space.spec_satisfies_bounds(target) || goal.spec_is_satisfied(target)
                &&& #[trigger] grown_by_step(
                    space,
                    checker,
                    &*old(tree),
                    &*final(tree),
                    target,
                    max_distance,
                    search_radius,
                    added,
                )
            },
{
    match draw_target(space, goal, rng, goal_bias) {
        Some(target) => {
            let added = star_step(space, checker, tree, &target, max_distance, search_radius);
            proof {
                assert(grown_by_step(
                    space,
                    checker,
                    &*old(tree),
                    &*tree,
                    target@,
                    max_distance,
                    search_radius,
                    added,
                ));
            }
        },
        None => {},
    }
}

/// How a tree stands after it has been grown towards `target`, and what the
/// growing answered: nothing was added if the new state is invalid or no node
/// has it in reach, and then the tree is as it was; else the new state hangs
/// from the best parent, and the nodes in reach have been offered it as
/// theirs, one after another.
pub open spec fn grown_by_step<SP: StateSpace, VC: StateValidityChecker<SP::StateType>>(
    space: &SP,
    checker: &VC,
    before: &StarTree<SP::StateType>,
    after: &StarTree<SP::StateType>,
    target: ModelOf<SP::StateType>,
    max_distance: Length,
    search_radius: Length,
    added: Option<usize>,
) -> bool {
    let states = star_models(before.nodes@);
    let size = before.nodes@.len() as int;
    let from = states[spec_nearest(space, states, target, size)];
    let candidate = steer(space, from, target, max_distance);
    let near = spec_near(space, checker, states, candidate, search_radius, size);
    match added {
        None => {
            &&& !checker.spec_is_valid(candidate) || near.len() == 0
            &&& after.nodes@ == before.nodes@
        },
        Some(i) => {
            &&& checker.spec_is_valid(candidate)
            &&& i == size
            &&& after.nodes@.len() == size + 1
            &&& after.nodes@[size].state@ == candidate
            &&& after.nodes@[size].parent is Some
            &&& is_best_parent(
                space,
                before,
                candidate,
                near,
                after.nodes@[size].parent->0,
            )
            &&& after.cost(size) == cost_through(
                space,
                before,
                candidate,
                after.nodes@[size].parent->0 as int,
            )
            &&& after.nodes@[size].edge == space.spec_distance(
                states[after.nodes@[size].parent->0 as int],
                candidate,
            )
            &&& (after.nodes@, after.rank@) == rewired_upto(
                space,
                checker,
                before.nodes@.push(after.nodes@[size]),
                before.rank@.push(
                    before.rank@[after.nodes@[size].parent->0 as int] + 1,
                ),
                near,
                i,
                after.nodes@[size].parent->0,
                near.len(),
            )
        },
    }
}

/// Whether node `b` is the cheapest to reach among the nodes that satisfy
/// the goal, and the first among the equally cheap.
pub open spec fn is_best_goal_node<S: State, G: Goal<S>>(goal: &G, tree: &StarTree<S>, b: int) -> bool {
    &&& 0 <= b < tree.nodes@.len()
    &&& goal.spec_is_satisfied(tree.nodes@[b].state@)
    &&& forall|x: int|
        0 <= x < tree.nodes@.len() && goal.spec_is_satisfied((#[trigger] tree.nodes@[x]).state@)
            ==> tree.cost(b) <= tree.cost(x) && (x < b ==> tree.cost(b) < tree.cost(x))
}

/// Finds the cheapest node that satisfies the goal, the first among equals.
pub fn best_goal_node<S: State, G: Goal<S>>(goal: &G, tree: &StarTree<S>) -> (best: Option<usize>)
    requires
        tree.wf(),
    ensures
        match best {
            Some(b) => is_best_goal_node(goal, tree, b as int),
            None => forall|x: int|
                0 <= x < tree.nodes@.len() ==> !goal.spec_is_satisfied(
                    (#[trigger] tree.nodes@[x]).state@,
                ),
        },
{
    let mut best: Option<usize> = None;
    let mut best_cost: u128 = 0;
    let mut i: usize = 0;
    while i < tree.nodes.len()
        invariant
            tree.wf(),
            i <= tree.nodes@.len(),
            best is None ==> forall|x: int|
                0 <= x < i ==> !goal.spec_is_satisfied((#[trigger] tree.nodes@[x]).state@),
            best matches Some(b) ==> {
                &&& b < i
                &&& goal.spec_is_satisfied(tree.nodes@[b as int].state@)
                &&& best_cost == tree.cost(b as int)
                &&& forall|x: int|
                    0 <= x < i && goal.spec_is_satisfied((#[trigger] tree.nodes@[x]).state@)
                        ==> tree.cost(b as int) <= tree.cost(x) && (x < b ==> tree.cost(b as int)
                        < tree.cost(x))
            },
        decreases tree.nodes@.len() - i,
    {
        if goal.is_satisfied(&tree.nodes[i].state) {
            let cost: u128 = tree.cost_of(i);
            let better: bool = match best {
                None => true,
                Some(_) => cost < best_cost,
            };
            if better {
                best = Some(i);
                best_cost = cost;
            }
        }
        i = i + 1;
    }
    best
}

/// The cheapest known way to the goal never gets dearer: if the nodes of a
/// tree keep their states and none of them gets dearer to reach, then the
/// best goal node of the later tree costs no more than that of the earlier.
pub proof fn lemma_best_cost_never_rises<S: State, G: Goal<S>>(
    goal: &G,
    earlier: &StarTree<S>,
    later: &StarTree<S>,
    b0: int,
    b1: int,
)
    requires
        earlier.nodes@.len() <= later.nodes@.len(),
        forall|x: int|
            0 <= x < earlier.nodes@.len() ==> (#[trigger] later.nodes@[x]).state@
                == earlier.nodes@[x].state@,
        forall|x: int| 0 <= x < earlier.nodes@.len() ==> #[trigger] later.cost(x) <= earlier.cost(x),
        is_best_goal_node(goal, earlier, b0),
        is_best_goal_node(goal, later, b1),
    ensures
        later.cost(b1) <= earlier.cost(b0),
{
    assert(later.nodes@[b0].state@ == earlier.nodes@[b0].state@);
    assert(later.cost(b0) <= earlier.cost(b0));
}

/// The asymptotically optimal planner.
#[verifier::reject_recursive_types(S)]
#[verifier::reject_recursive_types(SP)]
#[verifier::reject_recursive_types(G)]
#[verifier::reject_recursive_types(VC)]
pub struct RRTStar<
    S: State,
    SP: StateSpace<StateType = S>,
    G: GoalSampleableRegion<S>,
    VC: StateValidityChecker<S>,
> {
    /// The longest step by which the tree grows.
    pub max_distance: Length,
    /// The chance of growing towards a state of the goal.
    pub goal_bias: Probability,
    /// Nodes no farther than this from a new state can become its parent
    /// or take it as theirs.
    pub search_radius: Length,
    problem_def: Option<Arc<ProblemDefinition<S, SP, G>>>,
    validity_checker: Option<Arc<VC>>,
    tree: StarTree<S>,
    rng: StdRng,
}

impl<
    S: State,
    SP: StateSpace<StateType = S>,
    G: GoalSampleableRegion<S>,
    VC: StateValidityChecker<S>,
> RRTStar<S, SP, G, VC> {
    /// Whether `setup` has been called.
    pub open spec fn is_setup(&self) -> bool {
        self.spec_problem() is Some && self.spec_checker() is Some
    }

    /// The tree grown so far.
    pub closed spec fn spec_tree(&self) -> StarTree<S> {
        self.tree
    }

    pub closed spec fn spec_max_distance(&self) -> Length {
        self.max_distance
    }

    pub closed spec fn spec_search_radius(&self) -> Length {
        self.search_radius
    }

    /// The chance of growing towards a state of the goal.
    pub closed spec fn spec_goal_bias(&self) -> Probability {
        self.goal_bias
    }

    /// The tree of a planner that has been set up grows from the start
    /// state, every node of it is valid and joined to its parent by a valid
    /// motion, and every edge has the length of its motion, so that the cost
    /// of a node is the length of the path to it.
    pub proof fn lemma_tree_is_sound(&self)
        requires
            self.wf(),
            self.is_setup(),
        ensures
            self.spec_tree().wf(),
            star_sound(
                &*self.spec_problem()->0.space,
                &*self.spec_checker()->0,
                self.spec_tree().nodes@,
            ),
            self.spec_tree().nodes@.len() > 0 ==> self.spec_tree().nodes@[0].state@
                == self.spec_problem()->0.spec_start(),
    {
    }

    /// A planner that has not been set up.
    pub fn new(
        max_distance: Length,
        goal_bias: Probability,
        search_radius: Length,
        config: &PlannerConfig,
    ) -> (planner: Self)
        ensures
            planner.wf(),
            !planner.is_setup(),
            planner.spec_problem() is None,
            planner.spec_checker() is None,
            planner.spec_max_distance() == max_distance,
            planner.spec_search_radius() == search_radius,
            planner.spec_goal_bias() == goal_bias,
            planner.spec_tree().nodes@.len() == 0,
    {
        RRTStar {
            max_distance,
            goal_bias,
            search_radius,
            problem_def: None,
            validity_checker: None,
            tree: StarTree::new(),
            rng: rng_for(config.seed),
        }
    }

    /// The number of nodes in the tree.
    pub fn tree_size(&self) -> (n: usize)
        ensures
            n == self.spec_tree().nodes@.len(),
    {
        self.tree.len()
    }
}

impl<
    S: State,
    SP: StateSpace<StateType = S>,
    G: GoalSampleableRegion<S>,
    VC: StateValidityChecker<S>,
> Planner<S, SP, G, VC> for RRTStar<S, SP, G, VC> {
    /// Without a problem the tree is empty. With one, the tree is sound, and
    /// if it has a root, the root is the start state, which was checked.
    closed spec fn wf(&self) -> bool {
        &&& self.tree.wf()
        &&& match (self.problem_def, self.validity_checker) {
            (Some(pd), Some(vc)) => {
                &&& star_sound(&*pd.space, &*vc, self.tree.nodes@)
                &&& self.tree.nodes@.len() > 0 ==> pd.start_ok(&*vc)
                    && self.tree.nodes@[0].state@ == pd.spec_start()
            },
            _ => self.tree.nodes@.len() == 0,
        }
    }

    closed spec fn spec_problem(&self) -> Option<Arc<ProblemDefinition<S, SP, G>>> {
        self.problem_def
    }

    closed spec fn spec_checker(&self) -> Option<Arc<VC>> {
        self.validity_checker
    }

    /// Stores the problem and the checker, and empties the tree.
    fn setup(&mut self, problem_def: Arc<ProblemDefinition<S, SP, G>>, validity_checker: Arc<VC>)
        ensures
            final(self).spec_tree().nodes@.len() == 0,
            final(self).spec_max_distance() == old(self).spec_max_distance(),
            final(self).spec_search_radius() == old(self).spec_search_radius(),
            final(self).spec_goal_bias() == old(self).spec_goal_bias(),
    {
        self.problem_def = Some(problem_def);
        self.validity_checker = Some(validity_checker);
        self.tree.clear();
    }

    /// Grows and rewires the tree until the budget is spent, then returns
    /// the branch to the cheapest node that satisfies the goal, or
    /// `NoSolutionFound` if no node does.
    ///
    /// The clock is read before each round, and the count of rounds is
    /// capped at `u64::MAX`. The tree is kept, so that a later call goes on
    /// from it.
    fn solve(&mut self, timeout: Duration) -> (result: Result<Path<S>, PlanningError>)
        ensures
            final(self).spec_max_distance() == old(self).spec_max_distance(),
            final(self).spec_search_radius() == old(self).spec_search_radius(),
            final(self).spec_goal_bias() == old(self).spec_goal_bias(),
            final(self).spec_tree().nodes@.len() >= old(self).spec_tree().nodes@.len(),
            !old(self).is_setup() ==> final(self).spec_tree() == old(self).spec_tree(),
            old(self).is_setup() && !old(self).spec_problem()->0.start_ok(
                &*old(self).spec_checker()->0,
            ) ==> final(self).spec_tree() == old(self).spec_tree(),
            old(self).is_setup() && old(self).spec_problem()->0.start_ok(
                &*old(self).spec_checker()->0,
            ) ==> {
                let problem = old(self).spec_problem()->0;
                let tree = final(self).spec_tree();
                &&& tree.nodes@.len() > 0
                &&& tree.nodes@[0].state@ == problem.spec_start()
                &&& (result is Ok <==> exists|x: int|
                    0 <= x < tree.nodes@.len() && problem.goal.spec_is_satisfied(
                        (#[trigger] tree.nodes@[x]).state@,
                    ))
                &&& problem.goal.spec_is_satisfied(problem.spec_start()) ==> result is Ok
            },
            forall|x: int|
                0 <= x < old(self).spec_tree().nodes@.len() ==> (
                #[trigger] final(self).spec_tree().nodes@[x]).state
                    == old(self).spec_tree().nodes@[x].state,
            old(self).is_setup() && old(self).spec_problem()->0.start_ok(
                &*old(self).spec_checker()->0,
            ) ==> forall|b0: int, b1: int|
                #![trigger
                    is_best_goal_node(&*old(self).spec_problem()->0.goal, &old(self).spec_tree(), b0),
                    is_best_goal_node(&*old(self).spec_problem()->0.goal, &final(self).spec_tree(), b1),
                ]
                is_best_goal_node(&*old(self).spec_problem()->0.goal, &old(self).spec_tree(), b0)
                    && is_best_goal_node(
                    &*old(self).spec_problem()->0.goal,
                    &final(self).spec_tree(),
                    b1,
                ) ==> final(self).spec_tree().cost(b1) <= old(self).spec_tree().cost(b0),
            result == Err::<Path<S>, PlanningError>(PlanningError::InvalidStartState) <==> (old(
                self,
            ).is_setup() && !old(self).spec_problem()->0.start_ok(&*old(self).spec_checker()->0)),
            result != Err::<Path<S>, PlanningError>(PlanningError::Timeout),
            result matches Ok(path) ==> {
                &&& is_directed_solution(
                    &*old(self).spec_problem()->0,
                    &*old(self).spec_checker()->0,
                    path.models(),
                )
                &&& exists|b: int| #[trigger]
                    is_best_goal_node(&*old(self).spec_problem()->0.goal, &final(self).spec_tree(), b)
                        && path.models() == final(self).spec_tree().branch(b)
                        && final(self).spec_tree().cost(b) == capped(
                        path_length(&*old(self).spec_problem()->0.space, path.models()),
                    )
            },
            result == Err::<Path<S>, PlanningError>(PlanningError::NoSolutionFound) ==> forall|x: int|
                0 <= x < final(self).spec_tree().nodes@.len() ==> !old(self).spec_problem()->0.goal
                    .spec_is_satisfied(
                    (#[trigger] final(self).spec_tree().nodes@[x]).state@,
                ),
            forall|x: int|
                0 <= x < old(self).spec_tree().nodes@.len() ==> #[trigger] final(self).spec_tree().cost(x)
                    <= old(self).spec_tree().cost(x),
    {
        let pd = match &self.problem_def {
            Some(pd) => pd,
            None => {
                return Err(PlanningError::PlannerUninitialised);
            },
        };
        let vc = match &self.validity_checker {
            Some(vc) => vc,
            None => {
                return Err(PlanningError::PlannerUninitialised);
            },
        };
        let deadline = Deadline::start(&timeout);
        if self.tree.len() == 0 {
            if !pd.check_start(&**vc) {
                return Err(PlanningError::InvalidStartState);
            }
            let root = pd.start_states[0].clone_box();
            self.tree.set_root(*root);
        }
        let mut rounds: u64 = 0;
        loop
            invariant
                self.problem_def == old(self).problem_def,
                self.validity_checker == old(self).validity_checker,
                self.max_distance == old(self).max_distance,
                self.search_radius == old(self).search_radius,
                self.goal_bias == old(self).goal_bias,
                self.problem_def == Some(*pd),
                self.validity_checker == Some(*vc),
                self.tree.nodes@.len() > 0,
                self.tree.nodes@.len() >= old(self).tree.nodes@.len(),
                pd.start_ok(&**vc),
                self.wf(),
                forall|x: int|
                    0 <= x < old(self).tree.nodes@.len() ==> #[trigger] self.tree.cost(x)
                        <= old(self).tree.cost(x),
                forall|x: int|
                    0 <= x < old(self).tree.nodes@.len() ==> (#[trigger] self.tree.nodes@[x]).state
                        == old(self).tree.nodes@[x].state,
            decreases u64::MAX - rounds,
        {
            if deadline.expired() || rounds == u64::MAX {
                break ;
            }
            rounds = rounds + 1;
            let ghost before = self.tree;
            star_round(
                &*pd.space,
                &**vc,
                &*pd.goal,
                &mut self.tree,
                &mut self.rng,
                self.max_distance,
                &self.goal_bias,
                self.search_radius,
            );
            proof {
                assert forall|x: int| 0 <= x < old(self).tree.nodes@.len() implies #[trigger] self.tree.cost(
                    x,
                ) <= old(self).tree.cost(x) by {
                    assert(self.tree.cost(x) <= before.cost(x));
                }
                assert forall|x: int| 0 <= x < old(self).tree.nodes@.len() implies (
                #[trigger] self.tree.nodes@[x]).state == old(self).tree.nodes@[x].state by {
                    assert(self.tree.nodes@[x].state == before.nodes@[x].state);
                }
            }
        }
        proof {
            assert forall|b0: int, b1: int|
                is_best_goal_node(&*pd.goal, &old(self).tree, b0) && is_best_goal_node(
                    &*pd.goal,
                    &self.tree,
                    b1,
                ) implies self.tree.cost(b1) <= old(self).tree.cost(b0) by {
                lemma_best_cost_never_rises(&*pd.goal, &old(self).tree, &self.tree, b0, b1);
            }
        }
        match best_goal_node(&*pd.goal, &self.tree) {
            Some(b) => {
                proof {
                    lemma_star_branch_ends(self.tree.nodes@, self.tree.rank@, b as int);
                    lemma_star_branch_is_valid(
                        &*pd.space,
                        &**vc,
                        self.tree.nodes@,
                        self.tree.rank@,
                        b as int,
                    );
                }
                let states = self.tree.path_to(b);
                let path = Path(states);
                proof {
                    assert(path.models() == self.tree.branch(b as int));
                    assert(is_best_goal_node(&*pd.goal, &self.tree, b as int));
                    lemma_cost_is_branch_length(self.tree.nodes@, self.tree.rank@, b as int);
                    lemma_branch_length_is_path_length(
                        &*pd.space,
                        &**vc,
                        self.tree.nodes@,
                        self.tree.rank@,
                        b as int,
                    );
                }
                Ok(path)
            },
            None => Err(PlanningError::NoSolutionFound),
        }
    }
}

} // verus!
