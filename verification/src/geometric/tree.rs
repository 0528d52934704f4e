//! Search trees: an arena of nodes, each pointing at its parent by index.

use vstd::prelude::*;
use crate::base::measure::{spec_step_fraction, step_fraction, Fraction, Length};
use crate::base::space::StateSpace;
use crate::base::state::{DynClone, ModelOf, State};
use crate::base::validity::StateValidityChecker;
use crate::geometric::motion::{check_motion, motion_valid};

verus! {

/// A node of a search tree.
pub struct Node<S: State> {
    pub state: S,
    /// The index of the parent; `None` at the root.
    pub parent: Option<usize>,
}

/// Whether the tree `after` is the tree `before` with nodes added at its
/// end: every node of `before` stands in `after` at its place, unchanged.
pub open spec fn grown_from<S: State>(after: Seq<Node<S>>, before: Seq<Node<S>>) -> bool {
    &&& after.len() >= before.len()
    &&& forall|j: int| 0 <= j < before.len() ==> #[trigger] after[j] == before[j]
}

/// The models of a list of states.
pub open spec fn path_models<S: State>(states: Seq<S>) -> Seq<ModelOf<S>> {
    Seq::new(states.len(), |k: int| states[k]@)
}

/// The shape of a tree that only ever grows: the root comes first and every
/// other node was inserted after its parent.
pub open spec fn tree_wf<S: State>(tree: Seq<Node<S>>) -> bool {
    forall|i: int|
        0 <= i < tree.len() ==> match (#[trigger] tree[i]).parent {
            None => i == 0,
            Some(p) => p < i,
        }
}

/// Every node is valid, and so is the motion from its parent to it.
pub open spec fn tree_sound<SP: StateSpace, VC: StateValidityChecker<SP::StateType>>(
    space: &SP,
    checker: &VC,
    tree: Seq<Node<SP::StateType>>,
) -> bool {
    forall|i: int|
        0 <= i < tree.len() ==> {
            &&& checker.spec_is_valid((#[trigger] tree[i]).state@)
            &&& tree[i].parent matches Some(p) ==> motion_valid(
                space,
                checker,
                tree[p as int].state@,
                tree[i].state@,
            )
        }
}

/// The states from the root down to node `i`.
pub open spec fn branch_states<S: State>(tree: Seq<Node<S>>, i: int) -> Seq<ModelOf<S>>
    decreases i,
{
    if 0 <= i < tree.len() {
        if tree[i].parent is Some && tree[i].parent->0 < i {
            branch_states(tree, tree[i].parent->0 as int).push(tree[i].state@)
        } else {
            seq![tree[i].state@]
        }
    } else {
        seq![]
    }
}

/// A path along which every state is valid and every motion, taken from one
/// state to the next, is valid.
pub open spec fn directed_path<SP: StateSpace, VC: StateValidityChecker<SP::StateType>>(
    space: &SP,
    checker: &VC,
    path: Seq<ModelOf<SP::StateType>>,
) -> bool {
    &&& forall|k: int| 0 <= k < path.len() ==> checker.spec_is_valid(#[trigger] path[k])
    &&& forall|k: int|
        0 <= k < path.len() - 1 ==> motion_valid(space, checker, #[trigger] path[k], path[k + 1])
}

/// A branch starts at the root and ends at the node it was asked for.
pub proof fn lemma_branch_ends<S: State>(tree: Seq<Node<S>>, i: int)
    requires
        tree_wf(tree),
        0 <= i < tree.len(),
    ensures
        branch_states(tree, i).len() >= 1,
        branch_states(tree, i)[0] == tree[0].state@,
        branch_states(tree, i).last() == tree[i].state@,
    decreases i,
{
    if tree[i].parent is Some && tree[i].parent->0 < i {
        lemma_branch_ends(tree, tree[i].parent->0 as int);
    } else {
        assert(i == 0);
    }
}

/// In a sound tree every branch is a valid path.
pub proof fn lemma_branch_is_valid<SP: StateSpace, VC: StateValidityChecker<SP::StateType>>(
    space: &SP,
    checker: &VC,
    tree: Seq<Node<SP::StateType>>,
    i: int,
)
    requires
        tree_wf(tree),
        tree_sound(space, checker, tree),
        0 <= i < tree.len(),
    ensures
        directed_path(space, checker, branch_states(tree, i)),
    decreases i,
{
    let b = branch_states(tree, i);
    if tree[i].parent is Some && tree[i].parent->0 < i {
        let p = tree[i].parent->0 as int;
        let bp = branch_states(tree, p);
        lemma_branch_is_valid(space, checker, tree, p);
        lemma_branch_ends(tree, p);
        assert(b == bp.push(tree[i].state@));
        assert forall|k: int| 0 <= k < b.len() implies checker.spec_is_valid(#[trigger] b[k]) by {
            if k < bp.len() {
                assert(b[k] == bp[k]);
            }
        }
        assert forall|k: int| 0 <= k < b.len() - 1 implies motion_valid(
            space,
            checker,
            #[trigger] b[k],
            b[k + 1],
        ) by {
            if k < bp.len() - 1 {
                assert(b[k] == bp[k]);
                assert(b[k + 1] == bp[k + 1]);
            } else {
                assert(b[k] == bp.last());
                assert(b[k + 1] == tree[i].state@);
            }
        }
    } else {
        assert(b == seq![tree[i].state@]);
    }
}

/// A sequence read from its end.
pub open spec fn backwards<T>(s: Seq<T>) -> Seq<T> {
    Seq::new(s.len(), |k: int| s[s.len() - 1 - k])
}

/// Copies the states from node `i` up to the root.
pub fn climb<S: State>(tree: &Vec<Node<S>>, i: usize) -> (path: Vec<S>)
    requires
        tree_wf(tree@),
        i < tree.len(),
    ensures
        path_models(path@) == backwards(branch_states(tree@, i as int)),
{
    let ghost whole = branch_states(tree@, i as int);
    let mut reversed: Vec<S> = Vec::new();
    let mut cur: usize = i;
    loop
        invariant_except_break
            reversed.len() < whole.len(),
            branch_states(tree@, cur as int) == whole.subrange(0, whole.len() - reversed.len()),
        invariant
            tree_wf(tree@),
            cur <= i < tree.len(),
            whole == branch_states(tree@, i as int),
            forall|j: int|
                0 <= j < reversed.len() ==> (#[trigger] reversed[j])@ == whole[whole.len() - 1 - j],
        ensures
            reversed.len() == whole.len(),
        decreases cur,
    {
        let ghost here = branch_states(tree@, cur as int);
        proof {
            lemma_branch_ends(tree@, cur as int);
            assert(here.last() == whole[whole.len() - reversed.len() - 1]);
        }
        let copy = tree[cur].state.clone_box();
        reversed.push(*copy);
        match tree[cur].parent {
            Some(p) => {
                proof {
                    let up = branch_states(tree@, p as int);
                    assert(tree@[cur as int].parent is Some);
                    assert(here == up.push(tree@[cur as int].state@));
                    lemma_branch_ends(tree@, p as int);
                    assert(up == whole.subrange(0, whole.len() - reversed.len()));
                }
                cur = p;
            },
            None => {
                proof {
                    assert(here == seq![tree@[cur as int].state@]);
                    assert(here.len() == 1);
                }
                break ;
            },
        }
    }
    proof {
        assert(path_models(reversed@) =~= backwards(whole));
    }
    reversed
}

/// Moves the states of `states` into a new list, last first.
pub fn reversed<S: State>(states: Vec<S>) -> (turned: Vec<S>)
    ensures
        path_models(turned@) == backwards(path_models(states@)),
{
    let mut rest = states;
    let ghost total = rest@;
    let mut turned: Vec<S> = Vec::new();
    while rest.len() > 0
        invariant
            rest@ == total.subrange(0, rest.len() as int),
            turned.len() + rest.len() == total.len(),
            forall|j: int| 0 <= j < turned.len() ==> #[trigger] turned[j] == total[total.len() - 1 - j],
        decreases rest.len(),
    {
        let ghost before = rest@;
        let last = rest.pop();
        match last {
            Some(s) => {
                proof {
                    assert(s == before[before.len() - 1]);
                    assert(rest@ == total.subrange(0, rest.len() as int));
                }
                turned.push(s);
            },
            None => {},
        }
    }
    proof {
        assert(path_models(turned@) =~= backwards(path_models(total)));
    }
    turned
}

/// Copies the states from the root down to node `i` into a path.
pub fn extract_path<S: State>(tree: &Vec<Node<S>>, i: usize) -> (path: Vec<S>)
    requires
        tree_wf(tree@),
        i < tree.len(),
    ensures
        path_models(path@) == branch_states(tree@, i as int),
{
    let up = climb(tree, i);
    let path = reversed(up);
    proof {
        assert(path_models(path@) =~= branch_states(tree@, i as int));
    }
    path
}

/// The points of a tree's nodes, in the order of insertion.
pub open spec fn node_models<S: State>(tree: Seq<Node<S>>) -> Seq<ModelOf<S>> {
    Seq::new(tree.len(), |i: int| tree[i].state@)
}

/// The index of the state nearest to `target` among the first `n` states;
/// where several are equally near, the one that comes first.
pub open spec fn spec_nearest<SP: StateSpace>(
    space: &SP,
    states: Seq<ModelOf<SP::StateType>>,
    target: ModelOf<SP::StateType>,
    n: int,
) -> int
    decreases n,
{
    if n <= 1 {
        0
    } else {
        let best = spec_nearest(space, states, target, n - 1);
        if space.spec_distance(states[n - 1], target) < space.spec_distance(states[best], target) {
            n - 1
        } else {
            best
        }
    }
}

/// The nearest state is no farther from the target than any other state, and
/// strictly nearer than every state that comes before it.
pub proof fn lemma_nearest_is_earliest_minimum<SP: StateSpace>(
    space: &SP,
    states: Seq<ModelOf<SP::StateType>>,
    target: ModelOf<SP::StateType>,
    n: int,
)
    requires
        1 <= n <= states.len(),
    ensures
        0 <= spec_nearest(space, states, target, n) < n,
        forall|j: int|
            0 <= j < n ==> space.spec_distance(
                states[spec_nearest(space, states, target, n)],
                target,
            ) <= #[trigger] space.spec_distance(states[j], target),
        forall|j: int|
            0 <= j < spec_nearest(space, states, target, n) ==> space.spec_distance(
                states[spec_nearest(space, states, target, n)],
                target,
            ) < #[trigger] space.spec_distance(states[j], target),
    decreases n,
{
    if n > 1 {
        lemma_nearest_is_earliest_minimum(space, states, target, n - 1);
    }
}

/// Scans the tree for the node nearest to `target`.
pub fn nearest<SP: StateSpace>(space: &SP, tree: &Vec<Node<SP::StateType>>, target: &SP::StateType) -> (k:
    usize)
    requires
        tree.len() > 0,
    ensures
        k == spec_nearest(space, node_models(tree@), target@, tree.len() as int),
        k < tree.len(),
{
    let mut best: usize = 0;
    let mut best_distance: Length = space.distance(&tree[0].state, target);
    let mut n: usize = 1;
    while n < tree.len()
        invariant
            1 <= n <= tree.len(),
            best < n,
            best == spec_nearest(space, node_models(tree@), target@, n as int),
            best_distance == space.spec_distance(tree@[best as int].state@, target@),
        decreases tree.len() - n,
    {
        let d: Length = space.distance(&tree[n].state, target);
        if d < best_distance {
            best = n;
            best_distance = d;
        }
        n = n + 1;
    }
    best
}

/// The state that a tree grows by when it reaches from `near` towards
/// `target`: the target itself where it is within `max_distance`, else the
/// point at `max_distance` along the way.
pub open spec fn steer<SP: StateSpace>(
    space: &SP,
    near: ModelOf<SP::StateType>,
    target: ModelOf<SP::StateType>,
    max_distance: Length,
) -> ModelOf<SP::StateType> {
    space.spec_interpolate(
        near,
        target,
        spec_step_fraction(max_distance, space.spec_distance(near, target)),
    )
}

/// What became of an attempt to grow a tree towards a target.
#[derive(Clone, Copy, Debug, PartialEq, Eq, Structural)]
pub enum ExtendStatus {
    /// The new state or the motion to it was invalid; the tree is unchanged.
    Trapped,
    /// A node was added part of the way to the target.
    Advanced,
    /// A node was added at the end of a full step to the target.
    Reached,
}

/// Whether a tree with the states `states` can grow towards `target`: the
/// candidate state and the motion to it from the nearest node are both valid.
pub open spec fn can_extend<SP: StateSpace, VC: StateValidityChecker<SP::StateType>>(
    space: &SP,
    checker: &VC,
    states: Seq<ModelOf<SP::StateType>>,
    target: ModelOf<SP::StateType>,
    max_distance: Length,
) -> bool {
    let near = states[spec_nearest(space, states, target, states.len() as int)];
    let candidate = steer(space, near, target, max_distance);
    checker.spec_is_valid(candidate) && motion_valid(space, checker, near, candidate)
}

/// What growing a tree with the states `states` towards `target` returns.
pub open spec fn spec_extend_status<SP: StateSpace, VC: StateValidityChecker<SP::StateType>>(
    space: &SP,
    checker: &VC,
    states: Seq<ModelOf<SP::StateType>>,
    target: ModelOf<SP::StateType>,
    max_distance: Length,
) -> ExtendStatus {
    let near = states[spec_nearest(space, states, target, states.len() as int)];
    if !can_extend(space, checker, states, target, max_distance) {
        ExtendStatus::Trapped
    } else if space.spec_distance(near, target) <= max_distance {
        ExtendStatus::Reached
    } else {
        ExtendStatus::Advanced
    }
}

/// The states of a tree after it has been asked to grow towards `target`.
pub open spec fn spec_extended<SP: StateSpace, VC: StateValidityChecker<SP::StateType>>(
    space: &SP,
    checker: &VC,
    states: Seq<ModelOf<SP::StateType>>,
    target: ModelOf<SP::StateType>,
    max_distance: Length,
) -> Seq<ModelOf<SP::StateType>> {
    if can_extend(space, checker, states, target, max_distance) {
        states.push(
            steer(
                space,
                states[spec_nearest(space, states, target, states.len() as int)],
                target,
                max_distance,
            ),
        )
    } else {
        states
    }
}

/// Grows the tree by one node towards `target`: finds the nearest node,
/// steps from it by at most `max_distance`, and inserts the new state as its
/// child if the state and the motion to it are valid.
pub fn extend<SP: StateSpace, VC: StateValidityChecker<SP::StateType>>(
    space: &SP,
    checker: &VC,
    tree: &mut Vec<Node<SP::StateType>>,
    target: &SP::StateType,
    max_distance: Length,
) -> (status: ExtendStatus)
    requires
        old(tree).len() > 0,
        tree_wf(old(tree)@),
        tree_sound(space, checker, old(tree)@),
    ensures
        tree_wf(final(tree)@),
        tree_sound(space, checker, final(tree)@),
        status == spec_extend_status(
            space,
            checker,
            node_models(old(tree)@),
            target@,
            max_distance,
        ),
        node_models(final(tree)@) == spec_extended(
            space,
            checker,
            node_models(old(tree)@),
            target@,
            max_distance,
        ),
        status == ExtendStatus::Trapped ==> final(tree)@ == old(tree)@,
        status == ExtendStatus::Reached ==> final(tree)@.last().state@ == target@,
        status != ExtendStatus::Trapped ==> {
            let k = spec_nearest(space, node_models(old(tree)@), target@, old(tree).len() as int);
            &&& final(tree)@.len() == old(tree)@.len() + 1
            &&& final(tree)@.drop_last() == old(tree)@
            &&& final(tree)@.last().parent == Some(k as usize)
            &&& final(tree)@.last().state@ == steer(
                space,
                old(tree)@[k].state@,
                target@,
                max_distance,
            )
        },
{
    let k: usize = nearest(space, tree, target);
    let d: Length = space.distance(&tree[k].state, target);
    let t: Fraction = step_fraction(max_distance, d);
    let mut candidate = *tree[k].state.clone_box();
    space.interpolate(&tree[k].state, target, t, &mut candidate);
    if !checker.is_valid(&candidate) {
        return ExtendStatus::Trapped;
    }
    if !check_motion(space, checker, &tree[k].state, &candidate) {
        return ExtendStatus::Trapped;
    }
    let ghost before = tree@;
    tree.push(Node { state: candidate, parent: Some(k) });
    proof {
        assert(tree@.drop_last() == before);
        assert(node_models(tree@) =~= node_models(before).push(tree@.last().state@));
        assert forall|i: int| 0 <= i < tree@.len() implies match (#[trigger] tree@[i]).parent {
            None => i == 0,
            Some(p) => p < i,
        } by {
            if i < before.len() {
                assert(tree@[i] == before[i]);
            }
        }
        assert forall|i: int| 0 <= i < tree@.len() implies {
            &&& checker.spec_is_valid((#[trigger] tree@[i]).state@)
            &&& tree@[i].parent matches Some(p) ==> motion_valid(
                space,
                checker,
                tree@[p as int].state@,
                tree@[i].state@,
            )
        } by {
            if i < before.len() {
                assert(tree@[i] == before[i]);
                if before[i].parent is Some {
                    assert(tree@[before[i].parent->0 as int] == before[before[i].parent->0 as int]);
                }
            } else {
                assert(tree@[k as int] == before[k as int]);
            }
        }
    }
    if d <= max_distance {
        ExtendStatus::Reached
    } else {
        ExtendStatus::Advanced
    }
}

} // verus!
