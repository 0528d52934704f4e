//! Search trees whose nodes can change parent: each node records the length
//! of the edge from its parent, and the cost of a node is the sum of the
//! lengths along its branch.

use vstd::prelude::*;
use crate::base::measure::Length;
use crate::base::planner::path_length;
use crate::base::space::StateSpace;
use crate::base::state::{DynClone, ModelOf, State};
use crate::base::validity::StateValidityChecker;
use crate::geometric::motion::motion_valid;
use crate::geometric::tree::{backwards, directed_path, path_models, reversed};

verus! {

/// A node of a rewirable tree.
pub struct StarNode<S: State> {
    pub state: S,
    /// The index of the parent; `None` at the root.
    pub parent: Option<usize>,
    /// The length of the edge from the parent; zero at the root.
    pub edge: Length,
}

/// The sum of a cost and a length, held at the largest cost where it would
/// pass it.
pub open spec fn sat_add(a: u128, b: Length) -> u128 {
    if a + b > u128::MAX {
        u128::MAX
    } else {
        (a + b) as u128
    }
}

/// Adds a length to a cost, holding the sum at the largest cost.
pub fn add_length(a: u128, b: Length) -> (sum: u128)
    ensures
        sum == sat_add(a, b),
{
    let b_wide: u128 = b as u128;
    if a > u128::MAX - b_wide {
        u128::MAX
    } else {
        a + b_wide
    }
}

/// Node `i` has a parent in the tree, and the parent ranks below it.
pub open spec fn link_ok<S: State>(nodes: Seq<StarNode<S>>, rank: Seq<nat>, i: int) -> bool {
    &&& 0 < i < nodes.len()
    &&& nodes[i].parent is Some
    &&& nodes[i].parent->0 < nodes.len()
    &&& rank[nodes[i].parent->0 as int] < rank[i]
}

/// The shape of a rewirable tree: node 0 is the root, and every other node
/// has a parent of lower rank, so that no branch runs in a circle.
pub open spec fn star_wf<S: State>(nodes: Seq<StarNode<S>>, rank: Seq<nat>) -> bool {
    &&& rank.len() == nodes.len()
    &&& nodes.len() > 0 ==> nodes[0].parent is None
    &&& forall|i: int| 0 < i < nodes.len() ==> #[trigger] link_ok(nodes, rank, i)
}

/// The cost of reaching node `i` from the root.
pub open spec fn spec_cost<S: State>(nodes: Seq<StarNode<S>>, rank: Seq<nat>, i: int) -> u128
    decreases rank[i],
{
    if link_ok(nodes, rank, i) {
        sat_add(spec_cost(nodes, rank, nodes[i].parent->0 as int), nodes[i].edge)
    } else {
        0
    }
}

/// The states from the root down to node `i`.
pub open spec fn star_branch<S: State>(nodes: Seq<StarNode<S>>, rank: Seq<nat>, i: int) -> Seq<
    ModelOf<S>,
>
    decreases rank[i],
{
    if link_ok(nodes, rank, i) {
        star_branch(nodes, rank, nodes[i].parent->0 as int).push(nodes[i].state@)
    } else if 0 <= i < nodes.len() {
        seq![nodes[i].state@]
    } else {
        seq![]
    }
}

/// Whether node `j` lies on the branch of node `x`.
pub open spec fn on_branch<S: State>(nodes: Seq<StarNode<S>>, rank: Seq<nat>, x: int, j: int) -> bool
    decreases rank[x],
{
    x == j || (link_ok(nodes, rank, x) && on_branch(nodes, rank, nodes[x].parent->0 as int, j))
}

/// Every node is valid, the motion from its parent to it is valid, and its
/// edge has the length of that motion.
pub open spec fn star_sound<SP: StateSpace, VC: StateValidityChecker<SP::StateType>>(
    space: &SP,
    checker: &VC,
    nodes: Seq<StarNode<SP::StateType>>,
) -> bool {
    forall|i: int|
        0 <= i < nodes.len() ==> {
            &&& checker.spec_is_valid((#[trigger] nodes[i]).state@)
            &&& (nodes[i].parent is Some && nodes[i].parent->0 < nodes.len()) ==> {
                let p = nodes[i].parent->0 as int;
                &&& motion_valid(space, checker, nodes[p].state@, nodes[i].state@)
                &&& nodes[i].edge == space.spec_distance(nodes[p].state@, nodes[i].state@)
            }
        }
}

/// A branch starts at the root and ends at the node it was asked for.
pub proof fn lemma_star_branch_ends<S: State>(nodes: Seq<StarNode<S>>, rank: Seq<nat>, i: int)
    requires
        star_wf(nodes, rank),
        0 <= i < nodes.len(),
    ensures
        star_branch(nodes, rank, i).len() >= 1,
        star_branch(nodes, rank, i)[0] == nodes[0].state@,
        star_branch(nodes, rank, i).last() == nodes[i].state@,
    decreases rank[i],
{
    if link_ok(nodes, rank, i) {
        lemma_star_branch_ends(nodes, rank, nodes[i].parent->0 as int);
    } else {
        assert(i == 0);
    }
}

/// In a sound tree every branch is a valid path.
pub proof fn lemma_star_branch_is_valid<SP: StateSpace, VC: StateValidityChecker<SP::StateType>>(
    space: &SP,
    checker: &VC,
    nodes: Seq<StarNode<SP::StateType>>,
    rank: Seq<nat>,
    i: int,
)
    requires
        star_wf(nodes, rank),
        star_sound(space, checker, nodes),
        0 <= i < nodes.len(),
    ensures
        directed_path(space, checker, star_branch(nodes, rank, i)),
    decreases rank[i],
{
    let b = star_branch(nodes, rank, i);
    if link_ok(nodes, rank, i) {
        let p = nodes[i].parent->0 as int;
        let bp = star_branch(nodes, rank, p);
        lemma_star_branch_is_valid(space, checker, nodes, rank, p);
        lemma_star_branch_ends(nodes, rank, p);
        assert(b == bp.push(nodes[i].state@));
        assert forall|k: int| 0 <= k < b.len() implies checker.spec_is_valid(#[trigger] b[k]) by {
            if k < bp.len() {
                assert(b[k] == bp[k]);
            }
        }
        assert forall|k: int| 0 <= k < b.len() - 1 implies motion_valid(
            space,
            checker,
            #[trigger] b[k],
            b[k + 1],
        ) by {
            if k < bp.len() - 1 {
                assert(b[k] == bp[k]);
                assert(b[k + 1] == bp[k + 1]);
            } else {
                assert(b[k] == bp.last());
                assert(b[k + 1] == nodes[i].state@);
            }
        }
    } else {
        assert(i == 0);
        assert(b == seq![nodes[i].state@]);
    }
}

/// A node costs at least as much as every node on its branch.
pub proof fn lemma_cost_grows_along_branch<S: State>(
    nodes: Seq<StarNode<S>>,
    rank: Seq<nat>,
    x: int,
    j: int,
)
    requires
        on_branch(nodes, rank, x, j),
    ensures
        spec_cost(nodes, rank, j) <= spec_cost(nodes, rank, x),
    decreases rank[x],
{
    if x != j {
        lemma_cost_grows_along_branch(nodes, rank, nodes[x].parent->0 as int, j);
    }
}

/// The tree after node `j` has been given the parent `parent` by an edge of
/// length `edge`.
pub open spec fn rewired<S: State>(
    nodes: Seq<StarNode<S>>,
    j: int,
    parent: usize,
    edge: Length,
) -> Seq<StarNode<S>> {
    nodes.update(j, StarNode { state: nodes[j].state, parent: Some(parent), edge })
}

/// Ranks for the tree after node `j` has moved below `parent`: the nodes
/// whose branch passes through `j` are lifted above `parent`.
pub open spec fn rewired_rank<S: State>(
    nodes: Seq<StarNode<S>>,
    rank: Seq<nat>,
    j: int,
    parent: usize,
) -> Seq<nat> {
    Seq::new(
        rank.len(),
        |x: int|
            if on_branch(nodes, rank, x, j) {
                rank[x] + rank[parent as int] + 1
            } else {
                rank[x]
            },
    )
}

/// Giving a node a cheaper parent keeps the tree a tree.
pub proof fn lemma_rewire_keeps_shape<S: State>(
    nodes: Seq<StarNode<S>>,
    rank: Seq<nat>,
    j: int,
    parent: usize,
    edge: Length,
)
    requires
        star_wf(nodes, rank),
        0 < j < nodes.len(),
        parent < nodes.len(),
        sat_add(spec_cost(nodes, rank, parent as int), edge) < spec_cost(nodes, rank, j),
    ensures
        star_wf(rewired(nodes, j, parent, edge), rewired_rank(nodes, rank, j, parent)),
        !on_branch(nodes, rank, parent as int, j),
{
    let after = rewired(nodes, j, parent, edge);
    let lifted = rewired_rank(nodes, rank, j, parent);
    if on_branch(nodes, rank, parent as int, j) {
        lemma_cost_grows_along_branch(nodes, rank, parent as int, j);
    }
    assert forall|x: int| 0 < x < after.len() implies #[trigger] link_ok(after, lifted, x) by {
        assert(link_ok(nodes, rank, x));
        if x != j {
            let p = nodes[x].parent->0 as int;
            assert(after[x] == nodes[x]);
            assert(on_branch(nodes, rank, x, j) == on_branch(nodes, rank, p, j));
        }
    }
}

/// Giving a node a cheaper parent raises no cost, and leaves the cost of
/// every node whose branch does not pass through the rewired node as it was.
pub proof fn lemma_rewire_lowers_costs<S: State>(
    nodes: Seq<StarNode<S>>,
    rank: Seq<nat>,
    j: int,
    parent: usize,
    edge: Length,
    x: int,
)
    requires
        star_wf(nodes, rank),
        0 < j < nodes.len(),
        parent < nodes.len(),
        sat_add(spec_cost(nodes, rank, parent as int), edge) < spec_cost(nodes, rank, j),
        0 <= x < nodes.len(),
    ensures
        spec_cost(rewired(nodes, j, parent, edge), rewired_rank(nodes, rank, j, parent), x)
            <= spec_cost(nodes, rank, x),
        !on_branch(nodes, rank, x, j) ==> spec_cost(
            rewired(nodes, j, parent, edge),
            rewired_rank(nodes, rank, j, parent),
            x,
        ) == spec_cost(nodes, rank, x),
    decreases rewired_rank(nodes, rank, j, parent)[x],
{
    let after = rewired(nodes, j, parent, edge);
    let lifted = rewired_rank(nodes, rank, j, parent);
    lemma_rewire_keeps_shape(nodes, rank, j, parent, edge);
    if x == 0 {
        assert(!link_ok(after, lifted, x));
        assert(!link_ok(nodes, rank, x));
    } else {
        assert(link_ok(after, lifted, x));
        assert(link_ok(nodes, rank, x));
        if x == j {
            lemma_rewire_lowers_costs(nodes, rank, j, parent, edge, parent as int);
        } else {
            let p = nodes[x].parent->0 as int;
            assert(after[x] == nodes[x]);
            lemma_rewire_lowers_costs(nodes, rank, j, parent, edge, p);
            assert(on_branch(nodes, rank, x, j) == on_branch(nodes, rank, p, j));
        }
    }
}

/// Adding a leaf keeps the tree a tree and changes no cost.
pub proof fn lemma_insert_keeps_costs<S: State>(
    nodes: Seq<StarNode<S>>,
    rank: Seq<nat>,
    leaf: StarNode<S>,
    x: int,
)
    requires
        star_wf(nodes, rank),
        nodes.len() > 0,
        leaf.parent is Some,
        leaf.parent->0 < nodes.len(),
        0 <= x < nodes.len(),
    ensures
        star_wf(nodes.push(leaf), rank.push(rank[leaf.parent->0 as int] + 1)),
        spec_cost(nodes.push(leaf), rank.push(rank[leaf.parent->0 as int] + 1), x) == spec_cost(
            nodes,
            rank,
            x,
        ),
        star_branch(nodes.push(leaf), rank.push(rank[leaf.parent->0 as int] + 1), x)
            == star_branch(nodes, rank, x),
    decreases rank[x],
{
    let after = nodes.push(leaf);
    let ranks = rank.push(rank[leaf.parent->0 as int] + 1);
    assert forall|i: int| 0 < i < after.len() implies #[trigger] link_ok(after, ranks, i) by {
        if i < nodes.len() {
            assert(link_ok(nodes, rank, i));
            assert(after[i] == nodes[i]);
        }
    }
    if x > 0 {
        assert(link_ok(nodes, rank, x));
        assert(after[x] == nodes[x]);
        lemma_insert_keeps_costs(nodes, rank, leaf, nodes[x].parent->0 as int);
    } else {
        assert(after[0] == nodes[0]);
    }
}

/// The sum of the edge lengths along the branch of node `i`, without a cap.
pub open spec fn branch_length<S: State>(nodes: Seq<StarNode<S>>, rank: Seq<nat>, i: int) -> nat
    decreases rank[i],
{
    if link_ok(nodes, rank, i) {
        branch_length(nodes, rank, nodes[i].parent->0 as int) + nodes[i].edge as nat
    } else {
        0
    }
}

/// A length as a cost: itself, or the largest cost where it lies beyond it.
pub open spec fn capped(length: nat) -> u128 {
    if length > u128::MAX {
        u128::MAX
    } else {
        length as u128
    }
}

/// The cost of a node is the length of its branch, held at the largest cost.
pub proof fn lemma_cost_is_branch_length<S: State>(nodes: Seq<StarNode<S>>, rank: Seq<nat>, i: int)
    ensures
        spec_cost(nodes, rank, i) == capped(branch_length(nodes, rank, i)),
    decreases rank[i],
{
    if link_ok(nodes, rank, i) {
        lemma_cost_is_branch_length(nodes, rank, nodes[i].parent->0 as int);
    }
}

/// In a sound tree the edge lengths along a branch add up to the length of
/// the path that the branch spells out.
pub proof fn lemma_branch_length_is_path_length<
    SP: StateSpace,
    VC: StateValidityChecker<SP::StateType>,
>(space: &SP, checker: &VC, nodes: Seq<StarNode<SP::StateType>>, rank: Seq<nat>, i: int)
    requires
        star_wf(nodes, rank),
        star_sound(space, checker, nodes),
        0 <= i < nodes.len(),
    ensures
        branch_length(nodes, rank, i) == path_length(space, star_branch(nodes, rank, i)),
    decreases rank[i],
{
    let b = star_branch(nodes, rank, i);
    if link_ok(nodes, rank, i) {
        let p = nodes[i].parent->0 as int;
        let bp = star_branch(nodes, rank, p);
        lemma_branch_length_is_path_length(space, checker, nodes, rank, p);
        lemma_star_branch_ends(nodes, rank, p);
        assert(b == bp.push(nodes[i].state@));
        assert(b.drop_last() == bp);
        assert(b[b.len() - 2] == bp.last());
    } else {
        assert(b.len() <= 1);
    }
}

/// The points of a tree's nodes, in the order of insertion.
pub open spec fn star_models<S: State>(nodes: Seq<StarNode<S>>) -> Seq<ModelOf<S>> {
    Seq::new(nodes.len(), |i: int| nodes[i].state@)
}

/// A rewirable tree. Beside its nodes it keeps, for proofs alone, a rank for
/// each node that rises from every parent to its children.
pub struct StarTree<S: State> {
    pub nodes: Vec<StarNode<S>>,
    pub rank: Ghost<Seq<nat>>,
}

impl<S: State> StarTree<S> {
    /// The nodes form a tree, and the ranks bear witness to it.
    pub open spec fn wf(&self) -> bool {
        star_wf(self.nodes@, self.rank@)
    }

    /// The cost of reaching node `i` from the root.
    pub open spec fn cost(&self, i: int) -> u128 {
        spec_cost(self.nodes@, self.rank@, i)
    }

    /// The states from the root down to node `i`.
    pub open spec fn branch(&self, i: int) -> Seq<ModelOf<S>> {
        star_branch(self.nodes@, self.rank@, i)
    }

    /// A tree without nodes.
    pub fn new() -> (tree: Self)
        ensures
            tree.wf(),
            tree.nodes@.len() == 0,
    {
        StarTree { nodes: Vec::new(), rank: Ghost(Seq::empty()) }
    }

    /// The number of nodes.
    pub fn len(&self) -> (n: usize)
        ensures
            n == self.nodes@.len(),
    {
        self.nodes.len()
    }

    /// Removes every node.
    pub fn clear(&mut self)
        ensures
            final(self).wf(),
            final(self).nodes@.len() == 0,
    {
        self.nodes.clear();
        self.rank = Ghost(Seq::empty());
    }

    /// Makes `state` the root of an empty tree.
    pub fn set_root(&mut self, state: S)
        requires
            old(self).nodes@.len() == 0,
        ensures
            final(self).wf(),
            final(self).nodes@.len() == 1,
            final(self).nodes@[0].state == state,
            final(self).cost(0) == 0,
    {
        self.nodes.push(StarNode { state, parent: None, edge: 0 });
        self.rank = Ghost(Seq::<nat>::empty().push(0));
    }

    /// Adds up the edge lengths from node `i` to the root.
    pub fn cost_of(&self, i: usize) -> (cost: u128)
        requires
            self.wf(),
            i < self.nodes@.len(),
        ensures
            cost == self.cost(i as int),
    {
        let ghost nodes = self.nodes@;
        let ghost rank = self.rank@;
        let mut cost: u128 = 0;
        let ghost mut below: nat = 0;
        let mut cur: usize = i;
        loop
            invariant
                nodes == self.nodes@,
                rank == self.rank@,
                star_wf(nodes, rank),
                cur < nodes.len(),
                branch_length(nodes, rank, i as int) == branch_length(nodes, rank, cur as int)
                    + below,
                cost == if below > u128::MAX {
                    u128::MAX as nat
                } else {
                    below
                },
            ensures
                branch_length(nodes, rank, i as int) == below,
            decreases rank[cur as int],
        {
            match self.nodes[cur].parent {
                Some(p) => {
                    proof {
                        if cur > 0 {
                            assert(link_ok(nodes, rank, cur as int));
                        }
                    }
                    if cur == 0 {
                        break ;
                    }
                    cost = add_length(cost, self.nodes[cur].edge);
                    proof {
                        below = below + nodes[cur as int].edge as nat;
                    }
                    cur = p;
                },
                None => {
                    proof {
                        assert(!link_ok(nodes, rank, cur as int));
                    }
                    break ;
                },
            }
        }
        proof {
            lemma_cost_is_branch_length(nodes, rank, i as int);
        }
        cost
    }

    /// Adds `state` as a child of `parent`, joined by an edge of length `edge`.
    pub fn insert(&mut self, state: S, parent: usize, edge: Length) -> (index: usize)
        requires
            old(self).wf(),
            parent < old(self).nodes@.len(),
        ensures
            final(self).wf(),
            index == old(self).nodes@.len(),
            final(self).nodes@ == old(self).nodes@.push(
                StarNode { state, parent: Some(parent), edge },
            ),
            final(self).rank@ == old(self).rank@.push(old(self).rank@[parent as int] + 1),
            final(self).cost(index as int) == sat_add(old(self).cost(parent as int), edge),
            final(self).branch(index as int) == old(self).branch(parent as int).push(state@),
            forall|x: int|
                0 <= x < old(self).nodes@.len() ==> #[trigger] final(self).cost(x) == old(
                    self,
                ).cost(x),
            forall|x: int|
                0 <= x < old(self).nodes@.len() ==> #[trigger] final(self).branch(x) == old(
                    self,
                ).branch(x),
    {
        let index: usize = self.nodes.len();
        let ghost nodes0 = self.nodes@;
        let ghost rank0 = self.rank@;
        let ghost leaf = StarNode { state, parent: Some(parent), edge };
        self.nodes.push(StarNode { state, parent: Some(parent), edge });
        self.rank = Ghost(rank0.push(rank0[parent as int] + 1));
        proof {
            assert(self.nodes@ == nodes0.push(leaf));
            lemma_insert_keeps_costs(nodes0, rank0, leaf, parent as int);
            assert forall|x: int| 0 <= x < nodes0.len() implies #[trigger] self.cost(x)
                == spec_cost(nodes0, rank0, x) by {
                lemma_insert_keeps_costs(nodes0, rank0, leaf, x);
            }
            assert forall|x: int| 0 <= x < nodes0.len() implies #[trigger] self.branch(x)
                == star_branch(nodes0, rank0, x) by {
                lemma_insert_keeps_costs(nodes0, rank0, leaf, x);
            }
            assert(link_ok(self.nodes@, self.rank@, index as int));
        }
        index
    }

    /// Gives node `j` the parent `parent`, joined by an edge of length
    /// `edge`, where that makes `j` cheaper to reach.
    pub fn rewire(&mut self, j: usize, parent: usize, edge: Length)
        requires
            old(self).wf(),
            0 < j < old(self).nodes@.len(),
            parent < old(self).nodes@.len(),
            sat_add(old(self).cost(parent as int), edge) < old(self).cost(j as int),
        ensures
            final(self).wf(),
            final(self).nodes@ == rewired(old(self).nodes@, j as int, parent, edge),
            final(self).rank@ == rewired_rank(old(self).nodes@, old(self).rank@, j as int, parent),
            final(self).cost(j as int) == sat_add(old(self).cost(parent as int), edge),
            final(self).cost(parent as int) == old(self).cost(parent as int),
            forall|x: int|
                0 <= x < old(self).nodes@.len() ==> #[trigger] final(self).cost(x) <= old(
                    self,
                ).cost(x),
            forall|x: int|
                0 <= x < old(self).nodes@.len() && !on_branch(
                    old(self).nodes@,
                    old(self).rank@,
                    x,
                    j as int,
                ) ==> #[trigger] final(self).cost(x) == old(self).cost(x),
    {
        let ghost nodes0 = self.nodes@;
        let ghost rank0 = self.rank@;
        self.nodes[j].parent = Some(parent);
        self.nodes[j].edge = edge;
        self.rank = Ghost(rewired_rank(nodes0, rank0, j as int, parent));
        proof {
            assert(self.nodes@ =~= rewired(nodes0, j as int, parent, edge));
            lemma_rewire_keeps_shape(nodes0, rank0, j as int, parent, edge);
            assert forall|x: int| 0 <= x < nodes0.len() implies #[trigger] self.cost(x)
                <= spec_cost(nodes0, rank0, x) by {
                lemma_rewire_lowers_costs(nodes0, rank0, j as int, parent, edge, x);
            }
            assert forall|x: int|
                0 <= x < nodes0.len() && !on_branch(nodes0, rank0, x, j as int)
                    implies #[trigger] self.cost(x) == spec_cost(nodes0, rank0, x) by {
                lemma_rewire_lowers_costs(nodes0, rank0, j as int, parent, edge, x);
            }
            lemma_rewire_lowers_costs(nodes0, rank0, j as int, parent, edge, parent as int);
            assert(link_ok(self.nodes@, self.rank@, j as int));
        }
    }

    /// Copies the states from the root down to node `i` into a path.
    pub fn path_to(&self, i: usize) -> (path: Vec<S>)
        requires
            self.wf(),
            i < self.nodes@.len(),
        ensures
            path_models(path@) == self.branch(i as int),
    {
        let ghost nodes = self.nodes@;
        let ghost rank = self.rank@;
        let ghost whole = star_branch(nodes, rank, i as int);
        let mut up: Vec<S> = Vec::new();
        let mut cur: usize = i;
        loop
            invariant_except_break
                up.len() < whole.len(),
                star_branch(nodes, rank, cur as int) == whole.subrange(0, whole.len() - up.len()),
            invariant
                nodes == self.nodes@,
                rank == self.rank@,
                star_wf(nodes, rank),
                cur < nodes.len(),
                whole == star_branch(nodes, rank, i as int),
                forall|j: int| 0 <= j < up.len() ==> (#[trigger] up[j])@ == whole[whole.len() - 1 - j],
            ensures
                up.len() == whole.len(),
            decreases rank[cur as int],
        {
            let ghost here = star_branch(nodes, rank, cur as int);
            proof {
                lemma_star_branch_ends(nodes, rank, cur as int);
                assert(here.last() == whole[whole.len() - up.len() - 1]);
            }
            up.push(*self.nodes[cur].state.clone_box());
            match self.nodes[cur].parent {
                Some(p) => {
                    proof {
                        if cur > 0 {
                            assert(link_ok(nodes, rank, cur as int));
                            let above = star_branch(nodes, rank, p as int);
                            assert(here == above.push(nodes[cur as int].state@));
                            lemma_star_branch_ends(nodes, rank, p as int);
                            assert(above == here.drop_last());
                            assert(above == whole.subrange(0, whole.len() - up.len()));
                        }
                    }
                    if cur == 0 {
                        proof {
                            assert(here.len() == 1);
                        }
                        break ;
                    }
                    cur = p;
                },
                None => {
                    proof {
                        assert(!link_ok(nodes, rank, cur as int));
                        assert(here.len() == 1);
                    }
                    break ;
                },
            }
        }
        proof {
            assert(path_models(up@) =~= backwards(whole));
        }
        let path = reversed(up);
        proof {
            assert(path_models(path@) =~= whole);
        }
        path
    }
}

} // verus!
