//! Roadmaps: valid states joined by edges whose motions were checked.

use vstd::prelude::*;
use crate::base::goal::Goal;
use crate::base::measure::Length;
use crate::base::planner::path_length;
use crate::base::space::StateSpace;
use crate::base::state::{DynClone, ModelOf, State};
use crate::base::validity::StateValidityChecker;
use crate::geometric::motion::{check_motion, motion_valid};
use crate::geometric::shortest_path::{
    adjacency, dijkstra, hop_edge, hop_ok, is_route, is_shortest, lemma_route_chain, route_cost,
    Edge, Hop, ShortestPaths,
};

verus! {

/// A state kept in a roadmap, with the edges to its neighbours.
pub struct Milestone<S: State> {
    pub state: S,
    pub edges: Vec<Edge>,
}

/// The points of a roadmap, in the order of insertion.
pub open spec fn milestone_models<S: State>(roadmap: Seq<Milestone<S>>) -> Seq<ModelOf<S>> {
    Seq::new(roadmap.len(), |i: int| roadmap[i].state@)
}

/// Whether `from` is joined to `to`: they are less than `radius` apart and
/// the motion from `from` to `to` is valid.
pub open spec fn linked<SP: StateSpace, VC: StateValidityChecker<SP::StateType>>(
    space: &SP,
    checker: &VC,
    from: ModelOf<SP::StateType>,
    to: ModelOf<SP::StateType>,
    radius: Length,
) -> bool {
    space.spec_distance(from, to) < radius && motion_valid(space, checker, from, to)
}

/// The edges from `from` to those of the first `upto` states that it is
/// joined to, in the order of the states.
pub open spec fn spec_links<SP: StateSpace, VC: StateValidityChecker<SP::StateType>>(
    space: &SP,
    checker: &VC,
    states: Seq<ModelOf<SP::StateType>>,
    from: ModelOf<SP::StateType>,
    radius: Length,
    upto: int,
) -> Seq<Edge>
    decreases upto,
{
    if upto <= 0 {
        Seq::empty()
    } else {
        let rest = spec_links(space, checker, states, from, radius, upto - 1);
        if linked(space, checker, from, states[upto - 1], radius) {
            rest.push(
                Edge {
                    to: (upto - 1) as usize,
                    length: space.spec_distance(from, states[upto - 1]),
                },
            )
        } else {
            rest
        }
    }
}

/// Every edge of `spec_links` leads to a state that `from` is joined to, and
/// carries the distance to it.
pub proof fn lemma_links<SP: StateSpace, VC: StateValidityChecker<SP::StateType>>(
    space: &SP,
    checker: &VC,
    states: Seq<ModelOf<SP::StateType>>,
    from: ModelOf<SP::StateType>,
    radius: Length,
    upto: int,
)
    requires
        0 <= upto <= states.len(),
        upto <= usize::MAX,
    ensures
        forall|k: int|
            0 <= k < spec_links(space, checker, states, from, radius, upto).len() ==> {
                let e = #[trigger] spec_links(space, checker, states, from, radius, upto)[k];
                &&& e.to < upto
                &&& linked(space, checker, from, states[e.to as int], radius)
                &&& e.length == space.spec_distance(from, states[e.to as int])
            },
    decreases upto,
{
    if upto > 0 {
        lemma_links(space, checker, states, from, radius, upto - 1);
        let rest = spec_links(space, checker, states, from, radius, upto - 1);
        let all = spec_links(space, checker, states, from, radius, upto);
        assert forall|k: int| 0 <= k < all.len() implies {
            let e = #[trigger] all[k];
            &&& e.to < upto
            &&& linked(space, checker, from, states[e.to as int], radius)
            &&& e.length == space.spec_distance(from, states[e.to as int])
        } by {
            if k < rest.len() {
                assert(all[k] == rest[k]);
            }
        }
    }
}

/// Every state among the first `upto` that `from` is joined to has its edge
/// in `spec_links`.
pub proof fn lemma_links_are_complete<SP: StateSpace, VC: StateValidityChecker<SP::StateType>>(
    space: &SP,
    checker: &VC,
    states: Seq<ModelOf<SP::StateType>>,
    from: ModelOf<SP::StateType>,
    radius: Length,
    upto: int,
    i: int,
)
    requires
        0 <= i < upto <= states.len(),
        upto <= usize::MAX,
        linked(space, checker, from, states[i], radius),
    ensures
        spec_links(space, checker, states, from, radius, upto).contains(
            Edge { to: i as usize, length: space.spec_distance(from, states[i]) },
        ),
    decreases upto,
{
    let all = spec_links(space, checker, states, from, radius, upto);
    let rest = spec_links(space, checker, states, from, radius, upto - 1);
    let wanted = Edge { to: i as usize, length: space.spec_distance(from, states[i]) };
    if i == upto - 1 {
        assert(all == rest.push(wanted));
        assert(all[all.len() - 1] == wanted);
    } else {
        lemma_links_are_complete(space, checker, states, from, radius, upto - 1, i);
        let k = choose|k: int| 0 <= k < rest.len() && rest[k] == wanted;
        assert(all[k] == wanted);
    }
}

/// Every edge is recorded at both of its ends, with the same length, and no
/// edge joins a milestone to itself.
pub open spec fn roadmap_undirected<S: State>(roadmap: Seq<Milestone<S>>) -> bool {
    forall|i: int, k: int|
        0 <= i < roadmap.len() && 0 <= k < roadmap[i].edges@.len() ==> {
            let e = #[trigger] roadmap[i].edges@[k];
            &&& e.to < roadmap.len()
            &&& e.to != i
            &&& roadmap[e.to as int].edges@.contains(Edge { to: i as usize, length: e.length })
        }
}

/// The motion between two states is valid in at least one direction.
pub open spec fn connected<SP: StateSpace, VC: StateValidityChecker<SP::StateType>>(
    space: &SP,
    checker: &VC,
    a: ModelOf<SP::StateType>,
    b: ModelOf<SP::StateType>,
) -> bool {
    motion_valid(space, checker, a, b) || motion_valid(space, checker, b, a)
}

/// The length that an edge between two milestones carries: the distance from
/// the milestone that was added later to the other, which is the distance
/// between the two in either direction.
pub open spec fn edge_length<SP: StateSpace>(
    space: &SP,
    roadmap: Seq<Milestone<SP::StateType>>,
    a: int,
    b: int,
) -> Length {
    if a < b {
        space.spec_distance(roadmap[b].state@, roadmap[a].state@)
    } else {
        space.spec_distance(roadmap[a].state@, roadmap[b].state@)
    }
}

/// Every milestone is valid, and every edge joins two milestones between
/// which the motion is valid in at least one direction, and carries the
/// distance between them.
pub open spec fn roadmap_sound<SP: StateSpace, VC: StateValidityChecker<SP::StateType>>(
    space: &SP,
    checker: &VC,
    roadmap: Seq<Milestone<SP::StateType>>,
) -> bool {
    &&& forall|i: int|
        0 <= i < roadmap.len() ==> checker.spec_is_valid((#[trigger] roadmap[i]).state@)
    &&& forall|i: int, k: int|
        0 <= i < roadmap.len() && 0 <= k < roadmap[i].edges@.len() ==> {
            let e = #[trigger] roadmap[i].edges@[k];
            &&& e.to < roadmap.len()
            &&& connected(space, checker, roadmap[i].state@, roadmap[e.to as int].state@)
            &&& e.length == edge_length(space, roadmap, i, e.to as int)
        }
}

/// Finds the milestones that `from` is joined to.
pub fn connect<SP: StateSpace, VC: StateValidityChecker<SP::StateType>>(
    space: &SP,
    checker: &VC,
    roadmap: &Vec<Milestone<SP::StateType>>,
    from: &SP::StateType,
    radius: Length,
) -> (links: Vec<Edge>)
    ensures
        links@ == spec_links(
            space,
            checker,
            milestone_models(roadmap@),
            from@,
            radius,
            roadmap.len() as int,
        ),
{
    let mut links: Vec<Edge> = Vec::new();
    let mut i: usize = 0;
    while i < roadmap.len()
        invariant
            i <= roadmap.len(),
            links@ == spec_links(space, checker, milestone_models(roadmap@), from@, radius, i as int),
        decreases roadmap.len() - i,
    {
        let d: Length = space.distance(from, &roadmap[i].state);
        if d < radius && check_motion(space, checker, from, &roadmap[i].state) {
            links.push(Edge { to: i, length: d });
        }
        i = i + 1;
    }
    links
}

/// Whether the list `after` begins with the list `before`.
pub open spec fn begins_with(after: Seq<Edge>, before: Seq<Edge>) -> bool {
    &&& after.len() >= before.len()
    &&& forall|k: int| 0 <= k < before.len() ==> #[trigger] after[k] == before[k]
}

/// Whether the roadmap `after` is the roadmap `before` grown by sampling:
/// every milestone of `before` stands at its place with its state and with
/// its edges in their order, to which edges may have been added; and every
/// milestone that was added lies within the bounds of the space.
pub open spec fn roadmap_grown_from<SP: StateSpace>(
    space: &SP,
    after: Seq<Milestone<SP::StateType>>,
    before: Seq<Milestone<SP::StateType>>,
) -> bool {
    &&& after.len() >= before.len()
    &&& forall|i: int|
        0 <= i < before.len() ==> (#[trigger] after[i]).state == before[i].state && begins_with(
            after[i].edges@,
            before[i].edges@,
        )
    &&& forall|j: int|
        before.len() <= j < after.len() ==> space.spec_satisfies_bounds((#[trigger] after[j]).state@)
}

/// Whether milestone `j` records an edge to milestone `i`.
pub open spec fn joined<S: State>(roadmap: Seq<Milestone<S>>, j: int, i: int) -> bool {
    exists|k: int| 0 <= k < roadmap[j].edges@.len() && (#[trigger] roadmap[j].edges@[k]).to == i
}

/// Whether every milestone from `from` on is joined to exactly those of the
/// milestones before it that it was linked to when it came: those less than
/// `radius` away to which the motion from it is valid.
pub open spec fn joined_as_linked<SP: StateSpace, VC: StateValidityChecker<SP::StateType>>(
    space: &SP,
    checker: &VC,
    roadmap: Seq<Milestone<SP::StateType>>,
    from: int,
    radius: Length,
) -> bool {
    forall|i: int, j: int|
        0 <= i < j < roadmap.len() && from <= j ==> (#[trigger] joined(roadmap, j, i) <==> linked(
            space,
            checker,
            roadmap[j].state@,
            roadmap[i].state@,
            radius,
        ))
}

/// A roadmap whose milestones from `from` on are joined as they were linked
/// stays so when a milestone is added as `add_milestone` adds it.
pub proof fn lemma_added_milestone_is_joined_as_linked<
    SP: StateSpace,
    VC: StateValidityChecker<SP::StateType>,
>(
    space: &SP,
    checker: &VC,
    before: Seq<Milestone<SP::StateType>>,
    after: Seq<Milestone<SP::StateType>>,
    from: int,
    radius: Length,
)
    requires
        0 <= from <= before.len() < usize::MAX,
        joined_as_linked(space, checker, before, from, radius),
        after.len() == before.len() + 1,
        after.last().edges@ == spec_links(
            space,
            checker,
            milestone_models(before),
            after.last().state@,
            radius,
            before.len() as int,
        ),
        forall|i: int|
            0 <= i < before.len() ==> {
                &&& (#[trigger] after[i]).state == before[i].state
                &&& after[i].edges@ == if linked(
                    space,
                    checker,
                    after.last().state@,
                    before[i].state@,
                    radius,
                ) {
                    before[i].edges@.push(
                        Edge {
                            to: before.len() as usize,
                            length: space.spec_distance(after.last().state@, before[i].state@),
                        },
                    )
                } else {
                    before[i].edges@
                }
            },
    ensures
        joined_as_linked(space, checker, after, from, radius),
{
    let n = before.len() as int;
    let states = milestone_models(before);
    let state = after.last().state@;
    let links = spec_links(space, checker, states, state, radius, n);
    lemma_links(space, checker, states, state, radius, n);
    assert forall|i: int, j: int| 0 <= i < j < after.len() && from <= j implies (#[trigger] joined(
        after,
        j,
        i,
    ) <==> linked(space, checker, after[j].state@, after[i].state@, radius)) by {
        assert(after[i].state == before[i].state);
        if j < n {
            assert(after[j].state == before[j].state);
            assert(joined(before, j, i) <==> linked(
                space,
                checker,
                before[j].state@,
                before[i].state@,
                radius,
            ));
            if joined(before, j, i) {
                let k = choose|k: int|
                    0 <= k < before[j].edges@.len() && (#[trigger] before[j].edges@[k]).to == i;
                assert(after[j].edges@[k].to == i);
            }
            if joined(after, j, i) {
                let k = choose|k: int|
                    0 <= k < after[j].edges@.len() && (#[trigger] after[j].edges@[k]).to == i;
                if k < before[j].edges@.len() {
                    assert(before[j].edges@[k].to == i);
                }
            }
        } else {
            assert(after[j] == after.last());
            assert(states[i] == before[i].state@);
            if linked(space, checker, state, states[i], radius) {
                lemma_links_are_complete(space, checker, states, state, radius, n, i);
                let wanted = Edge { to: i as usize, length: space.spec_distance(state, states[i]) };
                let k = choose|k: int| 0 <= k < links.len() && links[k] == wanted;
                assert(after[j].edges@[k].to == i);
            }
            if joined(after, j, i) {
                let k = choose|k: int|
                    0 <= k < after[j].edges@.len() && (#[trigger] after[j].edges@[k]).to == i;
                assert(links[k].to == i);
            }
        }
    }
}

/// Adds a valid state to the roadmap and joins it, in both directions, to
/// every milestone that it is linked to.
pub fn add_milestone<SP: StateSpace, VC: StateValidityChecker<SP::StateType>>(
    space: &SP,
    checker: &VC,
    roadmap: &mut Vec<Milestone<SP::StateType>>,
    state: SP::StateType,
    radius: Length,
)
    requires
        roadmap_sound(space, checker, old(roadmap)@),
        checker.spec_is_valid(state@),
    ensures
        roadmap_sound(space, checker, final(roadmap)@),
        roadmap_undirected(old(roadmap)@) ==> roadmap_undirected(final(roadmap)@),
        final(roadmap)@.len() == old(roadmap)@.len() + 1,
        final(roadmap)@.last().state == state,
        final(roadmap)@.last().edges@ == spec_links(
            space,
            checker,
            milestone_models(old(roadmap)@),
            state@,
            radius,
            old(roadmap)@.len() as int,
        ),
        forall|i: int|
            0 <= i < old(roadmap)@.len() ==> {
                &&& (#[trigger] final(roadmap)@[i]).state == old(roadmap)@[i].state
                &&& final(roadmap)@[i].edges@ == if linked(
                    space,
                    checker,
                    state@,
                    old(roadmap)@[i].state@,
                    radius,
                ) {
                    old(roadmap)@[i].edges@.push(
                        Edge {
                            to: old(roadmap)@.len() as usize,
                            length: space.spec_distance(state@, old(roadmap)@[i].state@),
                        },
                    )
                } else {
                    old(roadmap)@[i].edges@
                }
            },
{
    let n: usize = roadmap.len();
    let ghost before = roadmap@;
    let ghost states = milestone_models(before);
    let mut links: Vec<Edge> = Vec::new();
    let mut i: usize = 0;
    while i < n
        invariant
            i <= n,
            n == before.len(),
            roadmap@.len() == n,
            states == milestone_models(before),
            links@ == spec_links(space, checker, states, state@, radius, i as int),
            forall|j: int|
                0 <= j < n ==> {
                    &&& (#[trigger] roadmap@[j]).state == before[j].state
                    &&& roadmap@[j].edges@ == if j < i && linked(
                        space,
                        checker,
                        state@,
                        before[j].state@,
                        radius,
                    ) {
                        before[j].edges@.push(
                            Edge { to: n, length: space.spec_distance(state@, before[j].state@) },
                        )
                    } else {
                        before[j].edges@
                    }
                },
        decreases n - i,
    {
        let d: Length = space.distance(&state, &roadmap[i].state);
        if d < radius && check_motion(space, checker, &state, &roadmap[i].state) {
            links.push(Edge { to: i, length: d });
            roadmap[i].edges.push(Edge { to: n, length: d });
        }
        i = i + 1;
    }
    roadmap.push(Milestone { state, edges: links });
    proof {
        let after = roadmap@;
        lemma_links(space, checker, states, state@, radius, n as int);
        assert forall|a: int| 0 <= a < after.len() implies checker.spec_is_valid(
            (#[trigger] after[a]).state@,
        ) by {
            if a < n {
                assert(after[a].state == before[a].state);
                assert(checker.spec_is_valid(before[a].state@));
            }
        }
        assert forall|a: int, k: int|
            0 <= a < after.len() && 0 <= k < after[a].edges@.len() implies {
            let e = #[trigger] after[a].edges@[k];
            &&& e.to < after.len()
            &&& connected(space, checker, after[a].state@, after[e.to as int].state@)
            &&& e.length == edge_length(space, after, a, e.to as int)
        } by {
            let e = after[a].edges@[k];
            if a < n {
                assert(after[a].state == before[a].state);
                if k < before[a].edges@.len() {
                    assert(e == before[a].edges@[k]);
                    assert(after[e.to as int].state == before[e.to as int].state);
                } else {
                    assert(e.to == n);
                }
            } else {
                let l = spec_links(space, checker, states, state@, radius, n as int);
                assert(e == l[k]);
                assert(after[e.to as int].state == before[e.to as int].state);
                assert(states[e.to as int] == before[e.to as int].state@);
            }
        }
        if roadmap_undirected(before) {
            let l = spec_links(space, checker, states, state@, radius, n as int);
            assert forall|a: int, k: int|
                0 <= a < after.len() && 0 <= k < after[a].edges@.len() implies {
                let e = #[trigger] after[a].edges@[k];
                &&& e.to < after.len()
                &&& e.to != a
                &&& after[e.to as int].edges@.contains(Edge { to: a as usize, length: e.length })
            } by {
                let e = after[a].edges@[k];
                if a < n {
                    assert(after[a].state == before[a].state);
                    if k < before[a].edges@.len() {
                        assert(e == before[a].edges@[k]);
                        let back = Edge { to: a as usize, length: e.length };
                        let w = choose|w: int|
                            0 <= w < before[e.to as int].edges@.len() && before[e.to as int].edges@[w]
                                == back;
                        assert(after[e.to as int].state == before[e.to as int].state);
                        assert(after[e.to as int].edges@[w] == back);
                    } else {
                        assert(e.to == n);
                        assert(states[a] == before[a].state@);
                        lemma_links_are_complete(space, checker, states, state@, radius, n as int, a);
                    }
                } else {
                    assert(e == l[k]);
                    let t = e.to as int;
                    assert(after[t].state == before[t].state);
                    assert(states[t] == before[t].state@);
                    let back = Edge { to: n, length: e.length };
                    assert(after[t].edges@ == before[t].edges@.push(back));
                    assert(after[t].edges@[before[t].edges@.len() as int] == back);
                }
            }
        }
    }
}

/// The graph that a query searches: the roadmap, and one more node, the last,
/// which stands for the start state and has an edge to every milestone that
/// the start is joined to.
pub open spec fn query_graph<SP: StateSpace, VC: StateValidityChecker<SP::StateType>>(
    space: &SP,
    checker: &VC,
    roadmap: Seq<Milestone<SP::StateType>>,
    start: ModelOf<SP::StateType>,
    radius: Length,
) -> Seq<Seq<Edge>> {
    Seq::new(
        (roadmap.len() + 1) as nat,
        |u: int|
            if u < roadmap.len() {
                roadmap[u].edges@
            } else {
                spec_links(
                    space,
                    checker,
                    milestone_models(roadmap),
                    start,
                    radius,
                    roadmap.len() as int,
                )
            },
    )
}

/// Whether `route` leads from the start node to the milestone `target`, and
/// that milestone satisfies the goal.
pub open spec fn reaches_goal<S: State, G: Goal<S>>(
    g: Seq<Seq<Edge>>,
    goal: &G,
    roadmap: Seq<Milestone<S>>,
    route: Seq<Hop>,
    target: int,
) -> bool {
    &&& 0 <= target < roadmap.len()
    &&& goal.spec_is_satisfied(roadmap[target].state@)
    &&& is_route(g, roadmap.len() as int, target, route)
}

/// A route through a roadmap: its hops in the query graph, and the milestone
/// that each hop arrives at.
pub struct RoadmapRoute {
    pub hops: Vec<Hop>,
    pub stops: Vec<usize>,
}

/// Copies a list of edges.
fn copy_edges(edges: &Vec<Edge>) -> (copy: Vec<Edge>)
    ensures
        copy@ == edges@,
{
    let mut copy: Vec<Edge> = Vec::new();
    let mut i: usize = 0;
    while i < edges.len()
        invariant
            i <= edges.len(),
            copy@ == edges@.subrange(0, i as int),
        decreases edges.len() - i,
    {
        copy.push(edges[i]);
        i = i + 1;
        assert(copy@ == edges@.subrange(0, i as int));
    }
    assert(edges@.subrange(0, edges.len() as int) == edges@);
    copy
}

/// Searches the roadmap for the cheapest way from `start` to a milestone
/// that satisfies the goal: joins the start to the roadmap, runs Dijkstra
/// from it, and picks the nearest goal milestone, the earliest among equals.
pub fn find_route<
    SP: StateSpace,
    G: Goal<SP::StateType>,
    VC: StateValidityChecker<SP::StateType>,
>(
    space: &SP,
    checker: &VC,
    goal: &G,
    roadmap: &Vec<Milestone<SP::StateType>>,
    start: &SP::StateType,
    radius: Length,
) -> (found: Option<RoadmapRoute>)
    requires
        roadmap_sound(space, checker, roadmap@),
        roadmap.len() < usize::MAX,
    ensures
        match found {
            Some(r) => {
                let g = query_graph(space, checker, roadmap@, start@, radius);
                &&& r.hops@.len() >= 1
                &&& r.stops@.len() == r.hops@.len()
                &&& reaches_goal(g, goal, roadmap@, r.hops@, r.stops@.last() as int)
                &&& forall|k: int|
                    0 <= k < r.hops@.len() ==> #[trigger] r.stops@[k] == hop_edge(g, r.hops@[k]).to
                &&& forall|r2: Seq<Hop>, t2: int| #[trigger]
                    reaches_goal(g, goal, roadmap@, r2, t2) ==> route_cost(g, r.hops@)
                        <= route_cost(g, r2)
            },
            None => forall|r2: Seq<Hop>, t2: int|
                !#[trigger] reaches_goal(
                    query_graph(space, checker, roadmap@, start@, radius),
                    goal,
                    roadmap@,
                    r2,
                    t2,
                ),
        },
{
    let n: usize = roadmap.len();
    let ghost g = query_graph(space, checker, roadmap@, start@, radius);
    let start_links = connect(space, checker, roadmap, start, radius);
    let mut graph: Vec<Vec<Edge>> = Vec::new();
    let mut u: usize = 0;
    while u < n
        invariant
            u <= n,
            n == roadmap.len(),
            graph@.len() == u,
            forall|j: int| 0 <= j < u ==> (#[trigger] graph@[j])@ == roadmap@[j].edges@,
        decreases n - u,
    {
        graph.push(copy_edges(&roadmap[u].edges));
        u = u + 1;
    }
    graph.push(start_links);
    proof {
        assert(adjacency(graph@) =~= g);
        lemma_links(space, checker, milestone_models(roadmap@), start@, radius, n as int);
        assert forall|a: int, k: int| 0 <= a < g.len() && 0 <= k < g[a].len() implies (#[trigger] g[a][k]).to
            < g.len() by {
            if a < n {
                assert(g[a][k] == roadmap@[a].edges@[k]);
            }
        }
    }
    let sp: ShortestPaths = dijkstra(&graph, n);
    let mut best: Option<usize> = None;
    let mut best_d: u128 = 0;
    let mut t: usize = 0;
    while t < n
        invariant
            t <= n,
            n == roadmap.len(),
            sp.dist@.len() == n + 1,
            best is None ==> forall|j: int|
                0 <= j < t && goal.spec_is_satisfied(roadmap@[j].state@) ==> (#[trigger] sp.dist@[j])
                    is None,
            best matches Some(b) ==> {
                &&& b < t
                &&& goal.spec_is_satisfied(roadmap@[b as int].state@)
                &&& sp.dist@[b as int] == Some(best_d)
                &&& forall|j: int|
                    0 <= j < t && goal.spec_is_satisfied(roadmap@[j].state@) && (
                    #[trigger] sp.dist@[j]) is Some ==> best_d <= sp.dist@[j]->0
            },
        decreases n - t,
    {
        match sp.dist[t] {
            Some(d) => {
                if (best.is_none() || d < best_d) && goal.is_satisfied(&roadmap[t].state) {
                    best = Some(t);
                    best_d = d;
                }
            },
            None => {},
        }
        t = t + 1;
    }
    match best {
        None => {
            proof {
                assert forall|r2: Seq<Hop>, t2: int| !#[trigger] reaches_goal(
                    g,
                    goal,
                    roadmap@,
                    r2,
                    t2,
                ) by {
                    if reaches_goal(g, goal, roadmap@, r2, t2) {
                        assert(is_shortest(g, n as int, t2, sp.dist@[t2]));
                        assert(is_route(g, n as int, t2, r2));
                    }
                }
            }
            None
        },
        Some(b) => {
            let hops = sp.route_to(&graph, b);
            proof {
                sp.lemma_route_of(g, b as int);
                assert forall|r2: Seq<Hop>, t2: int| #[trigger]
                    reaches_goal(g, goal, roadmap@, r2, t2) implies route_cost(g, hops@)
                    <= route_cost(g, r2) by {
                    assert(is_shortest(g, n as int, t2, sp.dist@[t2]));
                    assert(is_route(g, n as int, t2, r2));
                }
                lemma_route_chain(g, n as int, b as int, hops@);
            }
            let mut stops: Vec<usize> = Vec::new();
            let mut k: usize = 0;
            while k < hops.len()
                invariant
                    k <= hops.len(),
                    stops@.len() == k,
                    g == adjacency(graph@),
                    forall|j: int| 0 <= j < hops@.len() ==> hop_ok(g, #[trigger] hops@[j]),
                    forall|j: int| 0 <= j < k ==> #[trigger] stops@[j] == hop_edge(g, hops@[j]).to,
                decreases hops.len() - k,
            {
                let h: Hop = hops[k];
                assert(hop_ok(g, h));
                stops.push(graph[h.from][h.slot].to);
                k = k + 1;
            }
            Some(RoadmapRoute { hops, stops })
        },
    }
}

/// The points of the path that starts at `start` and visits the milestones
/// `stops` in order.
pub open spec fn spec_route_states<S: State>(
    roadmap: Seq<Milestone<S>>,
    start: ModelOf<S>,
    stops: Seq<usize>,
) -> Seq<ModelOf<S>> {
    Seq::new(
        (stops.len() + 1) as nat,
        |k: int|
            if k == 0 {
                start
            } else {
                roadmap[stops[k - 1] as int].state@
            },
    )
}

/// Copies the start state and the milestones `stops` into a path.
pub fn route_states<S: State>(roadmap: &Vec<Milestone<S>>, start: &S, stops: &Vec<usize>) -> (path:
    Vec<S>)
    requires
        forall|k: int| 0 <= k < stops@.len() ==> #[trigger] stops@[k] < roadmap@.len(),
    ensures
        path@.len() == stops@.len() + 1,
        forall|k: int|
            0 <= k < path@.len() ==> (#[trigger] path@[k])@ == spec_route_states(
                roadmap@,
                start@,
                stops@,
            )[k],
{
    let mut path: Vec<S> = Vec::new();
    path.push(*start.clone_box());
    let mut k: usize = 0;
    while k < stops.len()
        invariant
            k <= stops.len(),
            path@.len() == k + 1,
            forall|j: int| 0 <= j < stops@.len() ==> #[trigger] stops@[j] < roadmap@.len(),
            forall|j: int|
                0 <= j < path@.len() ==> (#[trigger] path@[j])@ == spec_route_states(
                    roadmap@,
                    start@,
                    stops@,
                )[j],
        decreases stops.len() - k,
    {
        let stop: usize = stops[k];
        path.push(*roadmap[stop].state.clone_box());
        k = k + 1;
    }
    path
}

/// In a roadmap whose milestones were all joined as they were linked with
/// `radius`, and whose edges are recorded at both ends, every edge joins two
/// milestones less than `radius` apart.
pub proof fn lemma_edges_are_within_radius<SP: StateSpace, VC: StateValidityChecker<SP::StateType>>(
    space: &SP,
    checker: &VC,
    roadmap: Seq<Milestone<SP::StateType>>,
    radius: Length,
    u: int,
    k: int,
)
    requires
        roadmap_undirected(roadmap),
        joined_as_linked(space, checker, roadmap, 0, radius),
        0 <= u < roadmap.len(),
        0 <= k < roadmap[u].edges@.len(),
    ensures
        roadmap[u].edges@[k].to < roadmap.len(),
        space.spec_distance(roadmap[u].state@, roadmap[roadmap[u].edges@[k].to as int].state@)
            < radius,
{
    let e = roadmap[u].edges@[k];
    let v = e.to as int;
    if v < u {
        assert(joined(roadmap, u, v));
    } else {
        let back = Edge { to: u as usize, length: e.length };
        assert(roadmap[v].edges@.contains(back));
        let j = choose|j: int| 0 <= j < roadmap[v].edges@.len() && roadmap[v].edges@[j] == back;
        assert(roadmap[v].edges@[j].to == u);
        assert(joined(roadmap, v, u));
        space.lemma_distance_is_symmetric(roadmap[v].state@, roadmap[u].state@);
    }
}

/// A route through a roadmap whose milestones were all joined with `radius`
/// never steps as far as `radius`: each of its states is less than `radius`
/// from the next.
pub proof fn lemma_route_stays_within_radius<
    SP: StateSpace,
    VC: StateValidityChecker<SP::StateType>,
>(
    space: &SP,
    checker: &VC,
    roadmap: Seq<Milestone<SP::StateType>>,
    start: ModelOf<SP::StateType>,
    radius: Length,
    dest: int,
    hops: Seq<Hop>,
    stops: Seq<usize>,
)
    requires
        roadmap_undirected(roadmap),
        joined_as_linked(space, checker, roadmap, 0, radius),
        roadmap.len() < usize::MAX,
        hops.len() >= 1,
        stops.len() == hops.len(),
        is_route(
            query_graph(space, checker, roadmap, start, radius),
            roadmap.len() as int,
            dest,
            hops,
        ),
        forall|k: int|
            0 <= k < hops.len() ==> #[trigger] stops[k] == hop_edge(
                query_graph(space, checker, roadmap, start, radius),
                hops[k],
            ).to,
    ensures
        forall|k: int|
            0 <= k < stops.len() ==> space.spec_distance(
                #[trigger] spec_route_states(roadmap, start, stops)[k],
                spec_route_states(roadmap, start, stops)[k + 1],
            ) < radius,
{
    let g = query_graph(space, checker, roadmap, start, radius);
    let n = roadmap.len() as int;
    let states = milestone_models(roadmap);
    let path = spec_route_states(roadmap, start, stops);
    lemma_route_chain(g, n, dest, hops);
    lemma_links(space, checker, states, start, radius, n);
    assert forall|k: int| 0 <= k < stops.len() implies #[trigger] stops[k] < roadmap.len() by {
        let h = hops[k];
        assert(hop_ok(g, h));
        if h.from < n {
            lemma_edges_are_within_radius(space, checker, roadmap, radius, h.from as int, h.slot as int);
        }
    }
    assert forall|k: int| 0 <= k < stops.len() implies space.spec_distance(
        #[trigger] path[k],
        path[k + 1],
    ) < radius by {
        let h = hops[k];
        assert(hop_ok(g, h));
        assert(stops[k] == hop_edge(g, h).to);
        if k == 0 {
            assert(h.from == n);
            let e = g[n][h.slot as int];
            assert(linked(space, checker, start, states[e.to as int], radius));
        } else {
            assert(hop_edge(g, hops[k - 1]).to == hops[k].from);
            assert(h.from == stops[k - 1]);
            assert(stops[k - 1] < roadmap.len());
            lemma_edges_are_within_radius(space, checker, roadmap, radius, h.from as int, h.slot as int);
        }
    }
}

/// A route through a sound roadmap, taken from a valid start, visits only
/// valid states, and each of its motions is valid in at least one direction.
pub proof fn lemma_route_is_connected<SP: StateSpace, VC: StateValidityChecker<SP::StateType>>(
    space: &SP,
    checker: &VC,
    roadmap: Seq<Milestone<SP::StateType>>,
    start: ModelOf<SP::StateType>,
    radius: Length,
    dest: int,
    hops: Seq<Hop>,
    stops: Seq<usize>,
)
    requires
        roadmap_sound(space, checker, roadmap),
        roadmap.len() < usize::MAX,
        checker.spec_is_valid(start),
        hops.len() >= 1,
        stops.len() == hops.len(),
        is_route(
            query_graph(space, checker, roadmap, start, radius),
            roadmap.len() as int,
            dest,
            hops,
        ),
        forall|k: int|
            0 <= k < hops.len() ==> #[trigger] stops[k] == hop_edge(
                query_graph(space, checker, roadmap, start, radius),
                hops[k],
            ).to,
    ensures
        stops.last() == dest,
        forall|k: int| 0 <= k < stops.len() ==> #[trigger] stops[k] < roadmap.len(),
        forall|k: int|
            0 <= k <= stops.len() ==> checker.spec_is_valid(
                #[trigger] spec_route_states(roadmap, start, stops)[k],
            ),
        forall|k: int|
            0 <= k < stops.len() ==> connected(
                space,
                checker,
                #[trigger] spec_route_states(roadmap, start, stops)[k],
                spec_route_states(roadmap, start, stops)[k + 1],
            ),
{
    let g = query_graph(space, checker, roadmap, start, radius);
    let n = roadmap.len() as int;
    let states = milestone_models(roadmap);
    let path = spec_route_states(roadmap, start, stops);
    lemma_route_chain(g, n, dest, hops);
    lemma_links(space, checker, states, start, radius, n);
    assert forall|k: int| 0 <= k < stops.len() implies #[trigger] stops[k] < roadmap.len() by {
        let h = hops[k];
        assert(hop_ok(g, h));
        if h.from < n {
            assert(g[h.from as int][h.slot as int] == roadmap[h.from as int].edges@[h.slot as int]);
        }
    }
    assert forall|k: int| 0 <= k <= stops.len() implies checker.spec_is_valid(#[trigger] path[k]) by {
        if k > 0 {
            assert(stops[k - 1] < roadmap.len());
        }
    }
    assert forall|k: int| 0 <= k < stops.len() implies connected(
        space,
        checker,
        #[trigger] path[k],
        path[k + 1],
    ) by {
        let h = hops[k];
        assert(hop_ok(g, h));
        assert(stops[k] == hop_edge(g, h).to);
        if k == 0 {
            assert(h.from == n);
            let e = g[n][h.slot as int];
            assert(linked(space, checker, start, states[e.to as int], radius));
        } else {
            assert(hop_edge(g, hops[k - 1]).to == hops[k].from);
            assert(h.from == stops[k - 1]);
            assert(stops[k - 1] < roadmap.len());
            assert(g[h.from as int][h.slot as int] == roadmap[h.from as int].edges@[h.slot as int]);
        }
    }
}

/// The cost of a route through a sound roadmap is the length of the path
/// that it spells out.
pub proof fn lemma_route_cost_is_path_length<
    SP: StateSpace,
    VC: StateValidityChecker<SP::StateType>,
>(
    space: &SP,
    checker: &VC,
    roadmap: Seq<Milestone<SP::StateType>>,
    start: ModelOf<SP::StateType>,
    radius: Length,
    dest: int,
    hops: Seq<Hop>,
    stops: Seq<usize>,
)
    requires
        roadmap_sound(space, checker, roadmap),
        roadmap.len() < usize::MAX,
        stops.len() == hops.len(),
        is_route(
            query_graph(space, checker, roadmap, start, radius),
            roadmap.len() as int,
            dest,
            hops,
        ),
        forall|k: int|
            0 <= k < hops.len() ==> #[trigger] stops[k] == hop_edge(
                query_graph(space, checker, roadmap, start, radius),
                hops[k],
            ).to,
    ensures
        route_cost(query_graph(space, checker, roadmap, start, radius), hops) == path_length(
            space,
            spec_route_states(roadmap, start, stops),
        ),
    decreases hops.len(),
{
    let g = query_graph(space, checker, roadmap, start, radius);
    let n = roadmap.len() as int;
    let states = milestone_models(roadmap);
    let path = spec_route_states(roadmap, start, stops);
    if hops.len() == 0 {
        assert(path.len() == 1);
    } else {
        let h = hops.last();
        let before = hops.drop_last();
        let earlier = stops.drop_last();
        lemma_route_chain(g, n, dest, hops);
        lemma_links(space, checker, states, start, radius, n);
        assert forall|k: int| 0 <= k < before.len() implies #[trigger] earlier[k] == hop_edge(
            g,
            before[k],
        ).to by {
            assert(earlier[k] == stops[k]);
            assert(before[k] == hops[k]);
        }
        lemma_route_cost_is_path_length(
            space,
            checker,
            roadmap,
            start,
            radius,
            h.from as int,
            before,
            earlier,
        );
        assert(path.drop_last() =~= spec_route_states(roadmap, start, earlier));
        assert(hop_ok(g, h));
        let to = stops.last() as int;
        assert(to == hop_edge(g, h).to);
        if h.from == n {
            let e = g[n][h.slot as int];
            assert(linked(space, checker, start, states[e.to as int], radius));
            assert(e.length == space.spec_distance(start, states[e.to as int]));
            if before.len() > 0 {
                lemma_route_chain(g, n, h.from as int, before);
                let p = before.last();
                assert(hop_ok(g, p));
                if p.from < n {
                    assert(g[p.from as int][p.slot as int] == roadmap[p.from as int].edges@[p.slot as int]);
                }
                assert(hop_edge(g, p).to < n);
            }
            assert(path[path.len() - 2] == start);
            assert(to < n);
        } else {
            let u = h.from as int;
            assert(g[u][h.slot as int] == roadmap[u].edges@[h.slot as int]);
            assert(hop_edge(g, h).length == edge_length(space, roadmap, u, to));
            space.lemma_distance_is_symmetric(roadmap[u].state@, roadmap[to].state@);
            assert(before.len() > 0) by {
                if before.len() == 0 {
                    assert(is_route(g, n, u, before));
                }
            }
            lemma_route_chain(g, n, u, before);
            assert(hop_edge(g, before.last()).to == u);
            assert(earlier.last() == u);
            assert(path[path.len() - 2] == roadmap[u].state@);
        }
    }
}

} // verus!
