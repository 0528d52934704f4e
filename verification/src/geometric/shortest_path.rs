//! Shortest routes in a directed graph whose edges have lengths.

use vstd::prelude::*;
use vstd::set_lib::{lemma_int_range, lemma_subset_equality, set_int_range};
use crate::base::measure::Length;

verus! {

/// An edge out of a node.
#[derive(Clone, Copy, Debug, PartialEq, Eq, Structural)]
pub struct Edge {
    /// The node that the edge leads to.
    pub to: usize,
    pub length: Length,
}

/// One step of a route: the edge in position `slot` among those out of `from`.
#[derive(Clone, Copy, Debug, PartialEq, Eq, Structural)]
pub struct Hop {
    pub from: usize,
    pub slot: usize,
}

/// The graph that a list of edge lists stands for.
pub open spec fn adjacency(g: Seq<Vec<Edge>>) -> Seq<Seq<Edge>> {
    Seq::new(g.len(), |u: int| g[u]@)
}

/// Every edge leads to a node of the graph.
pub open spec fn graph_wf(g: Seq<Seq<Edge>>) -> bool {
    forall|u: int, k: int|
        0 <= u < g.len() && 0 <= k < g[u].len() ==> (#[trigger] g[u][k]).to < g.len()
}

/// Whether a hop names an edge of the graph.
pub open spec fn hop_ok(g: Seq<Seq<Edge>>, h: Hop) -> bool {
    h.from < g.len() && h.slot < g[h.from as int].len()
}

/// The edge that a hop takes.
pub open spec fn hop_edge(g: Seq<Seq<Edge>>, h: Hop) -> Edge {
    g[h.from as int][h.slot as int]
}

/// Whether `hops` leads from `source` to `dest`, each hop starting where the
/// one before it ended. The empty route stays where it is.
pub open spec fn is_route(g: Seq<Seq<Edge>>, source: int, dest: int, hops: Seq<Hop>) -> bool
    decreases hops.len(),
{
    if hops.len() == 0 {
        source == dest && 0 <= source < g.len()
    } else {
        let h = hops.last();
        &&& hop_ok(g, h)
        &&& hop_edge(g, h).to == dest
        &&& is_route(g, source, h.from as int, hops.drop_last())
    }
}

/// The sum of the lengths of the edges of a route.
pub open spec fn route_cost(g: Seq<Seq<Edge>>, hops: Seq<Hop>) -> nat
    decreases hops.len(),
{
    if hops.len() == 0 {
        0
    } else {
        route_cost(g, hops.drop_last()) + hop_edge(g, hops.last()).length as nat
    }
}

/// The hops of a route follow one another from the source to the end.
pub proof fn lemma_route_chain(g: Seq<Seq<Edge>>, source: int, dest: int, hops: Seq<Hop>)
    requires
        is_route(g, source, dest, hops),
        hops.len() > 0,
    ensures
        hops[0].from == source,
        hop_edge(g, hops.last()).to == dest,
        forall|k: int| 0 <= k < hops.len() ==> hop_ok(g, #[trigger] hops[k]),
        forall|k: int|
            0 <= k < hops.len() - 1 ==> (#[trigger] hop_edge(g, hops[k])).to == hops[k + 1].from,
    decreases hops.len(),
{
    let init = hops.drop_last();
    let h = hops.last();
    if init.len() > 0 {
        lemma_route_chain(g, source, h.from as int, init);
        assert forall|k: int| 0 <= k < hops.len() implies hop_ok(g, #[trigger] hops[k]) by {
            if k < init.len() {
                assert(hops[k] == init[k]);
            }
        }
        assert forall|k: int| 0 <= k < hops.len() - 1 implies (#[trigger] hop_edge(g, hops[k])).to
            == hops[k + 1].from by {
            assert(hops[k] == init[k]);
            if k < init.len() - 1 {
                assert(hops[k + 1] == init[k + 1]);
            } else {
                assert(init[k] == init.last());
            }
        }
        assert(hops[0] == init[0]);
    } else {
        assert(is_route(g, source, h.from as int, init));
        assert(hops[0] == h);
    }
}

/// Whether `d` is the cost of the cheapest route from `source` to `v`, with
/// `None` for a node that no route reaches.
pub open spec fn is_shortest(g: Seq<Seq<Edge>>, source: int, v: int, d: Option<u128>) -> bool {
    match d {
        Some(d) => {
            &&& exists|r: Seq<Hop>| #[trigger] is_route(g, source, v, r) && route_cost(g, r) == d
            &&& forall|r: Seq<Hop>| #[trigger] is_route(g, source, v, r) ==> route_cost(g, r) >= d
        },
        None => forall|r: Seq<Hop>| !#[trigger] is_route(g, source, v, r),
    }
}

/// The outcome of a search from one source: for every node the cost of the
/// cheapest route to it and the last hop of such a route.
pub struct ShortestPaths {
    pub source: usize,
    /// The cost of the cheapest route to each node; `None` where there is none.
    pub dist: Vec<Option<u128>>,
    /// The last hop of a cheapest route to each node.
    pub pred: Vec<Option<Hop>>,
    /// The number of hops of that route.
    pub depth: Vec<usize>,
}

/// The edge in position `k` out of `u` cannot shorten the route to its end.
pub open spec fn relaxed_edge(g: Seq<Seq<Edge>>, dist: Seq<Option<u128>>, u: int, k: int) -> bool {
    &&& dist[u] is Some
    &&& dist[g[u][k].to as int] is Some
    &&& dist[g[u][k].to as int]->0 <= dist[u]->0 + g[u][k].length
}

/// The last hop recorded for `v` accounts for the cost recorded for `v`.
pub open spec fn tree_link(
    g: Seq<Seq<Edge>>,
    source: int,
    dist: Seq<Option<u128>>,
    pred: Seq<Option<Hop>>,
    depth: Seq<usize>,
    v: int,
) -> bool {
    match pred[v] {
        Some(h) => {
            &&& hop_ok(g, h)
            &&& hop_edge(g, h).to == v
            &&& dist[h.from as int] is Some
            &&& dist[v] is Some
            &&& dist[v]->0 == dist[h.from as int]->0 + hop_edge(g, h).length
            &&& depth[h.from as int] < depth[v]
        },
        None => (v == source && dist[v] == Some(0u128)) || (v != source && dist[v] is None),
    }
}

impl ShortestPaths {
    /// The recorded hops form a tree rooted at the source, and no edge out of
    /// a reached node can shorten a route.
    pub open spec fn wf(&self, g: Seq<Seq<Edge>>) -> bool {
        &&& self.source < g.len()
        &&& self.dist@.len() == g.len()
        &&& self.pred@.len() == g.len()
        &&& self.depth@.len() == g.len()
        &&& self.pred@[self.source as int] is None
        &&& forall|v: int|
            0 <= v < g.len() ==> #[trigger] tree_link(
                g,
                self.source as int,
                self.dist@,
                self.pred@,
                self.depth@,
                v,
            )
        &&& forall|u: int, k: int|
            0 <= u < g.len() && self.dist@[u] is Some && 0 <= k < g[u].len()
                ==> #[trigger] relaxed_edge(g, self.dist@, u, k)
    }

    /// The route to `v` that the recorded hops spell out.
    pub open spec fn route_of(&self, g: Seq<Seq<Edge>>, v: int) -> Seq<Hop>
        decreases self.depth@[v],
    {
        if 0 <= v < g.len() && self.wf(g) && self.pred@[v] is Some {
            let h = self.pred@[v]->0;
            if tree_link(g, self.source as int, self.dist@, self.pred@, self.depth@, v) {
                self.route_of(g, h.from as int).push(h)
            } else {
                Seq::empty()
            }
        } else {
            Seq::empty()
        }
    }

    /// The recorded route to a reached node is a route, and it costs what
    /// was recorded.
    pub proof fn lemma_route_of(&self, g: Seq<Seq<Edge>>, v: int)
        requires
            self.wf(g),
            0 <= v < g.len(),
            self.dist@[v] is Some,
        ensures
            is_route(g, self.source as int, v, self.route_of(g, v)),
            route_cost(g, self.route_of(g, v)) == self.dist@[v]->0,
        decreases self.depth@[v],
    {
        assert(tree_link(g, self.source as int, self.dist@, self.pred@, self.depth@, v));
        if self.pred@[v] is Some {
            let h = self.pred@[v]->0;
            let up = self.route_of(g, h.from as int);
            self.lemma_route_of(g, h.from as int);
            assert(self.route_of(g, v) == up.push(h));
            assert(up.push(h).drop_last() == up);
            assert(up.push(h).last() == h);
        }
    }

    /// No route to a node is cheaper than the cost recorded for it, and no
    /// route leads to a node without one.
    pub proof fn lemma_no_cheaper_route(&self, g: Seq<Seq<Edge>>, v: int, r: Seq<Hop>)
        requires
            self.wf(g),
            graph_wf(g),
            is_route(g, self.source as int, v, r),
        ensures
            self.dist@[v] is Some,
            self.dist@[v]->0 <= route_cost(g, r),
        decreases r.len(),
    {
        if r.len() == 0 {
            assert(tree_link(g, self.source as int, self.dist@, self.pred@, self.depth@, v));
        } else {
            let h = r.last();
            self.lemma_no_cheaper_route(g, h.from as int, r.drop_last());
            assert(relaxed_edge(g, self.dist@, h.from as int, h.slot as int));
        }
    }
}

/// A list of `n` copies of `x`.
fn filled<T: Copy>(n: usize, x: T) -> (v: Vec<T>)
    ensures
        v@.len() == n,
        forall|i: int| 0 <= i < n ==> #[trigger] v@[i] == x,
{
    let mut v: Vec<T> = Vec::new();
    while v.len() < n
        invariant
            v@.len() <= n,
            forall|i: int| 0 <= i < v@.len() ==> #[trigger] v@[i] == x,
        decreases n - v@.len(),
    {
        v.push(x);
    }
    v
}

/// What holds between the rounds of a search: the recorded hops form a tree
/// whose inner nodes are settled, and settled nodes are no farther than
/// unsettled ones.
spec fn search_inv(
    g: Seq<Seq<Edge>>,
    source: int,
    dist: Seq<Option<u128>>,
    pred: Seq<Option<Hop>>,
    depth: Seq<usize>,
    done: Seq<bool>,
    round: int,
) -> bool {
    let n = g.len();
    &&& 0 <= source < n
    &&& dist.len() == n
    &&& pred.len() == n
    &&& depth.len() == n
    &&& done.len() == n
    &&& pred[source] is None
    &&& forall|v: int| 0 <= v < n ==> #[trigger] tree_link(g, source, dist, pred, depth, v)
    &&& forall|v: int| 0 <= v < n && (#[trigger] pred[v]) is Some ==> done[pred[v]->0.from as int]
    &&& forall|u: int| 0 <= u < n && #[trigger] done[u] ==> dist[u] is Some
    &&& forall|u: int, v: int|
        0 <= u < n && 0 <= v < n && #[trigger] done[u] && !#[trigger] done[v] && dist[v] is Some
            ==> dist[u]->0 <= dist[v]->0
    &&& forall|v: int| 0 <= v < n && (#[trigger] dist[v]) is Some ==> dist[v]->0 <= round * u64::MAX
    &&& forall|v: int| 0 <= v < n ==> #[trigger] depth[v] <= round
}

/// Finds, for every node, the cheapest route from `source`: Dijkstra's
/// algorithm, with the next node to settle found by a scan in which the
/// lowest index wins among equals.
pub fn dijkstra(g: &Vec<Vec<Edge>>, source: usize) -> (sp: ShortestPaths)
    requires
        graph_wf(adjacency(g@)),
        source < g.len(),
    ensures
        sp.wf(adjacency(g@)),
        sp.source == source,
        forall|v: int|
            0 <= v < g.len() ==> is_shortest(adjacency(g@), source as int, v, #[trigger] sp.dist@[v]),
{
    let ghost ga = adjacency(g@);
    let n: usize = g.len();
    let mut dist: Vec<Option<u128>> = filled(n, None);
    let mut pred: Vec<Option<Hop>> = filled(n, None);
    let mut depth: Vec<usize> = filled(n, 0);
    let mut done: Vec<bool> = filled(n, false);
    dist[source] = Some(0);
    let ghost mut marked: Set<int> = Set::empty();
    let mut round: usize = 0;
    while round < n
        invariant
            n == g.len(),
            ga == adjacency(g@),
            graph_wf(ga),
            round <= n,
            search_inv(ga, source as int, dist@, pred@, depth@, done@, round as int),
            forall|u: int, k: int|
                0 <= u < n && done@[u] && 0 <= k < ga[u].len() ==> #[trigger] relaxed_edge(
                    ga,
                    dist@,
                    u,
                    k,
                ),
            marked.finite(),
            marked.len() == round,
            forall|v: int| marked.contains(v) <==> (0 <= v < n && done@[v]),
            round == n ==> forall|v: int| 0 <= v < n ==> #[trigger] done@[v],
        ensures
            forall|v: int| 0 <= v < n && (#[trigger] dist@[v]) is Some ==> done@[v],
        decreases n - round,
    {
        let mut best: Option<usize> = None;
        let mut best_d: u128 = 0;
        let mut v: usize = 0;
        while v < n
            invariant
                v <= n,
                dist@.len() == n,
                done@.len() == n,
                best is None ==> forall|j: int|
                    0 <= j < v ==> #[trigger] done@[j] || dist@[j] is None,
                best matches Some(b) ==> {
                    &&& b < v
                    &&& !done@[b as int]
                    &&& dist@[b as int] == Some(best_d)
                    &&& forall|j: int|
                        0 <= j < v && !#[trigger] done@[j] && dist@[j] is Some ==> best_d
                            <= dist@[j]->0
                },
            decreases n - v,
        {
            if !done[v] {
                match dist[v] {
                    Some(d) => {
                        if best.is_none() || d < best_d {
                            best = Some(v);
                            best_d = d;
                        }
                    },
                    None => {},
                }
            }
            v = v + 1;
        }
        let u: usize = match best {
            Some(u) => u,
            None => {
                break ;
            },
        };
        let ghost dist0 = dist@;
        let ghost done0 = done@;
        done[u] = true;
        proof {
            assert(!marked.contains(u as int));
            marked = marked.insert(u as int);
            assert(best_d <= round * u64::MAX);
            assert((round + 1) * u64::MAX == round * u64::MAX + u64::MAX) by (nonlinear_arith);
            assert forall|b: int|
                0 <= b < n && !done@[b] && (#[trigger] dist@[b]) is Some implies best_d
                <= dist@[b]->0 by {
                assert(!done0[b]);
            }
            assert forall|a: int| 0 <= a < n && done@[a] implies (#[trigger] dist@[a])->0
                <= best_d by {
                if a != u {
                    assert(done0[a] && !done0[u as int]);
                }
            }
            assert forall|w: int| 0 <= w < n && (#[trigger] pred@[w]) is Some implies done@[pred@[w]->0.from as int] by {
                assert(tree_link(ga, source as int, dist@, pred@, depth@, w));
                assert(done0[pred@[w]->0.from as int]);
            }
            assert forall|a: int| 0 <= a < n && #[trigger] done@[a] implies dist@[a] is Some by {
                if a != u {
                    assert(done0[a]);
                }
            }
            assert forall|a: int, b: int|
                0 <= a < n && 0 <= b < n && #[trigger] done@[a] && !#[trigger] done@[b]
                    && dist@[b] is Some implies dist@[a]->0 <= dist@[b]->0 by {
                assert(dist@[a]->0 <= best_d);
                assert(best_d <= dist@[b]->0);
            }
            assert forall|w: int| 0 <= w < n && (#[trigger] dist@[w]) is Some implies dist@[w]->0
                <= (round + 1) * u64::MAX by {
                assert(dist@[w]->0 <= round * u64::MAX);
            }
            assert(search_inv(ga, source as int, dist@, pred@, depth@, done@, round + 1));
            assert forall|a: int, j: int|
                0 <= a < n && a != u && done@[a] && 0 <= j < ga[a].len()
                    implies #[trigger] relaxed_edge(ga, dist@, a, j) by {
                assert(done0[a]);
            }
        }
        let mut k: usize = 0;
        while k < g[u as usize].len()
            invariant
                n == g.len(),
                ga == adjacency(g@),
                graph_wf(ga),
                u < n,
                round < n,
                k <= ga[u as int].len(),
                done0.len() == n,
                done@ == done0.update(u as int, true),
                !done0[u as int],
                dist@[u as int] == Some(best_d),
                best_d <= round * u64::MAX,
                (round + 1) * u64::MAX == round * u64::MAX + u64::MAX,
                search_inv(ga, source as int, dist@, pred@, depth@, done@, round + 1),
                depth@[u as int] <= round,
                forall|a: int| 0 <= a < n && done@[a] ==> (#[trigger] dist@[a])->0 <= best_d,
                forall|b: int|
                    0 <= b < n && !done@[b] && (#[trigger] dist@[b]) is Some ==> best_d
                        <= dist@[b]->0,
                forall|a: int, j: int|
                    0 <= a < n && a != u && done@[a] && 0 <= j < ga[a].len()
                        ==> #[trigger] relaxed_edge(ga, dist@, a, j),
                forall|j: int| 0 <= j < k ==> #[trigger] relaxed_edge(ga, dist@, u as int, j),
            decreases ga[u as int].len() - k,
        {
            let e: Edge = g[u][k];
            assert(e == ga[u as int][k as int]);
            assert(e.to < n);
            let cand: u128 = best_d + e.length as u128;
            let ghost dist1 = dist@;
            let ghost pred1 = pred@;
            let ghost depth1 = depth@;
            if !done[e.to] {
                let better: bool = match dist[e.to] {
                    None => true,
                    Some(old) => cand < old,
                };
                if better {
                    let to: usize = e.to;
                    let du: usize = depth[u];
                    dist[to] = Some(cand);
                    pred[to] = Some(Hop { from: u, slot: k });
                    depth[to] = du + 1;
                    proof {
                        assert(to != u);
                        assert(to != source) by {
                            assert(tree_link(ga, source as int, dist1, pred1, depth1, source as int));
                        }
                        assert forall|w: int| 0 <= w < n implies #[trigger] tree_link(
                            ga,
                            source as int,
                            dist@,
                            pred@,
                            depth@,
                            w,
                        ) by {
                            assert(tree_link(ga, source as int, dist1, pred1, depth1, w));
                            if w != to && pred1[w] is Some {
                                let h = pred1[w]->0;
                                assert(done@[h.from as int]);
                                assert(h.from != to);
                            }
                        }
                        assert forall|w: int| 0 <= w < n && (#[trigger] pred@[w]) is Some implies done@[pred@[w]->0.from as int] by {
                            assert(tree_link(ga, source as int, dist@, pred@, depth@, w));
                            if w != to {
                                assert(pred1[w] is Some);
                            }
                        }
                        assert forall|a: int| 0 <= a < n && #[trigger] done@[a] implies dist@[a] is Some by {
                            assert(dist1[a] is Some);
                        }
                        assert forall|a: int| 0 <= a < n && done@[a] implies (#[trigger] dist@[a])->0
                            <= best_d by {
                            assert(dist1[a]->0 <= best_d);
                        }
                        assert forall|b: int|
                            0 <= b < n && !done@[b] && (#[trigger] dist@[b]) is Some implies best_d
                            <= dist@[b]->0 by {
                            if b != to {
                                assert(dist1[b] is Some);
                            }
                        }
                        assert forall|a: int, b: int|
                            0 <= a < n && 0 <= b < n && #[trigger] done@[a] && !#[trigger] done@[b]
                                && dist@[b] is Some implies dist@[a]->0 <= dist@[b]->0 by {
                            assert(dist@[a]->0 <= best_d);
                            assert(best_d <= dist@[b]->0);
                        }
                        assert forall|w: int| 0 <= w < n && (#[trigger] dist@[w]) is Some implies dist@[w]->0
                            <= (round + 1) * u64::MAX by {
                            if w != to {
                                assert(dist1[w] is Some);
                            }
                        }
                        assert forall|w: int| 0 <= w < n implies #[trigger] depth@[w] <= round + 1 by {
                            if w != to {
                                assert(depth1[w] <= round + 1);
                            }
                        }
                        assert(search_inv(ga, source as int, dist@, pred@, depth@, done@, round + 1));
                        assert forall|a: int, j: int|
                            0 <= a < n && a != u && done@[a] && 0 <= j < ga[a].len()
                                implies #[trigger] relaxed_edge(ga, dist@, a, j) by {
                            assert(relaxed_edge(ga, dist1, a, j));
                        }
                        assert forall|j: int| 0 <= j < k implies #[trigger] relaxed_edge(
                            ga,
                            dist@,
                            u as int,
                            j,
                        ) by {
                            assert(relaxed_edge(ga, dist1, u as int, j));
                        }
                    }
                }
            } else {
                proof {
                    assert(dist@[e.to as int]->0 <= best_d);
                }
            }
            assert(relaxed_edge(ga, dist@, u as int, k as int));
            k = k + 1;
        }
        round = round + 1;
        proof {
            if round == n {
                lemma_int_range(0, n as int);
                assert(marked.subset_of(set_int_range(0, n as int)));
                lemma_subset_equality(marked, set_int_range(0, n as int));
                assert forall|v: int| 0 <= v < n implies #[trigger] done@[v] by {
                    assert(set_int_range(0, n as int).contains(v));
                }
            }
        }
    }
    let sp = ShortestPaths { source, dist, pred, depth };
    proof {
        assert(sp.wf(ga));
        assert forall|v: int| 0 <= v < n implies is_shortest(
            ga,
            source as int,
            v,
            #[trigger] sp.dist@[v],
        ) by {
            match sp.dist@[v] {
                Some(d) => {
                    sp.lemma_route_of(ga, v);
                    assert forall|r: Seq<Hop>| #[trigger]
                        is_route(ga, source as int, v, r) implies route_cost(ga, r) >= d by {
                        sp.lemma_no_cheaper_route(ga, v, r);
                    }
                },
                None => {
                    assert forall|r: Seq<Hop>| !#[trigger] is_route(ga, source as int, v, r) by {
                        if is_route(ga, source as int, v, r) {
                            sp.lemma_no_cheaper_route(ga, v, r);
                        }
                    }
                },
            }
        }
    }
    sp
}

impl ShortestPaths {
    /// Reads the cheapest route to `v` off the recorded hops.
    pub fn route_to(&self, g: &Vec<Vec<Edge>>, v: usize) -> (route: Vec<Hop>)
        requires
            self.wf(adjacency(g@)),
            v < g.len(),
        ensures
            route@ == self.route_of(adjacency(g@), v as int),
    {
        let ghost ga = adjacency(g@);
        let ghost whole = self.route_of(ga, v as int);
        let mut reversed: Vec<Hop> = Vec::new();
        let mut cur: usize = v;
        loop
            invariant_except_break
                self.route_of(ga, cur as int) == whole.subrange(0, whole.len() - reversed.len()),
            invariant
                self.wf(ga),
                ga == adjacency(g@),
                cur < g.len(),
                whole == self.route_of(ga, v as int),
                reversed.len() <= whole.len(),
                forall|j: int|
                    0 <= j < reversed.len() ==> #[trigger] reversed[j] == whole[whole.len() - 1 - j],
            ensures
                reversed.len() == whole.len(),
            decreases self.depth@[cur as int],
        {
            proof {
                assert(tree_link(ga, self.source as int, self.dist@, self.pred@, self.depth@, cur as int));
            }
            match self.pred[cur] {
                Some(h) => {
                    proof {
                        let up = self.route_of(ga, h.from as int);
                        let here = self.route_of(ga, cur as int);
                        assert(here == up.push(h));
                        assert(here.len() == whole.len() - reversed.len());
                        assert(here.last() == h);
                        assert(h == whole[whole.len() - reversed.len() - 1]);
                        assert(here.drop_last() == up);
                        assert(up == whole.subrange(0, whole.len() - reversed.len() - 1));
                    }
                    reversed.push(h);
                    cur = h.from;
                },
                None => {
                    proof {
                        assert(self.route_of(ga, cur as int).len() == 0);
                    }
                    break ;
                },
            }
        }
        let mut route: Vec<Hop> = Vec::new();
        let mut left: usize = reversed.len();
        while left > 0
            invariant
                left <= reversed.len(),
                reversed.len() == whole.len(),
                route.len() + left == reversed.len(),
                forall|j: int|
                    0 <= j < reversed.len() ==> #[trigger] reversed[j] == whole[whole.len() - 1 - j],
                forall|j: int| 0 <= j < route.len() ==> #[trigger] route[j] == whole[j],
            decreases left,
        {
            left = left - 1;
            route.push(reversed[left]);
        }
        proof {
            assert(route@ =~= whole);
        }
        route
    }
}

} // verus!
