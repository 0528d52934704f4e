use oxmpl::base::error::StateSamplingError;
use oxmpl::base::goal::Goal;
use oxmpl::base::measure::{Fraction, Length};
use oxmpl::base::scalar::Scalar;
use oxmpl::base::space::StateSpace;
use oxmpl::base::state::{ModelOf, RealVectorState};
use oxmpl::base::validity::StateValidityChecker;
use oxmpl::geometric::roadmap::{add_milestone, connect, find_route, route_states, Milestone};
use oxmpl::geometric::rrt_connect::{connect_step, connect_to, grow_and_connect, plant, stitch};
use oxmpl::geometric::rrt_star::{best_goal_node, choose_parent, nearest_node, rewire_near, star_step};
use oxmpl::geometric::shortest_path::{Edge, Hop};
use oxmpl::geometric::star_tree::StarTree;
use oxmpl::geometric::tree::{climb, extend, extract_path, nearest, reversed, ExtendStatus, Node};
use rand::rngs::StdRng;
use rand::Rng;

fn at(x: f64) -> RealVectorState {
    RealVectorState::new(vec![Scalar::from_bits(x.to_bits())])
}

fn place(s: &RealVectorState) -> f64 {
    f64::from_bits(s.values[0].to_bits())
}

fn places(path: &[RealVectorState]) -> Vec<f64> {
    path.iter().map(place).collect()
}

/// The real line, measured in whole units.
struct Line;

impl StateSpace for Line {
    type StateType = RealVectorState;

    fn spec_distance(&self, _a: ModelOf<RealVectorState>, _b: ModelOf<RealVectorState>) -> Length {
        unreachable!()
    }

    fn lemma_distance_is_symmetric(&self, _a: ModelOf<RealVectorState>, _b: ModelOf<RealVectorState>) {}

    fn spec_interpolate(
        &self,
        _from: ModelOf<RealVectorState>,
        _to: ModelOf<RealVectorState>,
        _t: Fraction,
    ) -> ModelOf<RealVectorState> {
        unreachable!()
    }

    fn spec_satisfies_bounds(&self, _state: ModelOf<RealVectorState>) -> bool {
        unreachable!()
    }

    fn spec_enforce_bounds(&self, _state: ModelOf<RealVectorState>) -> ModelOf<RealVectorState> {
        unreachable!()
    }

    fn spec_maximum_extent(&self) -> Length {
        unreachable!()
    }

    fn spec_longest_valid_segment_length(&self) -> Length {
        unreachable!()
    }

    fn distance(&self, a: &RealVectorState, b: &RealVectorState) -> Length {
        (place(a) - place(b)).abs().round() as u64
    }

    fn interpolate(&self, from: &RealVectorState, to: &RealVectorState, t: Fraction, out: &mut RealVectorState) {
        *out = if t.numerator == t.denominator {
            at(place(to))
        } else {
            at(place(from) + (place(to) - place(from)) * (t.numerator as f64 / t.denominator as f64))
        };
    }

    fn satisfies_bounds(&self, state: &RealVectorState) -> bool {
        place(state).abs() <= 100.0
    }

    fn enforce_bounds(&self, state: &mut RealVectorState) {
        *state = at(place(state).clamp(-100.0, 100.0));
    }

    fn sample_uniform(&self, rng: &mut StdRng) -> Result<RealVectorState, StateSamplingError> {
        Ok(at(rng.random_range(-100.0..100.0)))
    }

    fn get_maximum_extent(&self) -> Length {
        100
    }

    fn get_longest_valid_segment_length(&self) -> Length {
        1
    }
}

/// Everything is valid but the stretch from 40 to 50.
struct Gap;

impl StateValidityChecker<RealVectorState> for Gap {
    fn spec_is_valid(&self, _state: ModelOf<RealVectorState>) -> bool {
        unreachable!()
    }

    fn is_valid(&self, state: &RealVectorState) -> bool {
        !(place(state) > 40.0 && place(state) < 50.0)
    }
}

struct Beyond(f64);

impl Goal<RealVectorState> for Beyond {
    fn spec_is_satisfied(&self, _state: ModelOf<RealVectorState>) -> bool {
        unreachable!()
    }

    fn is_satisfied(&self, state: &RealVectorState) -> bool {
        place(state) >= self.0
    }
}

fn node(x: f64, parent: Option<usize>) -> Node<RealVectorState> {
    Node { state: at(x), parent }
}

fn chain() -> Vec<Node<RealVectorState>> {
    vec![node(0.0, None), node(10.0, Some(0)), node(-10.0, Some(0)), node(20.0, Some(1))]
}

#[test]
fn the_nearest_node_is_the_first_among_equals() {
    let tree = chain();
    assert_eq!(nearest(&Line, &tree, &at(19.0)), 3);
    assert_eq!(nearest(&Line, &tree, &at(5.0)), 0);
    assert_eq!(nearest(&Line, &tree, &at(15.0)), 1);
    assert_eq!(nearest(&Line, &tree, &at(-5.0)), 0);
    assert_eq!(nearest(&Line, &tree, &at(-70.0)), 2);
}

#[test]
fn a_branch_runs_from_the_root_to_its_node() {
    let tree = chain();
    assert_eq!(places(&extract_path(&tree, 3)), vec![0.0, 10.0, 20.0]);
    assert_eq!(places(&climb(&tree, 3)), vec![20.0, 10.0, 0.0]);
    assert_eq!(places(&extract_path(&tree, 0)), vec![0.0]);
    assert_eq!(places(&reversed(vec![at(1.0), at(2.0), at(3.0)])), vec![3.0, 2.0, 1.0]);
}

#[test]
fn extending_steps_towards_the_target() {
    let mut tree = chain();
    assert_eq!(extend(&Line, &Gap, &mut tree, &at(36.0), 8), ExtendStatus::Advanced);
    assert_eq!((place(&tree[4].state), tree[4].parent), (28.0, Some(3)));
    assert_eq!(extend(&Line, &Gap, &mut tree, &at(36.0), 8), ExtendStatus::Reached);
    assert_eq!((place(&tree[5].state), tree[5].parent), (36.0, Some(4)));
    assert_eq!(extend(&Line, &Gap, &mut tree, &at(60.0), 8), ExtendStatus::Trapped);
    assert_eq!(extend(&Line, &Gap, &mut tree, &at(60.0), 100), ExtendStatus::Trapped);
    assert_eq!(tree.len(), 6);
    assert_eq!(extend(&Line, &Gap, &mut tree, &at(36.0), 8), ExtendStatus::Reached);
    assert_eq!(tree.len(), 7);
}

#[test]
fn connecting_stops_where_the_way_is_blocked() {
    let mut tree = vec![node(0.0, None)];
    assert!(connect_to(&Line, &Gap, &mut tree, &at(30.0), 8));
    assert_eq!(places(&extract_path(&tree, tree.len() - 1)), vec![0.0, 8.0, 16.0, 24.0, 30.0]);
    assert!(!connect_to(&Line, &Gap, &mut tree, &at(70.0), 8));
    assert_eq!(place(&tree.last().unwrap().state), 38.0);
    let size = tree.len();
    assert!(!connect_to(&Line, &Gap, &mut tree, &at(0.0), 0));
    assert_eq!(tree.len(), size);
}

#[test]
fn two_trees_are_joined_tip_to_tip() {
    let start = chain();
    let goal = vec![node(39.0, None), node(30.0, Some(0)), node(25.0, Some(1))];
    let path = stitch(&start, 3, &goal, 2);
    assert_eq!(places(&path), vec![0.0, 10.0, 20.0, 25.0, 30.0, 39.0]);
    let far = vec![node(60.0, None)];
    assert_eq!(places(&stitch(&start, 0, &far, 0)), vec![0.0, 60.0]);
}

#[test]
fn one_tree_grows_and_the_other_reaches_for_it() {
    let mut start = vec![node(0.0, None)];
    let mut goal = vec![node(30.0, None)];
    let link = grow_and_connect(&Line, &Gap, &mut start, &mut goal, &at(100.0), 8);
    assert_eq!(link, Some((1, 2)));
    assert_eq!(place(&start[1].state), 8.0);
    assert_eq!(places(&extract_path(&goal, goal.len() - 1)), vec![30.0, 22.0, 14.0, 8.0]);
    assert_eq!(place(&goal.last().unwrap().state), place(&start[1].state));
    let path = stitch(&start, 1, &goal, 2);
    assert_eq!(places(&path), vec![0.0, 8.0, 14.0, 22.0, 30.0]);
    let mut blocked = vec![node(45.0, None)];
    assert_eq!(grow_and_connect(&Line, &Gap, &mut start, &mut blocked, &at(100.0), 8), None);
}

fn roadmap() -> Vec<Milestone<RealVectorState>> {
    let mut roadmap: Vec<Milestone<RealVectorState>> = Vec::new();
    for x in [0.0, 10.0, 20.0, 35.0, 55.0, 60.0] {
        add_milestone(&Line, &Gap, &mut roadmap, at(x), 16);
    }
    roadmap
}

#[test]
fn milestones_are_joined_in_both_directions() {
    let roadmap = roadmap();
    let edges: Vec<Vec<Edge>> = roadmap.iter().map(|m| m.edges.clone()).collect();
    let e = |to: usize, length: u64| Edge { to, length };
    assert_eq!(edges[0], vec![e(1, 10)]);
    assert_eq!(edges[1], vec![e(0, 10), e(2, 10)]);
    assert_eq!(edges[2], vec![e(1, 10), e(3, 15)]);
    assert_eq!(edges[3], vec![e(2, 15)]);
    assert_eq!(edges[4], vec![e(5, 5)]);
    assert_eq!(edges[5], vec![e(4, 5)]);
    assert_eq!(connect(&Line, &Gap, &roadmap, &at(12.0), 9), vec![e(1, 2), e(2, 8)]);
    assert_eq!(connect(&Line, &Gap, &roadmap, &at(52.0), 20), vec![e(4, 3), e(5, 8)]);
}

#[test]
fn the_cheapest_route_to_a_goal_is_found() {
    let roadmap = roadmap();
    let found = find_route(&Line, &Gap, &Beyond(20.0), &roadmap, &at(2.0), 16).unwrap();
    assert_eq!(found.stops, vec![1, 2]);
    assert_eq!(found.hops, vec![Hop { from: 6, slot: 1 }, Hop { from: 1, slot: 1 }]);
    assert_eq!(places(&route_states(&roadmap, &at(2.0), &found.stops)), vec![2.0, 10.0, 20.0]);
    assert!(find_route(&Line, &Gap, &Beyond(50.0), &roadmap, &at(2.0), 16).is_none());
    assert!(find_route(&Line, &Gap, &Beyond(70.0), &roadmap, &at(58.0), 16).is_none());
    let near = find_route(&Line, &Gap, &Beyond(50.0), &roadmap, &at(58.0), 16).unwrap();
    assert_eq!(near.stops, vec![5]);
}

fn star() -> StarTree<RealVectorState> {
    let mut tree: StarTree<RealVectorState> = StarTree::new();
    tree.set_root(at(0.0));
    tree.insert(at(10.0), 0, 10);
    tree.insert(at(4.0), 1, 6);
    tree.insert(at(20.0), 1, 10);
    tree
}

#[test]
fn the_best_parent_gives_the_cheapest_way() {
    let tree = star();
    assert_eq!(nearest_node(&Line, &tree, &at(6.0)), 2);
    let choice = choose_parent(&Line, &Gap, &tree, &at(6.0), 5);
    assert_eq!((choice.near.clone(), choice.parent, choice.edge), (vec![1, 2], Some(1), 4));
    let choice = choose_parent(&Line, &Gap, &tree, &at(6.0), 6);
    assert_eq!((choice.near.clone(), choice.parent, choice.edge), (vec![0, 1, 2], Some(0), 6));
    let choice = choose_parent(&Line, &Gap, &tree, &at(30.0), 5);
    assert_eq!((choice.near.len(), choice.parent), (0, None));
    let choice = choose_parent(&Line, &Gap, &tree, &at(55.0), 100);
    assert_eq!(choice.parent, None);
}

#[test]
fn a_new_node_takes_over_the_nodes_it_makes_cheaper() {
    let mut tree = star();
    assert_eq!(tree.cost_of(2), 16);
    let added = star_step(&Line, &Gap, &mut tree, &at(6.0), 100, 6);
    assert_eq!(added, Some(4));
    assert_eq!((place(&tree.nodes[4].state), tree.nodes[4].parent, tree.nodes[4].edge), (6.0, Some(0), 6));
    assert_eq!((tree.nodes[2].parent, tree.nodes[2].edge), (Some(4), 2));
    assert_eq!((tree.cost_of(1), tree.cost_of(2), tree.cost_of(3), tree.cost_of(4)), (10, 8, 20, 6));
    assert_eq!(star_step(&Line, &Gap, &mut tree, &at(45.0), 100, 100), None);
    assert_eq!(star_step(&Line, &Gap, &mut tree, &at(90.0), 100, 100), None);
    assert_eq!(tree.len(), 5);
    let mut lone = star();
    lone.insert(at(6.0), 0, 6);
    rewire_near(&Line, &Gap, &mut lone, &vec![0, 1, 2], 4, 0);
    assert_eq!((lone.nodes[2].parent, lone.cost_of(2), lone.nodes[1].parent), (Some(4), 8, Some(0)));
}

#[test]
fn the_best_goal_node_is_the_cheapest() {
    let mut tree = star();
    assert_eq!(best_goal_node(&Beyond(4.0), &tree), Some(1));
    assert_eq!(best_goal_node(&Beyond(15.0), &tree), Some(3));
    assert_eq!(best_goal_node(&Beyond(25.0), &tree), None);
    tree.insert(at(5.0), 0, 5);
    assert_eq!(best_goal_node(&Beyond(4.0), &tree), Some(4));
    tree.insert(at(10.0), 4, 5);
    assert_eq!(best_goal_node(&Beyond(10.0), &tree), Some(1));
}

#[test]
fn a_tree_is_rooted_in_a_valid_state_only() {
    let mut tree: Vec<Node<RealVectorState>> = Vec::new();
    assert!(!plant(&Gap, &mut tree, at(45.0)));
    assert_eq!(tree.len(), 0);
    assert!(plant(&Gap, &mut tree, at(30.0)));
    assert_eq!((tree.len(), place(&tree[0].state), tree[0].parent), (1, 30.0, None));
}

#[test]
fn the_trees_take_turns_and_meet() {
    let mut start = vec![node(0.0, None)];
    let mut goal = vec![node(30.0, None)];
    let mut from_start = true;
    let found = connect_step(&Line, &Gap, &mut start, &mut goal, &mut from_start, &at(100.0), 8).unwrap();
    assert_eq!(places(&found), vec![0.0, 8.0, 14.0, 22.0, 30.0]);
    assert!(!from_start);
    assert_eq!((start.len(), goal.len()), (2, 4));
    let mut start = vec![node(0.0, None)];
    let mut goal = vec![node(30.0, None)];
    let mut from_start = false;
    let found = connect_step(&Line, &Gap, &mut start, &mut goal, &mut from_start, &at(-100.0), 8).unwrap();
    assert_eq!(places(&found), vec![0.0, 8.0, 16.0, 22.0, 30.0]);
    assert!(from_start);
    assert_eq!((start.len(), goal.len()), (4, 2));
    let mut blocked = vec![node(60.0, None)];
    let mut from_start = true;
    assert!(connect_step(&Line, &Gap, &mut start, &mut blocked, &mut from_start, &at(100.0), 8).is_none());
    assert!(!from_start);
    assert_eq!(start.len(), 5);
    let mut trapped = vec![node(39.0, None)];
    let mut from_start = true;
    assert!(connect_step(&Line, &Gap, &mut trapped, &mut goal, &mut from_start, &at(100.0), 8).is_none());
    assert_eq!((trapped.len(), goal.len(), from_start), (1, 2, false));
}
