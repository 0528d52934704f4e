use oxmpl::base::bounds::{pair_bounds, rotation_bound, Bound};
use oxmpl::base::error::StateSpaceError;
use oxmpl::base::measure::{cap, isqrt, norm, segment_count, step_fraction, Fraction, Weight};
use oxmpl::base::random::Probability;
use oxmpl::base::scalar::{get_or, Scalar};
use oxmpl::base::state::{
    CompoundState, DynClone, RealVectorState, SE2State, SE3State, SO2State, SO3State, StateValue,
};
use oxmpl::base::states::compound_state::{clone_value, flatten_into, CompoundStateBuilder};
use oxmpl::geometric::shortest_path::{dijkstra, Edge, Hop};
use oxmpl::geometric::star_tree::{add_length, StarTree};

fn s(v: f64) -> Scalar {
    Scalar::from_bits(v.to_bits())
}

fn n(v: Scalar) -> f64 {
    f64::from_bits(v.to_bits())
}

fn list(values: &[f64]) -> Vec<Scalar> {
    values.iter().map(|v| s(*v)).collect()
}

fn numbers(values: &[Scalar]) -> Vec<f64> {
    values.iter().map(|v| n(*v)).collect()
}

#[test]
fn zero_and_one_are_the_numbers_they_name() {
    assert_eq!(n(Scalar::zero()), 0.0);
    assert_eq!(n(Scalar::one()), 1.0);
    assert_eq!(Scalar::from_bits(7).to_bits(), 7);
    assert_eq!(get_or(&list(&[4.0]), 0, Scalar::one()), s(4.0));
    assert_eq!(get_or(&list(&[4.0]), 1, Scalar::one()), s(1.0));
}

#[test]
fn segments_round_up_and_never_vanish() {
    assert_eq!(segment_count(0, 10), 1);
    assert_eq!(segment_count(1, 10), 1);
    assert_eq!(segment_count(10, 10), 1);
    assert_eq!(segment_count(11, 10), 2);
    assert_eq!(segment_count(100, 10), 10);
    assert_eq!(segment_count(u64::MAX, 1), u64::MAX);
}

#[test]
fn steps_are_capped_at_the_longest_distance() {
    assert_eq!(step_fraction(5, 20), Fraction { numerator: 5, denominator: 20 });
    assert_eq!(step_fraction(5, 5), Fraction { numerator: 1, denominator: 1 });
    assert_eq!(step_fraction(5, 0), Fraction { numerator: 1, denominator: 1 });
    assert_eq!(step_fraction(0, 3), Fraction { numerator: 0, denominator: 3 });
    assert_eq!(Fraction::one(), Fraction { numerator: 1, denominator: 1 });
}

#[test]
fn a_chance_is_a_ratio_of_at_most_one() {
    assert!(Probability::new(1, 0).is_none());
    assert!(Probability::new(3, 2).is_none());
    let p = Probability::new(1, 20).unwrap();
    assert_eq!((p.numerator(), p.denominator()), (1, 20));
    let never = Probability::never();
    assert_eq!((never.numerator(), never.denominator()), (0, 1));
}

#[test]
fn bounds_come_in_pairs() {
    let flat = list(&[-5.0, 5.0, -1.0, 2.0]);
    let bounds = pair_bounds(2, &flat).unwrap();
    assert_eq!(bounds, vec![Bound { min: s(-5.0), max: s(5.0) }, Bound { min: s(-1.0), max: s(2.0) }]);
    assert_eq!(pair_bounds(3, &flat), Err(StateSpaceError::InvalidDimension));
    assert_eq!(pair_bounds(1, &list(&[0.0, 1.0, 2.0])), Err(StateSpaceError::InvalidDimension));
    assert_eq!(pair_bounds(0, &Vec::new()), Ok(Vec::new()));
}

#[test]
fn a_rotation_bound_needs_centre_and_angle() {
    let centre = SO3State::identity();
    assert!(rotation_bound(Some(centre), None).is_none());
    assert!(rotation_bound(None, Some(s(0.5))).is_none());
    let bound = rotation_bound(Some(centre), Some(s(0.5))).unwrap();
    assert_eq!((bound.centre, bound.max_angle), (centre, s(0.5)));
}

#[test]
fn states_turn_into_arrays_and_back() {
    let v = RealVectorState::from_array(&list(&[1.0, 2.0, 3.0]));
    assert_eq!(numbers(&v.to_array()), vec![1.0, 2.0, 3.0]);
    assert_eq!(v.dimension(), 3);
    assert_eq!(numbers(&SO2State::new(s(0.5)).to_array()), vec![0.5]);
    assert_eq!(SO2State::from_array(&list(&[0.5, 9.0])), SO2State::new(s(0.5)));
    let q = SO3State::new(s(0.1), s(0.2), s(0.3), s(0.4));
    assert_eq!(numbers(&q.to_array()), vec![0.1, 0.2, 0.3, 0.4]);
    assert_eq!(SO3State::from_array(&q.to_array()), q);
    let p = SE2State::new(s(1.0), s(2.0), s(0.5));
    assert_eq!(numbers(&p.to_array()), vec![1.0, 2.0, 0.5]);
    assert_eq!(numbers(&SE2State::from_array(&p.to_array()).to_array()), vec![1.0, 2.0, 0.5]);
    assert_eq!(numbers(&p.get_translation().to_array()), vec![1.0, 2.0]);
    assert_eq!(*p.get_rotation(), SO2State::new(s(0.5)));
    assert_eq!((n(p.get_x()), n(p.get_y()), n(p.get_yaw())), (1.0, 2.0, 0.5));
    let t = SE3State::new(s(1.0), s(2.0), s(3.0), q);
    assert_eq!(numbers(&t.to_array()), vec![1.0, 2.0, 3.0, 0.1, 0.2, 0.3, 0.4]);
    assert_eq!(numbers(&SE3State::from_array(&t.to_array()).to_array()), numbers(&t.to_array()));
    assert_eq!(numbers(&t.get_translation().to_array()), vec![1.0, 2.0, 3.0]);
    assert_eq!(*t.get_rotation(), q);
    assert_eq!((n(t.get_x()), n(t.get_y()), n(t.get_z())), (1.0, 2.0, 3.0));
    let copy = t.clone_box();
    assert_eq!(numbers(&copy.to_array()), numbers(&t.to_array()));
}

#[test]
fn short_arrays_are_filled_with_defaults() {
    assert_eq!(SO2State::from_array(&Vec::new()), SO2State::new(s(0.0)));
    assert_eq!(SO3State::from_array(&Vec::new()), SO3State::identity());
    assert_eq!(SO3State::from_array(&list(&[0.5])), SO3State::new(s(0.5), s(0.0), s(0.0), s(1.0)));
    assert_eq!(numbers(&SE2State::from_array(&list(&[1.0])).to_array()), vec![1.0, 0.0, 0.0]);
    assert_eq!(
        numbers(&SE3State::from_array(&list(&[1.0, 2.0, 3.0, 0.5])).to_array()),
        vec![1.0, 2.0, 3.0, 0.5, 0.0, 0.0, 1.0]
    );
    assert_eq!(numbers(&SE3State::from_array(&Vec::new()).to_array()), vec![0.0, 0.0, 0.0, 0.0, 0.0, 0.0, 1.0]);
    let odd = SE2State { translation: RealVectorState::new(list(&[7.0])), rotation: SO2State::new(s(0.5)) };
    assert_eq!(numbers(&odd.to_array()), vec![7.0, 0.0, 0.5]);
}

fn nested() -> CompoundState {
    let mut inner = CompoundStateBuilder::new();
    inner.add_so2_state(&SO2State::new(s(0.25)));
    inner.add_so3_state(&SO3State::identity());
    let mut outer = CompoundStateBuilder::new();
    outer.add_real_vector_state(&RealVectorState::new(list(&[1.0, 2.0])));
    outer.add_compound_state(&inner.build());
    outer.add_se2_state(&SE2State::new(s(3.0), s(4.0), s(0.5)));
    outer.add_se3_state(&SE3State::new(s(5.0), s(6.0), s(7.0), SO3State::identity()));
    outer.add(StateValue::SO2(SO2State::new(s(9.0))));
    outer.build()
}

#[test]
fn a_compound_state_flattens_component_by_component() {
    let state = nested();
    assert_eq!(state.component_count(), 5);
    assert_eq!(
        numbers(&state.to_array()),
        vec![1.0, 2.0, 0.25, 0.0, 0.0, 0.0, 1.0, 3.0, 4.0, 0.5, 5.0, 6.0, 7.0, 0.0, 0.0, 0.0, 1.0, 9.0]
    );
    let mut out = list(&[-1.0]);
    flatten_into(state.get_component(2).unwrap(), &mut out);
    assert_eq!(numbers(&out), vec![-1.0, 3.0, 4.0, 0.5]);
    assert_eq!(CompoundState::new(Vec::new()).to_array().len(), 0);
}

#[test]
fn components_are_found_by_index() {
    let state = nested();
    assert!(matches!(state.get_component(0), Some(StateValue::RealVector(_))));
    assert!(matches!(state.get_component(1), Some(StateValue::Compound(_))));
    assert!(matches!(state.get_component(4), Some(StateValue::SO2(_))));
    assert!(state.get_component(5).is_none());
}

#[test]
fn copies_hold_the_same_coordinates() {
    let state = nested();
    let copy = state.clone_box();
    assert_eq!(numbers(&copy.to_array()), numbers(&state.to_array()));
    let value = StateValue::Compound(state);
    let twin = clone_value(&value);
    let (mut a, mut b) = (Vec::new(), Vec::new());
    flatten_into(&value, &mut a);
    flatten_into(&twin, &mut b);
    assert_eq!(a, b);
    let v = RealVectorState::new(list(&[1.5]));
    assert_eq!(v.clone_box().values, v.values);
}

fn edge(to: usize, length: u64) -> Edge {
    Edge { to, length }
}

#[test]
fn dijkstra_finds_the_cheapest_routes() {
    let graph = vec![
        vec![edge(1, 7), edge(2, 9), edge(5, 14)],
        vec![edge(0, 7), edge(2, 10), edge(3, 15)],
        vec![edge(0, 9), edge(1, 10), edge(3, 11), edge(5, 2)],
        vec![edge(1, 15), edge(2, 11), edge(4, 6)],
        vec![edge(3, 6), edge(5, 9)],
        vec![edge(0, 14), edge(2, 2), edge(4, 9)],
        vec![],
    ];
    let found = dijkstra(&graph, 0);
    assert_eq!(found.dist, vec![Some(0), Some(7), Some(9), Some(20), Some(20), Some(11), None]);
    assert_eq!(found.route_to(&graph, 4), vec![Hop { from: 0, slot: 1 }, Hop { from: 2, slot: 3 }, Hop { from: 5, slot: 2 }]);
    assert_eq!(found.route_to(&graph, 0), Vec::new());
    assert_eq!(found.route_to(&graph, 6), Vec::new());
    assert_eq!(found.pred[6], None);
}

#[test]
fn dijkstra_adds_the_longest_lengths_without_wrapping() {
    let graph = vec![vec![edge(1, u64::MAX)], vec![edge(2, u64::MAX)], vec![]];
    let found = dijkstra(&graph, 0);
    assert_eq!(found.dist[2], Some(2 * (u64::MAX as u128)));
}

fn leaf(v: f64) -> RealVectorState {
    RealVectorState::new(list(&[v]))
}

#[test]
fn rewiring_makes_a_branch_cheaper() {
    let mut tree: StarTree<RealVectorState> = StarTree::new();
    tree.set_root(leaf(0.0));
    assert_eq!(tree.insert(leaf(1.0), 0, 10), 1);
    assert_eq!(tree.insert(leaf(2.0), 1, 10), 2);
    assert_eq!(tree.insert(leaf(3.0), 2, 10), 3);
    assert_eq!(tree.insert(leaf(4.0), 0, 12), 4);
    assert_eq!((tree.cost_of(0), tree.cost_of(2), tree.cost_of(3), tree.cost_of(4)), (0, 20, 30, 12));
    tree.rewire(2, 4, 3);
    assert_eq!((tree.cost_of(1), tree.cost_of(2), tree.cost_of(3), tree.cost_of(4)), (10, 15, 25, 12));
    let path: Vec<f64> = tree.path_to(3).iter().map(|p| n(p.values[0])).collect();
    assert_eq!(path, vec![0.0, 4.0, 2.0, 3.0]);
    assert_eq!(tree.len(), 5);
    tree.clear();
    assert_eq!(tree.len(), 0);
}

#[test]
fn costs_stop_at_the_largest_cost() {
    assert_eq!(add_length(5, 7), 12);
    assert_eq!(add_length(u128::MAX - 1, 7), u128::MAX);
    assert_eq!(add_length(u128::MAX - 7, 7), u128::MAX);
}

#[test]
fn roots_are_rounded_down() {
    assert_eq!(isqrt(0), 0);
    assert_eq!(isqrt(1), 1);
    assert_eq!(isqrt(24), 4);
    assert_eq!(isqrt(25), 5);
    assert_eq!(isqrt(26), 5);
    assert_eq!(isqrt(u128::MAX), u64::MAX);
    assert_eq!(isqrt((u64::MAX as u128) * (u64::MAX as u128) - 1), u64::MAX - 1);
}

#[test]
fn the_norm_is_the_length_of_the_vector() {
    assert_eq!(norm(&vec![3, 4]), 5);
    assert_eq!(norm(&vec![]), 0);
    assert_eq!(norm(&vec![2, 3, 6]), 7);
    assert_eq!(norm(&vec![1, 1]), 1);
    assert_eq!(norm(&vec![u64::MAX as u128, 1]), u64::MAX);
    assert_eq!(norm(&vec![u64::MAX as u128, u64::MAX as u128]), u64::MAX);
    assert_eq!(norm(&vec![1 << 70, 0]), u64::MAX);
    assert_eq!(cap(7), 7);
    assert_eq!(cap(1 << 64), u64::MAX);
}

#[test]
fn weights_are_positive_ratios() {
    assert!(Weight::new(0, 1).is_none());
    assert!(Weight::new(1, 0).is_none());
    let half = Weight::new(1, 2).unwrap();
    assert_eq!((half.apply(10), half.apply(11), half.apply(0)), (5, 5, 0));
    assert_eq!(Weight::one().apply(u64::MAX), u64::MAX as u128);
    assert_eq!(Weight::new(u64::MAX, 1).unwrap().apply(u64::MAX), (u64::MAX as u128) * (u64::MAX as u128));
}
