use oxmpl::base::error::{StateSamplingError, StateSpaceError};
use oxmpl::base::measure::{fraction_of, Fraction, Length, Weight};
use oxmpl::base::scalar::Scalar;
use oxmpl::base::space::StateSpace;
use oxmpl::base::spaces::compound_state_space::{
    check_part, enforce_part, interpolate_part, measure_part, sample_part, sample_parts,
    CompoundStateSpace, Part, SubSpace,
};
use oxmpl::base::spaces::se2_state_space::{at_least_one, joint_distance, SE2StateSpace};
use oxmpl::base::spaces::se3_state_space::SE3StateSpace;
use oxmpl::base::state::{
    CompoundState, ModelOf, RealVectorState, SE2State, SE3State, SO2State, SO3State, StateValue,
};
use rand::rngs::StdRng;
use rand::{Rng, SeedableRng};

fn s(v: f64) -> Scalar {
    Scalar::from_bits(v.to_bits())
}

fn n(v: Scalar) -> f64 {
    f64::from_bits(v.to_bits())
}

fn grid(values: &[f64]) -> RealVectorState {
    RealVectorState::new(values.iter().map(|v| s(*v)).collect())
}

fn cells(state: &RealVectorState) -> Vec<f64> {
    state.values.iter().map(|v| n(*v)).collect()
}

fn half() -> Weight {
    Weight::new(1, 2).unwrap()
}

/// The plane within ten units of the origin, measured in whole units.
struct Grid;

impl StateSpace for Grid {
    type StateType = RealVectorState;

    fn spec_distance(&self, _a: ModelOf<RealVectorState>, _b: ModelOf<RealVectorState>) -> Length {
        unreachable!()
    }

    fn lemma_distance_is_symmetric(&self, _a: ModelOf<RealVectorState>, _b: ModelOf<RealVectorState>) {}

    fn spec_interpolate(
        &self,
        _from: ModelOf<RealVectorState>,
        _to: ModelOf<RealVectorState>,
        _t: Fraction,
    ) -> ModelOf<RealVectorState> {
        unreachable!()
    }

    fn spec_satisfies_bounds(&self, _state: ModelOf<RealVectorState>) -> bool {
        unreachable!()
    }

    fn spec_enforce_bounds(&self, _state: ModelOf<RealVectorState>) -> ModelOf<RealVectorState> {
        unreachable!()
    }

    fn spec_maximum_extent(&self) -> Length {
        unreachable!()
    }

    fn spec_longest_valid_segment_length(&self) -> Length {
        unreachable!()
    }

    fn distance(&self, a: &RealVectorState, b: &RealVectorState) -> Length {
        let (a, b) = (cells(a), cells(b));
        a.iter().zip(b.iter()).map(|(x, y)| (x - y) * (x - y)).sum::<f64>().sqrt().round() as u64
    }

    fn interpolate(&self, from: &RealVectorState, to: &RealVectorState, t: Fraction, out: &mut RealVectorState) {
        let (a, b) = (cells(from), cells(to));
        *out = if t.numerator == t.denominator {
            grid(&b)
        } else {
            let t = t.numerator as f64 / t.denominator as f64;
            grid(&a.iter().zip(b.iter()).map(|(x, y)| x + (y - x) * t).collect::<Vec<f64>>())
        };
    }

    fn satisfies_bounds(&self, state: &RealVectorState) -> bool {
        state.values.len() == 2 && cells(state).iter().all(|v| v.abs() <= 10.0)
    }

    fn enforce_bounds(&self, state: &mut RealVectorState) {
        let mut v = cells(state);
        v.resize(2, 0.0);
        *state = grid(&v.iter().map(|x| x.clamp(-10.0, 10.0)).collect::<Vec<f64>>());
    }

    fn sample_uniform(&self, rng: &mut StdRng) -> Result<RealVectorState, StateSamplingError> {
        Ok(grid(&[rng.random_range(-10.0..10.0), rng.random_range(-10.0..10.0)]))
    }

    fn get_maximum_extent(&self) -> Length {
        600
    }

    fn get_longest_valid_segment_length(&self) -> Length {
        6
    }
}

/// A dial of 360 marks.
struct Dial;

fn mark(angle: f64) -> f64 {
    angle.rem_euclid(360.0)
}

impl StateSpace for Dial {
    type StateType = SO2State;

    fn spec_distance(&self, _a: ModelOf<SO2State>, _b: ModelOf<SO2State>) -> Length {
        unreachable!()
    }

    fn lemma_distance_is_symmetric(&self, _a: ModelOf<SO2State>, _b: ModelOf<SO2State>) {}

    fn spec_interpolate(&self, _from: ModelOf<SO2State>, _to: ModelOf<SO2State>, _t: Fraction) -> ModelOf<SO2State> {
        unreachable!()
    }

    fn spec_satisfies_bounds(&self, _state: ModelOf<SO2State>) -> bool {
        unreachable!()
    }

    fn spec_enforce_bounds(&self, _state: ModelOf<SO2State>) -> ModelOf<SO2State> {
        unreachable!()
    }

    fn spec_maximum_extent(&self) -> Length {
        unreachable!()
    }

    fn spec_longest_valid_segment_length(&self) -> Length {
        unreachable!()
    }

    fn distance(&self, a: &SO2State, b: &SO2State) -> Length {
        let d = mark(n(a.value) - n(b.value));
        d.min(360.0 - d).round() as u64
    }

    fn interpolate(&self, from: &SO2State, to: &SO2State, t: Fraction, out: &mut SO2State) {
        let mut turn = mark(n(to.value) - n(from.value));
        if turn > 180.0 {
            turn -= 360.0;
        }
        *out = if t.numerator == t.denominator {
            *to
        } else if t.numerator == 0 {
            *from
        } else {
            SO2State::new(s(mark(n(from.value) + turn * (t.numerator as f64 / t.denominator as f64))))
        };
    }

    fn satisfies_bounds(&self, state: &SO2State) -> bool {
        (0.0..360.0).contains(&n(state.value))
    }

    fn enforce_bounds(&self, state: &mut SO2State) {
        *state = SO2State::new(s(mark(n(state.value))));
    }

    fn sample_uniform(&self, rng: &mut StdRng) -> Result<SO2State, StateSamplingError> {
        Ok(SO2State::new(s(rng.random_range(0.0..360.0))))
    }

    fn get_maximum_extent(&self) -> Length {
        800
    }

    fn get_longest_valid_segment_length(&self) -> Length {
        8
    }
}

/// A space of rotations that cannot be sampled and holds the identity only.
struct Still;

impl StateSpace for Still {
    type StateType = SO3State;

    fn spec_distance(&self, _a: ModelOf<SO3State>, _b: ModelOf<SO3State>) -> Length {
        unreachable!()
    }

    fn lemma_distance_is_symmetric(&self, _a: ModelOf<SO3State>, _b: ModelOf<SO3State>) {}

    fn spec_interpolate(&self, _from: ModelOf<SO3State>, _to: ModelOf<SO3State>, _t: Fraction) -> ModelOf<SO3State> {
        unreachable!()
    }

    fn spec_satisfies_bounds(&self, _state: ModelOf<SO3State>) -> bool {
        unreachable!()
    }

    fn spec_enforce_bounds(&self, _state: ModelOf<SO3State>) -> ModelOf<SO3State> {
        unreachable!()
    }

    fn spec_maximum_extent(&self) -> Length {
        unreachable!()
    }

    fn spec_longest_valid_segment_length(&self) -> Length {
        unreachable!()
    }

    fn distance(&self, a: &SO3State, b: &SO3State) -> Length {
        if a == b {
            0
        } else {
            12
        }
    }

    fn interpolate(&self, from: &SO3State, to: &SO3State, t: Fraction, out: &mut SO3State) {
        *out = if t.numerator == t.denominator { *to } else { *from };
    }

    fn satisfies_bounds(&self, state: &SO3State) -> bool {
        *state == SO3State::identity()
    }

    fn enforce_bounds(&self, state: &mut SO3State) {
        *state = SO3State::identity();
    }

    fn sample_uniform(&self, _rng: &mut StdRng) -> Result<SO3State, StateSamplingError> {
        Err(StateSamplingError::SamplingError)
    }

    fn get_maximum_extent(&self) -> Length {
        500
    }

    fn get_longest_valid_segment_length(&self) -> Length {
        5
    }
}

type Compound = CompoundStateSpace<Grid, Dial, Still>;

fn plane_and_dial() -> Compound {
    CompoundStateSpace::new(vec![SubSpace::RealVector(Grid), SubSpace::SO2(Dial)], vec![Weight::one(), half()])
        .ok()
        .unwrap()
}

fn pose(x: f64, y: f64, angle: f64) -> CompoundState {
    CompoundState::new(vec![StateValue::RealVector(grid(&[x, y])), StateValue::SO2(SO2State::new(s(angle)))])
}

fn flat(state: &CompoundState) -> Vec<f64> {
    state.to_array().iter().map(|v| n(*v)).collect()
}

fn step(numerator: u64, denominator: u64) -> Fraction {
    Fraction { numerator, denominator }
}

#[test]
fn the_parts_of_a_pose_are_measured_together() {
    assert_eq!(joint_distance(&Weight::one(), 3, 4), 5);
    assert_eq!(joint_distance(&half(), 3, 4), 2);
    assert_eq!(joint_distance(&Weight::new(2, 1).unwrap(), 3, 4), 10);
    assert_eq!(joint_distance(&Weight::one(), u64::MAX, u64::MAX), u64::MAX);
    assert_eq!(joint_distance(&Weight::new(3, 1).unwrap(), u64::MAX, 0), u64::MAX);
    assert_eq!((at_least_one(0), at_least_one(7)), (1, 7));
    let space = SE2StateSpace::new(Weight::one(), Grid, Dial);
    let (a, b) = (SE2State::new(s(0.0), s(0.0), s(10.0)), SE2State::new(s(3.0), s(0.0), s(6.0)));
    assert_eq!(space.distance(&a, &b), 5);
    assert_eq!(space.distance(&b, &a), 5);
    assert_eq!(space.distance(&a, &a), 0);
    assert_eq!(space.get_longest_valid_segment_length(), 10);
    assert_eq!(SE2StateSpace::new(half(), Grid, Dial).distance(&a, &b), 2);
}

#[test]
fn poses_are_blended_and_bounded_part_by_part() {
    let space = SE2StateSpace::new(Weight::one(), Grid, Dial);
    let (a, b) = (SE2State::new(s(0.0), s(4.0), s(350.0)), SE2State::new(s(8.0), s(0.0), s(30.0)));
    let mut out = SE2State::new(s(0.0), s(0.0), s(0.0));
    space.interpolate(&a, &b, step(1, 4), &mut out);
    assert_eq!(out.to_array().iter().map(|v| n(*v)).collect::<Vec<f64>>(), vec![2.0, 3.0, 0.0]);
    space.interpolate(&a, &b, step(0, 4), &mut out);
    assert_eq!(out.to_array(), a.to_array());
    space.interpolate(&a, &b, step(4, 4), &mut out);
    assert_eq!(out.to_array(), b.to_array());
    assert!(space.satisfies_bounds(&a));
    let mut wild = SE2State::new(s(25.0), s(-3.0), s(-90.0));
    assert!(!space.satisfies_bounds(&wild));
    space.enforce_bounds(&mut wild);
    assert_eq!(wild.to_array().iter().map(|v| n(*v)).collect::<Vec<f64>>(), vec![10.0, -3.0, 270.0]);
    assert!(space.satisfies_bounds(&wild));
    let settled = wild.to_array();
    space.enforce_bounds(&mut wild);
    assert_eq!(wild.to_array(), settled);
    let mut rng = StdRng::seed_from_u64(3);
    for _ in 0..20 {
        assert!(space.satisfies_bounds(&space.sample_uniform(&mut rng).ok().unwrap()));
    }
}

#[test]
fn poses_in_space_rotate_as_their_part_does() {
    let space = SE3StateSpace::new(Weight::one(), Grid, Still);
    let turned = SO3State::new(s(1.0), s(0.0), s(0.0), s(0.0));
    let (a, b) = (SE3State::new(s(0.0), s(0.0), s(0.0), SO3State::identity()), SE3State::new(s(5.0), s(0.0), s(0.0), turned));
    assert_eq!(space.distance(&a, &b), 13);
    assert!(!space.satisfies_bounds(&b));
    let mut fixed = SE3State::new(s(50.0), s(0.0), s(1.0), turned);
    space.enforce_bounds(&mut fixed);
    assert!(space.satisfies_bounds(&fixed));
    assert_eq!(cells(fixed.get_translation()), vec![10.0, 0.0]);
    assert_eq!(*fixed.get_rotation(), SO3State::identity());
    let mut rng = StdRng::seed_from_u64(3);
    assert_eq!(space.sample_uniform(&mut rng).err(), Some(StateSamplingError::SamplingError));
    assert_eq!(space.get_longest_valid_segment_length(), 7);
}

#[test]
fn a_compound_space_needs_as_many_weights_as_parts() {
    let short = Compound::new(vec![SubSpace::RealVector(Grid), SubSpace::SO2(Dial)], vec![Weight::one()]);
    assert_eq!(short.err(), Some(StateSpaceError::InvalidDimension));
    let space = plane_and_dial();
    assert_eq!(space.part_count(), 2);
    assert!(matches!(space.parts[0].space, SubSpace::RealVector(_)));
    assert!(matches!(space.parts[1].space, SubSpace::SO2(_)));
    assert_eq!((space.parts[0].weight.apply(10), space.parts[1].weight.apply(10)), (10, 5));
    let empty = Compound::new(Vec::new(), Vec::new()).ok().unwrap();
    assert_eq!(empty.distance(&CompoundState::new(Vec::new()), &CompoundState::new(Vec::new())), 0);
    assert_eq!(empty.get_longest_valid_segment_length(), 1);
}

#[test]
fn compound_distances_are_weighted_part_by_part() {
    let space = plane_and_dial();
    let (a, b) = (pose(0.0, 0.0, 10.0), pose(4.0, 0.0, 4.0));
    assert_eq!(space.distance(&a, &b), 5);
    assert_eq!(space.distance(&b, &a), 5);
    assert_eq!(space.distance(&a, &a), 0);
    assert_eq!(space.get_longest_valid_segment_length(), 7);
    let swapped = CompoundState::new(vec![StateValue::SO2(SO2State::new(s(4.0))), StateValue::RealVector(grid(&[4.0, 0.0]))]);
    assert_eq!(space.distance(&a, &swapped), u64::MAX);
    let short = CompoundState::new(vec![StateValue::RealVector(grid(&[4.0, 0.0]))]);
    assert_eq!(space.distance(&a, &short), u64::MAX);
    assert_eq!(measure_part(&space.parts[1].space, &a.components[1], &b.components[1]), 6);
    assert_eq!(measure_part(&space.parts[1].space, &a.components[0], &b.components[1]), u64::MAX);
}

#[test]
fn compound_states_are_blended_in_the_order_of_their_parts() {
    let space = plane_and_dial();
    let (a, b) = (pose(0.0, 4.0, 350.0), pose(8.0, 0.0, 30.0));
    let mut out = pose(0.0, 0.0, 0.0);
    space.interpolate(&a, &b, step(1, 4), &mut out);
    assert_eq!(flat(&out), vec![2.0, 3.0, 0.0]);
    space.interpolate(&a, &b, step(0, 1), &mut out);
    assert_eq!(flat(&out), flat(&a));
    space.interpolate(&a, &b, step(1, 1), &mut out);
    assert_eq!(flat(&out), flat(&b));
    let short = CompoundState::new(vec![StateValue::RealVector(grid(&[4.0, 0.0]))]);
    space.interpolate(&a, &short, step(1, 2), &mut out);
    assert_eq!(flat(&out), flat(&a));
    let odd = interpolate_part(&space.parts[0].space, &a.components[1], &b.components[0], step(1, 2));
    assert!(matches!(odd, StateValue::SO2(_)));
}

#[test]
fn enforcing_bounds_gives_a_state_of_the_right_shape() {
    let space = plane_and_dial();
    assert!(space.satisfies_bounds(&pose(1.0, 2.0, 3.0)));
    assert!(!space.satisfies_bounds(&pose(11.0, 2.0, 3.0)));
    assert!(!space.satisfies_bounds(&pose(1.0, 2.0, 360.0)));
    let mut wild = pose(11.0, -20.0, 725.0);
    space.enforce_bounds(&mut wild);
    assert_eq!(flat(&wild), vec![10.0, -10.0, 5.0]);
    assert!(space.satisfies_bounds(&wild));
    let settled = flat(&wild);
    space.enforce_bounds(&mut wild);
    assert_eq!(flat(&wild), settled);
    let mut swapped = CompoundState::new(vec![StateValue::SO2(SO2State::new(s(4.0))), StateValue::RealVector(grid(&[4.0, 0.0]))]);
    assert!(!space.satisfies_bounds(&swapped));
    space.enforce_bounds(&mut swapped);
    assert_eq!(flat(&swapped), vec![0.0, 0.0, 0.0]);
    assert!(space.satisfies_bounds(&swapped));
    let mut short = CompoundState::new(vec![StateValue::RealVector(grid(&[40.0, 1.0]))]);
    space.enforce_bounds(&mut short);
    assert_eq!(flat(&short), vec![10.0, 1.0, 0.0]);
    let mut long = CompoundState::new(vec![
        StateValue::RealVector(grid(&[1.0, 1.0])),
        StateValue::SO2(SO2State::new(s(1.0))),
        StateValue::SO2(SO2State::new(s(2.0))),
    ]);
    assert!(!space.satisfies_bounds(&long));
    space.enforce_bounds(&mut long);
    assert_eq!(flat(&long), vec![1.0, 1.0, 1.0]);
    assert!(check_part(&space.parts[0].space, &enforce_part(&space.parts[0].space, &StateValue::SO3(SO3State::identity()))));
}

#[test]
fn compound_spaces_nest() {
    let inner = plane_and_dial();
    let outer = Compound::from_parts(vec![
        Part { space: SubSpace::Compound(inner), weight: Weight::new(2, 1).unwrap() },
        Part { space: SubSpace::SE2(SE2StateSpace::new(Weight::one(), Grid, Dial)), weight: Weight::one() },
        Part { space: SubSpace::SO3(Still), weight: Weight::one() },
    ]);
    let state = |x: f64, angle: f64, px: f64| {
        CompoundState::new(vec![
            StateValue::Compound(pose(x, 0.0, angle)),
            StateValue::SE2(SE2State::new(s(px), s(0.0), s(0.0))),
            StateValue::SO3(SO3State::identity()),
        ])
    };
    let (a, b) = (state(0.0, 10.0, 0.0), state(4.0, 4.0, 24.0));
    assert_eq!(outer.distance(&a, &b), 26);
    assert!(outer.satisfies_bounds(&a));
    assert!(!outer.satisfies_bounds(&b));
    let mut out = state(0.0, 0.0, 0.0);
    outer.interpolate(&a, &b, step(1, 2), &mut out);
    assert_eq!(flat(&out), vec![2.0, 0.0, 7.0, 12.0, 0.0, 0.0, 0.0, 0.0, 0.0, 1.0]);
    let mut fixed = state(40.0, 400.0, 24.0);
    outer.enforce_bounds(&mut fixed);
    assert_eq!(flat(&fixed), vec![10.0, 0.0, 40.0, 10.0, 0.0, 0.0, 0.0, 0.0, 0.0, 1.0]);
    assert!(outer.satisfies_bounds(&fixed));
    assert_eq!(outer.get_maximum_extent(), 1824);
    assert_eq!(outer.get_longest_valid_segment_length(), 18);
    let mut rng = StdRng::seed_from_u64(5);
    assert_eq!(outer.sample_uniform(&mut rng).err(), Some(StateSamplingError::SamplingError));
}

#[test]
fn compound_samples_lie_within_bounds() {
    let space = plane_and_dial();
    let mut rng = StdRng::seed_from_u64(9);
    for _ in 0..50 {
        let sample = space.sample_uniform(&mut rng).ok().unwrap();
        assert!(space.satisfies_bounds(&sample));
        assert_eq!(sample.component_count(), 2);
    }
}

#[test]
fn a_space_without_simple_spaces_always_gives_its_state() {
    let mut rng = StdRng::seed_from_u64(1);
    let empty = Compound::from_parts(Vec::new());
    assert_eq!(sample_parts(&empty, &mut rng).ok().unwrap().component_count(), 0);
    let nest = |inner: Compound| Compound::from_parts(vec![
        Part { space: SubSpace::Compound(inner), weight: Weight::one() },
        Part { space: SubSpace::Compound(Compound::from_parts(Vec::new())), weight: Weight::one() },
    ]);
    let hollow = nest(nest(Compound::from_parts(Vec::new())));
    let state = hollow.sample_uniform(&mut rng).ok().unwrap();
    assert_eq!(state.component_count(), 2);
    assert!(hollow.satisfies_bounds(&state));
    assert_eq!(flat(&state).len(), 0);
    assert!(matches!(sample_part(&SubSpace::Compound(hollow), &mut rng), Ok(StateValue::Compound(_))));
    let still: SubSpace<Grid, Dial, Still> = SubSpace::SO3(Still);
    assert_eq!(sample_part(&still, &mut rng).err(), Some(StateSamplingError::SamplingError));
    assert!(matches!(sample_part(&SubSpace::<Grid, Dial, Still>::SO2(Dial), &mut rng), Ok(StateValue::SO2(_))));
}

#[test]
fn the_longest_valid_segment_is_a_part_of_the_extent() {
    assert_eq!(fraction_of(1000, step(1, 100)), 10);
    assert_eq!(fraction_of(7, step(1, 2)), 3);
    assert_eq!(fraction_of(u64::MAX, step(1, 1)), u64::MAX);
    assert_eq!(fraction_of(u64::MAX, step(u64::MAX - 1, u64::MAX)), u64::MAX - 1);
    assert_eq!(fraction_of(9, step(5, 0)), 9);
    assert_eq!(fraction_of(9, step(3, 2)), 9);
    assert_eq!(Fraction::hundredth(), step(1, 100));
    let mut poses = SE2StateSpace::new(Weight::one(), Grid, Dial);
    assert_eq!(poses.segment_fraction, step(1, 100));
    assert_eq!(poses.get_maximum_extent(), 1000);
    assert_eq!(poses.get_longest_valid_segment_length(), 10);
    poses.set_longest_valid_segment_fraction(step(1, 8));
    assert_eq!(poses.get_maximum_extent(), 1000);
    assert_eq!(poses.get_longest_valid_segment_length(), 125);
    poses.set_longest_valid_segment_fraction(step(1, u64::MAX));
    assert_eq!(poses.get_longest_valid_segment_length(), 1);
    assert_eq!(SE2StateSpace::new(half(), Grid, Dial).get_maximum_extent(), 500);
    let mut solid = SE3StateSpace::new(Weight::one(), Grid, Still);
    assert_eq!(solid.get_maximum_extent(), 781);
    solid.set_longest_valid_segment_fraction(step(1, 1));
    assert_eq!(solid.get_longest_valid_segment_length(), 781);
    let mut space = plane_and_dial();
    assert_eq!(space.segment_fraction, step(1, 100));
    assert_eq!(space.get_maximum_extent(), 721);
    space.set_longest_valid_segment_fraction(step(1, 2));
    assert_eq!(space.get_longest_valid_segment_length(), 360);
    assert_eq!(space.part_count(), 2);
}
