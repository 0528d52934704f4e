use std::f64::consts::PI;
use std::sync::Arc;
use std::time::Duration;

use oxmpl::base::error::StateSamplingError;
use oxmpl::base::goal::{Goal, GoalRegion, GoalSampleableRegion};
use oxmpl::base::measure::{Fraction, Length, Weight};
use oxmpl::base::planner::{Planner, PlannerConfig};
use oxmpl::base::problem_definition::ProblemDefinition;
use oxmpl::base::random::Probability;
use oxmpl::base::scalar::Scalar;
use oxmpl::base::space::StateSpace;
use oxmpl::base::spaces::compound_state_space::{CompoundStateSpace, SubSpace};
use oxmpl::base::state::{CompoundState, ModelOf, RealVectorState, SO2State, SO3State, StateValue};
use oxmpl::base::validity::StateValidityChecker;
use oxmpl::geometric::rrt::RRT;
use rand::rngs::StdRng;
use rand::Rng;

const UNITS: f64 = 1.0e9;

fn to_length(d: f64) -> Length {
    let scaled = (d * UNITS).round();
    if scaled >= u64::MAX as f64 {
        u64::MAX
    } else if scaled <= 0.0 {
        0
    } else {
        scaled as u64
    }
}

fn scalar(v: f64) -> Scalar {
    Scalar::from_bits(v.to_bits())
}

fn number(s: Scalar) -> f64 {
    f64::from_bits(s.to_bits())
}

fn wrap(angle: f64) -> f64 {
    let mut a = angle % (2.0 * PI);
    if a > PI {
        a -= 2.0 * PI;
    } else if a <= -PI {
        a += 2.0 * PI;
    }
    a
}

fn arc(a: f64, b: f64) -> f64 {
    wrap(b - a).abs()
}

fn turn(from: f64, to: f64, t: f64) -> f64 {
    wrap(from + wrap(to - from) * t)
}

struct Circle;

impl StateSpace for Circle {
    type StateType = SO2State;

    fn spec_distance(&self, _a: ModelOf<SO2State>, _b: ModelOf<SO2State>) -> Length {
        unreachable!()
    }

    fn lemma_distance_is_symmetric(&self, _a: ModelOf<SO2State>, _b: ModelOf<SO2State>) {}

    fn spec_interpolate(&self, _from: ModelOf<SO2State>, _to: ModelOf<SO2State>, _t: Fraction) -> ModelOf<SO2State> {
        unreachable!()
    }

    fn spec_satisfies_bounds(&self, _state: ModelOf<SO2State>) -> bool {
        unreachable!()
    }

    fn spec_enforce_bounds(&self, _state: ModelOf<SO2State>) -> ModelOf<SO2State> {
        unreachable!()
    }

    fn spec_maximum_extent(&self) -> Length {
        unreachable!()
    }

    fn spec_longest_valid_segment_length(&self) -> Length {
        unreachable!()
    }

    fn distance(&self, a: &SO2State, b: &SO2State) -> Length {
        to_length(arc(number(a.value), number(b.value)))
    }

    fn interpolate(&self, from: &SO2State, to: &SO2State, t: Fraction, out: &mut SO2State) {
        *out = if t.numerator == t.denominator {
            *to
        } else if t.numerator == 0 {
            *from
        } else {
            SO2State::new(scalar(turn(number(from.value), number(to.value), t.numerator as f64 / t.denominator as f64)))
        };
    }

    fn satisfies_bounds(&self, state: &SO2State) -> bool {
        number(state.value).is_finite()
    }

    fn enforce_bounds(&self, state: &mut SO2State) {
        *state = SO2State::new(scalar(wrap(number(state.value))));
    }

    fn sample_uniform(&self, rng: &mut StdRng) -> Result<SO2State, StateSamplingError> {
        Ok(SO2State::new(scalar(rng.random_range(-PI..PI))))
    }

    fn get_maximum_extent(&self) -> Length {
        to_length(PI)
    }

    fn get_longest_valid_segment_length(&self) -> Length {
        to_length(PI * 0.01)
    }
}

struct AnyAngle;

impl StateValidityChecker<SO2State> for AnyAngle {
    fn spec_is_valid(&self, _state: ModelOf<SO2State>) -> bool {
        unreachable!()
    }

    fn is_valid(&self, _state: &SO2State) -> bool {
        true
    }
}

struct Sector {
    centre: f64,
    radius: f64,
}

impl Goal<SO2State> for Sector {
    fn spec_is_satisfied(&self, _state: ModelOf<SO2State>) -> bool {
        unreachable!()
    }

    fn is_satisfied(&self, state: &SO2State) -> bool {
        arc(number(state.value), self.centre) <= self.radius
    }
}

impl GoalRegion<SO2State> for Sector {
    fn spec_distance_goal(&self, _state: ModelOf<SO2State>) -> Length {
        unreachable!()
    }

    fn distance_goal(&self, state: &SO2State) -> Length {
        let d = (arc(number(state.value), self.centre) - self.radius).max(0.0);
        if d > 0.0 {
            to_length(d).max(1)
        } else {
            0
        }
    }
}

impl GoalSampleableRegion<SO2State> for Sector {
    fn sample_goal(&self, rng: &mut StdRng) -> Result<SO2State, StateSamplingError> {
        Ok(SO2State::new(scalar(wrap(self.centre + rng.random_range(-self.radius..self.radius)))))
    }
}

#[test]
fn rrt_takes_the_short_way_round_the_circle() {
    let pd = Arc::new(ProblemDefinition {
        space: Arc::new(Circle),
        start_states: vec![SO2State::new(scalar(-3.0))],
        goal: Arc::new(Sector { centre: 3.0, radius: 0.1 }),
    });
    let mut planner: RRT<SO2State, Circle, Sector, AnyAngle> =
        RRT::new(to_length(0.05), Probability::new(5, 100).unwrap(), &PlannerConfig { seed: Some(21) });
    planner.setup(pd, Arc::new(AnyAngle));
    let path = planner.solve(Duration::from_secs(10)).unwrap();
    let angles: Vec<f64> = path.0.iter().map(|s| number(s.value)).collect();
    assert_eq!(angles[0], -3.0);
    assert!(arc(*angles.last().unwrap(), 3.0) <= 0.1);
    let total: f64 = angles.windows(2).map(|w| arc(w[0], w[1])).sum();
    assert!(total <= PI - 3.0 + 0.1 + 1.0e-6);
}

fn pose(x: f64, y: f64, yaw: f64) -> CompoundState {
    CompoundState::new(vec![
        StateValue::RealVector(RealVectorState::new(vec![scalar(x), scalar(y)])),
        StateValue::SO2(SO2State::new(scalar(yaw))),
    ])
}

fn parts(state: &CompoundState) -> (f64, f64, f64) {
    let (x, y) = match &state.components[0] {
        StateValue::RealVector(v) => (number(v.values[0]), number(v.values[1])),
        _ => panic!("the first component is a position"),
    };
    let yaw = match &state.components[1] {
        StateValue::SO2(r) => number(r.value),
        _ => panic!("the second component is a heading"),
    };
    (x, y, yaw)
}

fn vector(s: &RealVectorState) -> Vec<f64> {
    s.values.iter().map(|v| number(*v)).collect()
}

struct Square {
    half: f64,
}

impl StateSpace for Square {
    type StateType = RealVectorState;

    fn spec_distance(&self, _a: ModelOf<RealVectorState>, _b: ModelOf<RealVectorState>) -> Length {
        unreachable!()
    }

    fn lemma_distance_is_symmetric(&self, _a: ModelOf<RealVectorState>, _b: ModelOf<RealVectorState>) {}

    fn spec_interpolate(
        &self,
        _from: ModelOf<RealVectorState>,
        _to: ModelOf<RealVectorState>,
        _t: Fraction,
    ) -> ModelOf<RealVectorState> {
        unreachable!()
    }

    fn spec_satisfies_bounds(&self, _state: ModelOf<RealVectorState>) -> bool {
        unreachable!()
    }

    fn spec_enforce_bounds(&self, _state: ModelOf<RealVectorState>) -> ModelOf<RealVectorState> {
        unreachable!()
    }

    fn spec_maximum_extent(&self) -> Length {
        unreachable!()
    }

    fn spec_longest_valid_segment_length(&self) -> Length {
        unreachable!()
    }

    fn distance(&self, a: &RealVectorState, b: &RealVectorState) -> Length {
        let (a, b) = (vector(a), vector(b));
        to_length(a.iter().zip(b.iter()).map(|(x, y)| (x - y) * (x - y)).sum::<f64>().sqrt())
    }

    fn interpolate(&self, from: &RealVectorState, to: &RealVectorState, t: Fraction, out: &mut RealVectorState) {
        let (a, b) = (vector(from), vector(to));
        *out = if t.numerator == t.denominator {
            RealVectorState::new(b.iter().map(|y| scalar(*y)).collect())
        } else {
            let t = t.numerator as f64 / t.denominator as f64;
            RealVectorState::new(a.iter().zip(b.iter()).map(|(x, y)| scalar(x + (y - x) * t)).collect())
        };
    }

    fn satisfies_bounds(&self, state: &RealVectorState) -> bool {
        state.values.len() == 2 && vector(state).iter().all(|v| v.abs() <= self.half)
    }

    fn enforce_bounds(&self, state: &mut RealVectorState) {
        let mut v = vector(state);
        v.resize(2, 0.0);
        *state = RealVectorState::new(v.iter().map(|x| scalar(x.clamp(-self.half, self.half))).collect());
    }

    fn sample_uniform(&self, rng: &mut StdRng) -> Result<RealVectorState, StateSamplingError> {
        let v: Vec<f64> = (0..2).map(|_| rng.random_range(-self.half..self.half)).collect();
        Ok(RealVectorState::new(v.iter().map(|x| scalar(*x)).collect()))
    }

    fn get_maximum_extent(&self) -> Length {
        to_length(2.0 * self.half * 2.0_f64.sqrt())
    }

    fn get_longest_valid_segment_length(&self) -> Length {
        to_length(0.01 * 2.0 * self.half * 2.0_f64.sqrt()).max(1)
    }
}

/// A space of rotations that holds the identity only: no part of the poses
/// planned here is a rotation in space.
struct Still;

impl StateSpace for Still {
    type StateType = SO3State;

    fn spec_distance(&self, _a: ModelOf<SO3State>, _b: ModelOf<SO3State>) -> Length {
        unreachable!()
    }

    fn lemma_distance_is_symmetric(&self, _a: ModelOf<SO3State>, _b: ModelOf<SO3State>) {}

    fn spec_interpolate(&self, _from: ModelOf<SO3State>, _to: ModelOf<SO3State>, _t: Fraction) -> ModelOf<SO3State> {
        unreachable!()
    }

    fn spec_satisfies_bounds(&self, _state: ModelOf<SO3State>) -> bool {
        unreachable!()
    }

    fn spec_enforce_bounds(&self, _state: ModelOf<SO3State>) -> ModelOf<SO3State> {
        unreachable!()
    }

    fn spec_maximum_extent(&self) -> Length {
        unreachable!()
    }

    fn spec_longest_valid_segment_length(&self) -> Length {
        unreachable!()
    }

    fn distance(&self, a: &SO3State, b: &SO3State) -> Length {
        if a == b {
            0
        } else {
            u64::MAX
        }
    }

    fn interpolate(&self, from: &SO3State, to: &SO3State, t: Fraction, out: &mut SO3State) {
        *out = if t.numerator == t.denominator { *to } else { *from };
    }

    fn satisfies_bounds(&self, state: &SO3State) -> bool {
        *state == SO3State::identity()
    }

    fn enforce_bounds(&self, state: &mut SO3State) {
        *state = SO3State::identity();
    }

    fn sample_uniform(&self, _rng: &mut StdRng) -> Result<SO3State, StateSamplingError> {
        Ok(SO3State::identity())
    }

    fn get_maximum_extent(&self) -> Length {
        0
    }

    fn get_longest_valid_segment_length(&self) -> Length {
        1
    }
}

type Poses = CompoundStateSpace<Square, Circle, Still>;

fn poses(half: f64) -> Poses {
    CompoundStateSpace::new(
        vec![SubSpace::RealVector(Square { half }), SubSpace::SO2(Circle)],
        vec![Weight::one(), Weight::new(1, 2).unwrap()],
    )
    .ok()
    .unwrap()
}

struct Pillar;

impl StateValidityChecker<CompoundState> for Pillar {
    fn spec_is_valid(&self, _state: ModelOf<CompoundState>) -> bool {
        unreachable!()
    }

    fn is_valid(&self, state: &CompoundState) -> bool {
        let (x, y, _) = parts(state);
        !(x >= -0.5 && x <= 0.5 && y >= -2.0 && y <= 2.0)
    }
}

struct Landing {
    x: f64,
    y: f64,
    radius: f64,
}

impl Landing {
    fn gap(&self, state: &CompoundState) -> f64 {
        let (x, y, _) = parts(state);
        ((x - self.x).powi(2) + (y - self.y).powi(2)).sqrt()
    }
}

impl Goal<CompoundState> for Landing {
    fn spec_is_satisfied(&self, _state: ModelOf<CompoundState>) -> bool {
        unreachable!()
    }

    fn is_satisfied(&self, state: &CompoundState) -> bool {
        self.gap(state) <= self.radius
    }
}

impl GoalRegion<CompoundState> for Landing {
    fn spec_distance_goal(&self, _state: ModelOf<CompoundState>) -> Length {
        unreachable!()
    }

    fn distance_goal(&self, state: &CompoundState) -> Length {
        let d = (self.gap(state) - self.radius).max(0.0);
        if d > 0.0 {
            to_length(d).max(1)
        } else {
            0
        }
    }
}

impl GoalSampleableRegion<CompoundState> for Landing {
    fn sample_goal(&self, rng: &mut StdRng) -> Result<CompoundState, StateSamplingError> {
        let angle = rng.random_range(0.0..2.0 * PI);
        let r = self.radius * rng.random::<f64>().sqrt();
        Ok(pose(self.x + r * angle.cos(), self.y + r * angle.sin(), rng.random_range(-PI..PI)))
    }
}

#[test]
fn rrt_plans_poses_in_the_plane() {
    let pd = Arc::new(ProblemDefinition {
        space: Arc::new(poses(5.0)),
        start_states: vec![pose(-2.0, 0.0, 0.0)],
        goal: Arc::new(Landing { x: 2.0, y: 0.0, radius: 0.5 }),
    });
    let mut planner: RRT<CompoundState, Poses, Landing, Pillar> =
        RRT::new(to_length(0.5), Probability::new(10, 100).unwrap(), &PlannerConfig { seed: Some(123) });
    planner.setup(pd, Arc::new(Pillar));
    let path = planner.solve(Duration::from_secs(10)).unwrap();
    let (x, y, _) = parts(path.0.last().unwrap());
    assert!(((x - 2.0).powi(2) + y.powi(2)).sqrt() <= 0.5);
    assert_eq!(parts(&path.0[0]), (-2.0, 0.0, 0.0));
    assert!(path.0.iter().all(|s| Pillar.is_valid(s)));
}

#[test]
fn problem_needs_a_start_within_bounds() {
    let space = Arc::new(poses(5.0));
    let goal = Arc::new(Landing { x: 2.0, y: 0.0, radius: 0.5 });
    assert!(ProblemDefinition::new(space.clone(), Vec::new(), goal.clone()).is_none());
    assert!(ProblemDefinition::new(space.clone(), vec![pose(9.0, 0.0, 0.0)], goal.clone()).is_none());
    let pd = ProblemDefinition::new(space.clone(), vec![pose(0.0, 0.0, 0.0)], goal.clone()).unwrap();
    assert_eq!(pd.start_states.len(), 1);
    assert!(!pd.check_start(&Pillar));
    let pd = ProblemDefinition::new(space, vec![pose(1.0, 0.0, 0.0)], goal).unwrap();
    assert!(pd.check_start(&Pillar));
}
