use std::sync::Arc;
use std::time::Duration;

use oxmpl::base::error::{PlanningError, StateSamplingError};
use oxmpl::base::goal::{Goal, GoalRegion, GoalSampleableRegion};
use oxmpl::base::measure::{Fraction, Length};
use oxmpl::base::planner::{Path, Planner, PlannerConfig};
use oxmpl::base::problem_definition::ProblemDefinition;
use oxmpl::base::random::Probability;
use oxmpl::base::scalar::Scalar;
use oxmpl::base::space::StateSpace;
use oxmpl::base::state::{ModelOf, RealVectorState};
use oxmpl::base::validity::StateValidityChecker;
use oxmpl::geometric::motion::check_motion;
use oxmpl::geometric::prm::PRM;
use oxmpl::geometric::rrt::{grow_to_goal, RRT};
use oxmpl::geometric::rrt_connect::RRTConnect;
use oxmpl::geometric::rrt_star::RRTStar;
use oxmpl::geometric::tree::Node;
use rand::rngs::StdRng;
use rand::Rng;

const UNITS: f64 = 1.0e9;

fn to_length(d: f64) -> Length {
    let scaled = (d * UNITS).round();
    if scaled >= u64::MAX as f64 {
        u64::MAX
    } else if scaled <= 0.0 {
        0
    } else {
        scaled as u64
    }
}

fn rv(values: &[f64]) -> RealVectorState {
    RealVectorState::new(values.iter().map(|v| Scalar::from_bits(v.to_bits())).collect())
}

fn coords(s: &RealVectorState) -> Vec<f64> {
    s.values.iter().map(|v| f64::from_bits(v.to_bits())).collect()
}

fn euclid(a: &[f64], b: &[f64]) -> f64 {
    a.iter().zip(b.iter()).map(|(x, y)| (x - y) * (x - y)).sum::<f64>().sqrt()
}

struct Plane {
    bounds: Vec<(f64, f64)>,
    fraction: f64,
}

impl Plane {
    fn square(half: f64) -> Plane {
        Plane { bounds: vec![(-half, half), (-half, half)], fraction: 0.01 }
    }
}

impl StateSpace for Plane {
    type StateType = RealVectorState;

    fn spec_distance(&self, _a: ModelOf<RealVectorState>, _b: ModelOf<RealVectorState>) -> Length {
        unreachable!()
    }

    fn lemma_distance_is_symmetric(&self, _a: ModelOf<RealVectorState>, _b: ModelOf<RealVectorState>) {}

    fn spec_interpolate(
        &self,
        _from: ModelOf<RealVectorState>,
        _to: ModelOf<RealVectorState>,
        _t: Fraction,
    ) -> ModelOf<RealVectorState> {
        unreachable!()
    }

    fn spec_satisfies_bounds(&self, _state: ModelOf<RealVectorState>) -> bool {
        unreachable!()
    }

    fn spec_enforce_bounds(&self, _state: ModelOf<RealVectorState>) -> ModelOf<RealVectorState> {
        unreachable!()
    }

    fn spec_maximum_extent(&self) -> Length {
        unreachable!()
    }

    fn spec_longest_valid_segment_length(&self) -> Length {
        unreachable!()
    }

    fn distance(&self, a: &RealVectorState, b: &RealVectorState) -> Length {
        to_length(euclid(&coords(a), &coords(b)))
    }

    fn interpolate(&self, from: &RealVectorState, to: &RealVectorState, t: Fraction, out: &mut RealVectorState) {
        let (a, b) = (coords(from), coords(to));
        *out = if t.numerator == t.denominator {
            rv(&b)
        } else {
            let t = t.numerator as f64 / t.denominator as f64;
            rv(&a.iter().zip(b.iter()).map(|(x, y)| x + (y - x) * t).collect::<Vec<f64>>())
        };
    }

    fn satisfies_bounds(&self, state: &RealVectorState) -> bool {
        coords(state).iter().zip(self.bounds.iter()).all(|(v, (lo, hi))| lo <= v && v <= hi)
    }

    fn enforce_bounds(&self, state: &mut RealVectorState) {
        let clamped: Vec<f64> =
            coords(state).iter().zip(self.bounds.iter()).map(|(v, (lo, hi))| v.clamp(*lo, *hi)).collect();
        *state = rv(&clamped);
    }

    fn sample_uniform(&self, rng: &mut StdRng) -> Result<RealVectorState, StateSamplingError> {
        let v: Vec<f64> = self.bounds.iter().map(|(lo, hi)| rng.random_range(*lo..*hi)).collect();
        Ok(rv(&v))
    }

    fn get_maximum_extent(&self) -> Length {
        to_length(self.bounds.iter().map(|(lo, hi)| (hi - lo) * (hi - lo)).sum::<f64>().sqrt())
    }

    fn get_longest_valid_segment_length(&self) -> Length {
        let extent: f64 = self.bounds.iter().map(|(lo, hi)| (hi - lo) * (hi - lo)).sum::<f64>().sqrt();
        to_length(extent * self.fraction).max(1)
    }
}

struct Free;

impl StateValidityChecker<RealVectorState> for Free {
    fn spec_is_valid(&self, _state: ModelOf<RealVectorState>) -> bool {
        unreachable!()
    }

    fn is_valid(&self, _state: &RealVectorState) -> bool {
        true
    }
}

struct Wall;

fn in_wall(c: &[f64]) -> bool {
    c[0] >= -0.5 && c[0] <= 0.5 && c[1] >= -2.0 && c[1] <= 2.0
}

impl StateValidityChecker<RealVectorState> for Wall {
    fn spec_is_valid(&self, _state: ModelOf<RealVectorState>) -> bool {
        unreachable!()
    }

    fn is_valid(&self, state: &RealVectorState) -> bool {
        !in_wall(&coords(state))
    }
}

struct Ball {
    centre: Vec<f64>,
    radius: f64,
}

impl Goal<RealVectorState> for Ball {
    fn spec_is_satisfied(&self, _state: ModelOf<RealVectorState>) -> bool {
        unreachable!()
    }

    fn is_satisfied(&self, state: &RealVectorState) -> bool {
        euclid(&coords(state), &self.centre) <= self.radius
    }
}

impl GoalRegion<RealVectorState> for Ball {
    fn spec_distance_goal(&self, _state: ModelOf<RealVectorState>) -> Length {
        unreachable!()
    }

    fn distance_goal(&self, state: &RealVectorState) -> Length {
        let d = (euclid(&coords(state), &self.centre) - self.radius).max(0.0);
        if d > 0.0 {
            to_length(d).max(1)
        } else {
            0
        }
    }
}

impl GoalSampleableRegion<RealVectorState> for Ball {
    fn sample_goal(&self, rng: &mut StdRng) -> Result<RealVectorState, StateSamplingError> {
        let angle = rng.random_range(0.0..2.0 * std::f64::consts::PI);
        let r = self.radius * rng.random::<f64>().sqrt();
        Ok(rv(&[self.centre[0] + r * angle.cos(), self.centre[1] + r * angle.sin()]))
    }
}

fn problem(start: &[f64], goal: Ball) -> Arc<ProblemDefinition<RealVectorState, Plane, Ball>> {
    Arc::new(ProblemDefinition {
        space: Arc::new(Plane::square(5.0)),
        start_states: vec![rv(start)],
        goal: Arc::new(goal),
    })
}

fn seeded(seed: u64) -> PlannerConfig {
    PlannerConfig { seed: Some(seed) }
}

fn bias(percent: u32) -> Probability {
    Probability::new(percent, 100).unwrap()
}

fn points(path: &Path<RealVectorState>) -> Vec<Vec<f64>> {
    path.0.iter().map(coords).collect()
}

fn leaves_the_wall(path: &Path<RealVectorState>) -> bool {
    points(path).iter().all(|p| !in_wall(p))
}

#[test]
fn motion_through_the_wall_is_invalid() {
    let space = Plane::square(5.0);
    assert!(!check_motion(&space, &Wall, &rv(&[-2.0, 0.0]), &rv(&[2.0, 0.0])));
    assert!(check_motion(&space, &Wall, &rv(&[-2.0, 3.0]), &rv(&[2.0, 3.0])));
}

#[test]
fn rrt_crosses_free_space() {
    let pd = problem(&[0.0, 0.0], Ball { centre: vec![4.0, 4.0], radius: 0.1 });
    let mut planner: RRT<RealVectorState, Plane, Ball, Free> = RRT::new(to_length(0.5), bias(5), &seeded(42));
    planner.setup(pd, Arc::new(Free));
    let path = planner.solve(Duration::from_secs(10)).unwrap();
    let p = points(&path);
    assert_eq!(p[0], vec![0.0, 0.0]);
    assert!(euclid(p.last().unwrap(), &[4.0, 4.0]) <= 0.1);
    for pair in p.windows(2) {
        assert!(euclid(&pair[0], &pair[1]) <= 0.5 + 1.0e-6);
    }
}

#[test]
fn rrt_goes_round_the_wall() {
    let pd = problem(&[-2.0, 0.0], Ball { centre: vec![2.0, 0.0], radius: 0.3 });
    let mut planner: RRT<RealVectorState, Plane, Ball, Wall> = RRT::new(to_length(0.5), bias(5), &seeded(7));
    planner.setup(pd, Arc::new(Wall));
    let path = planner.solve(Duration::from_secs(10)).unwrap();
    assert!(path.len() >= 3);
    assert!(leaves_the_wall(&path));
}

#[test]
fn rrt_without_setup_is_uninitialised() {
    let mut planner: RRT<RealVectorState, Plane, Ball, Free> = RRT::new(to_length(0.5), bias(5), &seeded(1));
    assert!(matches!(planner.solve(Duration::from_secs(1)), Err(PlanningError::PlannerUninitialised)));
}

#[test]
fn rrt_rejects_an_invalid_start() {
    let pd = problem(&[0.0, 0.0], Ball { centre: vec![2.0, 0.0], radius: 0.3 });
    let mut planner: RRT<RealVectorState, Plane, Ball, Wall> = RRT::new(to_length(0.5), bias(5), &seeded(1));
    planner.setup(pd, Arc::new(Wall));
    assert!(matches!(planner.solve(Duration::from_secs(1)), Err(PlanningError::InvalidStartState)));
}

#[test]
fn prm_goes_round_the_wall() {
    let pd = problem(&[-2.0, 0.0], Ball { centre: vec![2.0, 0.0], radius: 0.3 });
    let mut planner: PRM<RealVectorState, Plane, Ball, Wall> = PRM::new(300, to_length(1.5), &seeded(3));
    planner.setup(pd, Arc::new(Wall));
    let path = planner.solve(Duration::from_secs(15)).unwrap();
    assert!(path.len() >= 3);
    assert!(leaves_the_wall(&path));
    let space = Plane::square(5.0);
    for pair in path.0.windows(2) {
        assert!(check_motion(&space, &Wall, &pair[0], &pair[1]) || check_motion(&space, &Wall, &pair[1], &pair[0]));
    }
}

fn path_cost(path: &Path<RealVectorState>) -> f64 {
    points(path).windows(2).map(|w| euclid(&w[0], &w[1])).sum()
}

#[test]
fn rrt_connect_goes_round_the_wall() {
    let pd = problem(&[-2.0, 0.0], Ball { centre: vec![2.0, 0.0], radius: 0.3 });
    let mut planner: RRTConnect<RealVectorState, Plane, Ball, Wall> = RRTConnect::new(to_length(0.5), &seeded(11));
    planner.setup(pd, Arc::new(Wall));
    let path = planner.solve(Duration::from_secs(10)).unwrap();
    let p = points(&path);
    assert!(path.len() >= 3);
    assert!(leaves_the_wall(&path));
    assert_eq!(p[0], vec![-2.0, 0.0]);
    assert!(euclid(p.last().unwrap(), &[2.0, 0.0]) <= 0.3);
}

#[test]
fn rrt_connect_finds_a_straight_way_quickly() {
    let pd = problem(&[0.0, 0.0], Ball { centre: vec![4.0, 4.0], radius: 0.1 });
    let mut planner: RRTConnect<RealVectorState, Plane, Ball, Free> = RRTConnect::new(to_length(0.5), &seeded(5));
    planner.setup(pd, Arc::new(Free));
    let path = planner.solve(Duration::from_secs(10)).unwrap();
    assert!(path.len() >= 2);
    assert!(planner.start_tree_size() + planner.goal_tree_size() < 200);
}

#[test]
fn rrt_star_goes_round_the_wall() {
    let pd = problem(&[-2.0, 0.0], Ball { centre: vec![2.0, 0.0], radius: 0.3 });
    let mut planner: RRTStar<RealVectorState, Plane, Ball, Wall> =
        RRTStar::new(to_length(0.5), bias(5), to_length(1.0), &seeded(13));
    planner.setup(pd, Arc::new(Wall));
    let path = planner.solve(Duration::from_secs(3)).unwrap();
    assert!(path.len() >= 3);
    assert!(leaves_the_wall(&path));
}

#[test]
fn rrt_star_converges_in_free_space() {
    let pd = problem(&[0.0, 0.0], Ball { centre: vec![5.0, 5.0], radius: 0.1 });
    let mut planner: RRTStar<RealVectorState, Plane, Ball, Free> =
        RRTStar::new(to_length(0.5), bias(5), to_length(1.0), &seeded(42));
    planner.setup(pd, Arc::new(Free));
    let path = planner.solve(Duration::from_secs(2)).unwrap();
    let p = points(&path);
    assert_eq!(p[0], vec![0.0, 0.0]);
    assert!(euclid(p.last().unwrap(), &[5.0, 5.0]) <= 0.1);
    assert!(path_cost(&path) <= 1.15 * 50.0_f64.sqrt());
}

#[test]
fn rrt_star_never_gets_dearer() {
    let pd = problem(&[0.0, 0.0], Ball { centre: vec![3.0, 3.0], radius: 0.3 });
    let mut planner: RRTStar<RealVectorState, Plane, Ball, Free> =
        RRTStar::new(to_length(0.5), bias(10), to_length(1.0), &seeded(8));
    planner.setup(pd, Arc::new(Free));
    let mut last = f64::INFINITY;
    for _ in 0..4 {
        if let Ok(path) = planner.solve(Duration::from_millis(500)) {
            let cost = path_cost(&path);
            assert!(cost <= last + 1.0e-6);
            last = cost;
        }
    }
    assert!(last.is_finite());
}

#[test]
fn rrt_star_without_time_finds_nothing() {
    let pd = problem(&[0.0, 0.0], Ball { centre: vec![4.0, 4.0], radius: 0.1 });
    let mut planner: RRTStar<RealVectorState, Plane, Ball, Free> =
        RRTStar::new(to_length(0.5), bias(5), to_length(1.0), &seeded(1));
    planner.setup(pd, Arc::new(Free));
    assert!(matches!(planner.solve(Duration::ZERO), Err(PlanningError::NoSolutionFound)));
}

#[test]
fn zero_budget_times_out() {
    let pd = problem(&[0.0, 0.0], Ball { centre: vec![4.0, 4.0], radius: 0.1 });
    let mut rrt: RRT<RealVectorState, Plane, Ball, Free> = RRT::new(to_length(0.5), bias(5), &seeded(1));
    rrt.setup(pd.clone(), Arc::new(Free));
    assert!(matches!(rrt.solve(Duration::ZERO), Err(PlanningError::Timeout)));
    let mut connect: RRTConnect<RealVectorState, Plane, Ball, Free> = RRTConnect::new(to_length(0.5), &seeded(1));
    connect.setup(pd.clone(), Arc::new(Free));
    assert!(matches!(connect.solve(Duration::ZERO), Err(PlanningError::Timeout)));
    let mut prm: PRM<RealVectorState, Plane, Ball, Free> = PRM::new(50, to_length(1.5), &seeded(1));
    prm.setup(pd, Arc::new(Free));
    assert!(matches!(prm.solve(Duration::ZERO), Err(PlanningError::Timeout)));
}

#[test]
fn equal_seeds_give_equal_paths() {
    let run = |seed: u64| {
        let pd = problem(&[-2.0, 0.0], Ball { centre: vec![2.0, 0.0], radius: 0.3 });
        let mut planner: RRT<RealVectorState, Plane, Ball, Wall> = RRT::new(to_length(0.5), bias(5), &seeded(seed));
        planner.setup(pd, Arc::new(Wall));
        points(&planner.solve(Duration::from_secs(10)).unwrap())
    };
    let (a, b) = (run(99), run(99));
    assert_eq!(a.len(), b.len());
    for (p, q) in a.iter().zip(b.iter()) {
        assert!(euclid(p, q) <= 1.0e-9);
    }
}

struct Divide;

impl StateValidityChecker<RealVectorState> for Divide {
    fn spec_is_valid(&self, _state: ModelOf<RealVectorState>) -> bool {
        unreachable!()
    }

    fn is_valid(&self, state: &RealVectorState) -> bool {
        let c = coords(state);
        !(c[0] >= -1.0 && c[0] <= 1.0)
    }
}

#[test]
fn prm_reports_a_disconnected_roadmap() {
    let pd = problem(&[-3.0, 0.0], Ball { centre: vec![3.0, 0.0], radius: 1.5 });
    let mut planner: PRM<RealVectorState, Plane, Ball, Divide> = PRM::new(10, to_length(1.5), &seeded(4));
    planner.setup(pd, Arc::new(Divide));
    assert!(matches!(planner.solve(Duration::from_secs(10)), Err(PlanningError::NoSolutionFound)));
    assert_eq!(planner.roadmap_size(), 10);
}

struct Mute(Ball);

impl Goal<RealVectorState> for Mute {
    fn spec_is_satisfied(&self, _state: ModelOf<RealVectorState>) -> bool {
        unreachable!()
    }

    fn is_satisfied(&self, state: &RealVectorState) -> bool {
        self.0.is_satisfied(state)
    }
}

impl GoalRegion<RealVectorState> for Mute {
    fn spec_distance_goal(&self, _state: ModelOf<RealVectorState>) -> Length {
        unreachable!()
    }

    fn distance_goal(&self, state: &RealVectorState) -> Length {
        self.0.distance_goal(state)
    }
}

impl GoalSampleableRegion<RealVectorState> for Mute {
    fn sample_goal(&self, _rng: &mut StdRng) -> Result<RealVectorState, StateSamplingError> {
        Err(StateSamplingError::GoalRegionUnsatisfiable)
    }
}

fn mute_problem() -> Arc<ProblemDefinition<RealVectorState, Plane, Mute>> {
    Arc::new(ProblemDefinition {
        space: Arc::new(Plane::square(5.0)),
        start_states: vec![rv(&[0.0, 0.0])],
        goal: Arc::new(Mute(Ball { centre: vec![2.0, 2.0], radius: 0.5 })),
    })
}

#[test]
fn rrt_samples_the_space_when_the_goal_gives_no_sample() {
    let mut planner: RRT<RealVectorState, Plane, Mute, Free> =
        RRT::new(to_length(0.5), Probability::new(1, 1).unwrap(), &seeded(2));
    planner.setup(mute_problem(), Arc::new(Free));
    let path = planner.solve(Duration::from_secs(10)).unwrap();
    assert!(euclid(points(&path).last().unwrap(), &[2.0, 2.0]) <= 0.5);
    assert!(planner.tree_size() >= path.len());
}

#[test]
fn rrt_connect_waits_for_a_goal_state() {
    let mut planner: RRTConnect<RealVectorState, Plane, Mute, Free> = RRTConnect::new(to_length(0.5), &seeded(2));
    planner.setup(mute_problem(), Arc::new(Free));
    assert!(matches!(planner.solve(Duration::from_millis(200)), Err(PlanningError::Timeout)));
    assert_eq!((planner.start_tree_size(), planner.goal_tree_size()), (1, 0));
}

#[test]
fn a_start_in_the_goal_is_a_path_of_its_own() {
    let pd = problem(&[2.0, 2.0], Ball { centre: vec![2.0, 2.0], radius: 0.5 });
    let mut rrt: RRT<RealVectorState, Plane, Ball, Free> = RRT::new(to_length(0.5), bias(5), &seeded(1));
    rrt.setup(pd.clone(), Arc::new(Free));
    assert_eq!(points(&rrt.solve(Duration::from_secs(5)).unwrap()), vec![vec![2.0, 2.0]]);
    let mut connect: RRTConnect<RealVectorState, Plane, Ball, Free> = RRTConnect::new(to_length(0.5), &seeded(1));
    connect.setup(pd.clone(), Arc::new(Free));
    assert_eq!(points(&connect.solve(Duration::from_secs(5)).unwrap()), vec![vec![2.0, 2.0]]);
    let mut star: RRTStar<RealVectorState, Plane, Ball, Free> =
        RRTStar::new(to_length(0.5), bias(5), to_length(1.0), &seeded(1));
    star.setup(pd.clone(), Arc::new(Free));
    assert_eq!(points(&star.solve(Duration::from_millis(100)).unwrap()), vec![vec![2.0, 2.0]]);
    let mut prm: PRM<RealVectorState, Plane, Ball, Free> = PRM::new(5, to_length(1.5), &seeded(1));
    prm.setup(pd, Arc::new(Free));
    assert_eq!(points(&prm.solve(Duration::from_secs(5)).unwrap()), vec![vec![2.0, 2.0]]);
}

#[test]
fn prm_keeps_its_roadmap_between_queries() {
    let pd = problem(&[-2.0, 0.0], Ball { centre: vec![2.0, 0.0], radius: 0.3 });
    let mut planner: PRM<RealVectorState, Plane, Ball, Wall> = PRM::new(200, to_length(1.5), &seeded(3));
    assert!(matches!(planner.query(), Err(PlanningError::PlannerUninitialised)));
    assert!(matches!(planner.construct_roadmap(Duration::from_secs(5)), Err(PlanningError::PlannerUninitialised)));
    planner.setup(pd.clone(), Arc::new(Wall));
    assert!(matches!(planner.query(), Err(PlanningError::NoSolutionFound)));
    assert!(planner.construct_roadmap(Duration::from_secs(10)).is_ok());
    assert_eq!(planner.roadmap_size(), 200);
    let first = points(&planner.query().unwrap());
    let second = points(&planner.solve(Duration::from_secs(10)).unwrap());
    assert_eq!(planner.roadmap_size(), 200);
    assert_eq!(first, second);
    planner.setup(pd, Arc::new(Wall));
    assert_eq!(planner.roadmap_size(), 0);
}

#[test]
fn prm_rejects_an_invalid_start() {
    let pd = problem(&[0.0, 0.0], Ball { centre: vec![2.0, 0.0], radius: 0.3 });
    let mut planner: PRM<RealVectorState, Plane, Ball, Wall> = PRM::new(5, to_length(1.5), &seeded(3));
    planner.setup(pd, Arc::new(Wall));
    assert!(matches!(planner.solve(Duration::from_secs(10)), Err(PlanningError::InvalidStartState)));
    assert!(matches!(planner.query(), Err(PlanningError::InvalidStartState)));
}

#[test]
fn a_planner_goes_on_from_its_tree() {
    let pd = problem(&[-2.0, 0.0], Ball { centre: vec![2.0, 0.0], radius: 0.3 });
    let mut planner: RRT<RealVectorState, Plane, Ball, Wall> = RRT::new(to_length(0.5), bias(5), &seeded(7));
    planner.setup(pd.clone(), Arc::new(Wall));
    assert_eq!(planner.tree_size(), 0);
    assert!(matches!(planner.solve(Duration::ZERO), Err(PlanningError::Timeout)));
    assert_eq!(planner.tree_size(), 1);
    assert!(planner.solve(Duration::from_secs(10)).is_ok());
    let grown = planner.tree_size();
    assert!(grown > 1);
    planner.setup(pd, Arc::new(Wall));
    assert_eq!(planner.tree_size(), 0);
}

struct Counted {
    ball: Ball,
    asked: std::cell::Cell<usize>,
}

impl Goal<RealVectorState> for Counted {
    fn spec_is_satisfied(&self, _state: ModelOf<RealVectorState>) -> bool {
        unreachable!()
    }

    fn is_satisfied(&self, state: &RealVectorState) -> bool {
        self.ball.is_satisfied(state)
    }
}

impl GoalRegion<RealVectorState> for Counted {
    fn spec_distance_goal(&self, _state: ModelOf<RealVectorState>) -> Length {
        unreachable!()
    }

    fn distance_goal(&self, state: &RealVectorState) -> Length {
        self.ball.distance_goal(state)
    }
}

impl GoalSampleableRegion<RealVectorState> for Counted {
    fn sample_goal(&self, rng: &mut StdRng) -> Result<RealVectorState, StateSamplingError> {
        self.asked.set(self.asked.get() + 1);
        self.ball.sample_goal(rng)
    }
}

fn asked_with(goal_bias: Probability) -> (usize, usize) {
    let goal = Arc::new(Counted { ball: Ball { centre: vec![3.0, 3.0], radius: 0.3 }, asked: std::cell::Cell::new(0) });
    let pd = Arc::new(ProblemDefinition {
        space: Arc::new(Plane::square(5.0)),
        start_states: vec![rv(&[0.0, 0.0])],
        goal: goal.clone(),
    });
    let mut planner: RRT<RealVectorState, Plane, Counted, Free> = RRT::new(to_length(0.5), goal_bias, &seeded(6));
    planner.setup(pd, Arc::new(Free));
    assert!(planner.solve(Duration::from_secs(10)).is_ok());
    (goal.asked.get(), planner.tree_size())
}

#[test]
fn the_goal_is_asked_as_often_as_the_bias_says() {
    let (never, _) = asked_with(Probability::never());
    assert_eq!(never, 0);
    let (always, nodes) = asked_with(Probability::new(1, 1).unwrap());
    assert!(always >= 1);
    assert_eq!(always, nodes - 1);
}

#[test]
fn a_round_returns_the_branch_exactly_when_the_goal_is_reached() {
    let space = Plane::square(5.0);
    let goal = Ball { centre: vec![1.0, 0.0], radius: 0.2 };
    let mut tree: Vec<Node<RealVectorState>> = vec![Node { state: rv(&[0.0, 0.0]), parent: None }];
    let far = grow_to_goal(&space, &Free, &goal, &mut tree, &rv(&[4.0, 0.0]), to_length(0.5));
    assert!(far.is_none());
    assert_eq!(tree.len(), 2);
    assert_eq!(tree[1].parent, Some(0));
    assert!(euclid(&coords(&tree[1].state), &[0.5, 0.0]) < 1.0e-6);
    let near = grow_to_goal(&space, &Free, &goal, &mut tree, &rv(&[0.9, 0.0]), to_length(0.5));
    let path = near.unwrap();
    assert_eq!(tree.len(), 3);
    assert_eq!(tree[2].parent, Some(1));
    assert_eq!(points(&path), vec![vec![0.0, 0.0], coords(&tree[1].state), vec![0.9, 0.0]]);
    let mut blocked: Vec<Node<RealVectorState>> = vec![Node { state: rv(&[-0.6, 0.0]), parent: None }];
    let inside = Ball { centre: vec![0.0, 0.0], radius: 5.0 };
    assert!(grow_to_goal(&space, &Wall, &inside, &mut blocked, &rv(&[0.0, 0.0]), to_length(0.5)).is_none());
    assert_eq!(blocked.len(), 1);
}

#[test]
fn a_start_in_the_goal_is_found_without_time() {
    let pd = problem(&[2.0, 2.0], Ball { centre: vec![2.0, 2.0], radius: 0.5 });
    let mut star: RRTStar<RealVectorState, Plane, Ball, Free> =
        RRTStar::new(to_length(0.5), bias(5), to_length(1.0), &seeded(1));
    star.setup(pd.clone(), Arc::new(Free));
    assert_eq!(points(&star.solve(Duration::ZERO).unwrap()), vec![vec![2.0, 2.0]]);
    assert!(star.tree_size() >= 1);
    let mut rrt: RRT<RealVectorState, Plane, Ball, Free> = RRT::new(to_length(0.5), bias(5), &seeded(1));
    rrt.setup(pd.clone(), Arc::new(Free));
    assert_eq!(points(&rrt.solve(Duration::ZERO).unwrap()), vec![vec![2.0, 2.0]]);
    assert_eq!(points(&rrt.solve(Duration::ZERO).unwrap()), vec![vec![2.0, 2.0]]);
    assert_eq!(rrt.tree_size(), 1);
    let mut connect: RRTConnect<RealVectorState, Plane, Ball, Free> = RRTConnect::new(to_length(0.5), &seeded(1));
    connect.setup(pd, Arc::new(Free));
    assert_eq!(points(&connect.solve(Duration::ZERO).unwrap()), vec![vec![2.0, 2.0]]);
    assert_eq!((connect.start_tree_size(), connect.goal_tree_size()), (1, 0));
}

#[test]
fn the_start_is_planted_before_the_clock_is_read() {
    let pd = problem(&[0.0, 0.0], Ball { centre: vec![4.0, 4.0], radius: 0.1 });
    let mut connect: RRTConnect<RealVectorState, Plane, Ball, Free> = RRTConnect::new(to_length(0.5), &seeded(1));
    assert!(matches!(connect.solve(Duration::ZERO), Err(PlanningError::PlannerUninitialised)));
    assert_eq!((connect.start_tree_size(), connect.goal_tree_size()), (0, 0));
    connect.setup(pd.clone(), Arc::new(Free));
    assert!(matches!(connect.solve(Duration::ZERO), Err(PlanningError::Timeout)));
    assert_eq!(connect.start_tree_size(), 1);
    let mut star: RRTStar<RealVectorState, Plane, Ball, Free> =
        RRTStar::new(to_length(0.5), bias(5), to_length(1.0), &seeded(1));
    star.setup(pd, Arc::new(Free));
    assert!(matches!(star.solve(Duration::ZERO), Err(PlanningError::NoSolutionFound)));
    assert!(star.tree_size() >= 1);
    let walled = problem(&[0.0, 0.0], Ball { centre: vec![4.0, 4.0], radius: 0.1 });
    let mut stuck: RRTStar<RealVectorState, Plane, Ball, Wall> =
        RRTStar::new(to_length(0.5), bias(5), to_length(1.0), &seeded(1));
    stuck.setup(walled, Arc::new(Wall));
    assert!(matches!(stuck.solve(Duration::ZERO), Err(PlanningError::InvalidStartState)));
    assert_eq!(stuck.tree_size(), 0);
}

#[test]
fn prm_grows_for_as_long_as_it_may() {
    let pd = problem(&[-2.0, 0.0], Ball { centre: vec![2.0, 0.0], radius: 0.3 });
    let mut planner: PRM<RealVectorState, Plane, Ball, Wall> = PRM::new(usize::MAX, to_length(1.5), &seeded(3));
    assert!(matches!(planner.grow(Duration::from_millis(50)), Err(PlanningError::PlannerUninitialised)));
    assert!(matches!(planner.grow_and_query(Duration::from_millis(50)), Err(PlanningError::PlannerUninitialised)));
    assert!(matches!(planner.solve(Duration::from_millis(50)), Err(PlanningError::PlannerUninitialised)));
    assert_eq!(planner.roadmap_size(), 0);
    planner.setup(pd, Arc::new(Wall));
    assert!(planner.grow(Duration::from_millis(200)).is_ok());
    let grown = planner.roadmap_size();
    assert!(grown > 0);
    let first = planner.grow_and_query(Duration::from_secs(5)).map(|p| points(&p));
    assert_eq!(planner.roadmap_size(), grown);
    let second = planner.query().map(|p| points(&p));
    assert_eq!(first.ok(), second.ok());
    assert!(matches!(planner.solve(Duration::ZERO), Err(PlanningError::Timeout)));
}

#[test]
fn prm_grows_an_empty_roadmap_before_it_is_queried() {
    let pd = problem(&[-2.0, 0.0], Ball { centre: vec![2.0, 0.0], radius: 0.3 });
    let mut planner: PRM<RealVectorState, Plane, Ball, Wall> = PRM::new(200, to_length(1.5), &seeded(3));
    planner.setup(pd, Arc::new(Wall));
    let path = planner.grow_and_query(Duration::from_secs(10)).unwrap();
    assert_eq!(planner.roadmap_size(), 200);
    assert!(path.len() >= 3);
    assert!(leaves_the_wall(&path));
    assert_eq!(points(&path), points(&planner.query().unwrap()));
    let space = Plane::square(5.0);
    for pair in path.0.windows(2) {
        assert!(space.distance(&pair[0], &pair[1]) < to_length(1.5));
        assert!(check_motion(&space, &Wall, &pair[0], &pair[1]) || check_motion(&space, &Wall, &pair[1], &pair[0]));
    }
}
