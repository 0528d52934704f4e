//! Spaces made of other spaces of any families, each with a weight.

use vstd::prelude::*;
use rand::rngs::StdRng;
use crate::base::error::{StateSamplingError, StateSpaceError};
use crate::base::measure::{
    fraction_of, norm, spec_fraction_of, spec_norm, Fraction, Length, Weight,
};
use crate::base::scalar::Scalar;
use crate::base::space::StateSpace;
use crate::base::spaces::se2_state_space::{
    at_least_one, se2_distance, se2_enforce_bounds, se2_interpolate, se2_maximum_extent,
    se2_satisfies_bounds, spec_at_least_one, SE2StateSpace,
};
use crate::base::spaces::se3_state_space::{
    se3_distance, se3_enforce_bounds, se3_interpolate, se3_maximum_extent, se3_satisfies_bounds,
    SE3StateSpace,
};
use crate::base::state::DynClone;
use crate::base::states::compound_state::{
    clone_value, lemma_components_model, value_model, CompoundState, StateModel, StateValue,
};
use crate::base::states::real_vector_state::RealVectorState;
use crate::base::states::se2_state::{SE2Model, SE2State};
use crate::base::states::se3_state::{SE3Model, SE3State};
use crate::base::states::so2_state::SO2State;
use crate::base::states::so3_state::SO3State;

verus! {

/// A space of any family, as a part of a compound space.
#[verifier::reject_recursive_types(RV)]
#[verifier::reject_recursive_types(C)]
#[verifier::reject_recursive_types(R)]
pub enum SubSpace<
    RV: StateSpace<StateType = RealVectorState>,
    C: StateSpace<StateType = SO2State>,
    R: StateSpace<StateType = SO3State>,
> {
    RealVector(RV),
    SO2(C),
    SO3(R),
    SE2(SE2StateSpace<RV, C>),
    SE3(SE3StateSpace<RV, R>),
    Compound(CompoundStateSpace<RV, C, R>),
}

/// A part of a compound space: a space and the weight of its distances.
#[verifier::reject_recursive_types(RV)]
#[verifier::reject_recursive_types(C)]
#[verifier::reject_recursive_types(R)]
pub struct Part<
    RV: StateSpace<StateType = RealVectorState>,
    C: StateSpace<StateType = SO2State>,
    R: StateSpace<StateType = SO3State>,
> {
    pub space: SubSpace<RV, C, R>,
    pub weight: Weight,
}

/// A space whose states are lists of states, one for each part, in the
/// order of the parts. Bounds, sampling and interpolation are those of the
/// parts; the distance is the length of the vector of the parts' weighted
/// distances.
#[verifier::reject_recursive_types(RV)]
#[verifier::reject_recursive_types(C)]
#[verifier::reject_recursive_types(R)]
pub struct CompoundStateSpace<
    RV: StateSpace<StateType = RealVectorState>,
    C: StateSpace<StateType = SO2State>,
    R: StateSpace<StateType = SO3State>,
> {
    pub parts: Vec<Part<RV, C, R>>,
    /// The part of the space's extent that a motion may cover unchecked.
    pub segment_fraction: Fraction,
}

/// The distance between two points in a part. Points of another family than
/// the part are as far from everything as can be.
pub open spec fn part_distance<
    RV: StateSpace<StateType = RealVectorState>,
    C: StateSpace<StateType = SO2State>,
    R: StateSpace<StateType = SO3State>,
>(space: SubSpace<RV, C, R>, a: StateModel, b: StateModel) -> Length
    decreases space, 0nat,
{
    match space {
        SubSpace::RealVector(s) => if a is RealVector && b is RealVector {
            s.spec_distance(a->RealVector_0, b->RealVector_0)
        } else {
            u64::MAX
        },
        SubSpace::SO2(s) => if a is SO2 && b is SO2 {
            s.spec_distance(a->SO2_0, b->SO2_0)
        } else {
            u64::MAX
        },
        SubSpace::SO3(s) => if a is SO3 && b is SO3 {
            s.spec_distance(a->SO3_0, b->SO3_0)
        } else {
            u64::MAX
        },
        SubSpace::SE2(s) => if a is SE2 && b is SE2 {
            se2_distance(s, a->SE2_0, b->SE2_0)
        } else {
            u64::MAX
        },
        SubSpace::SE3(s) => if a is SE3 && b is SE3 {
            se3_distance(s, a->SE3_0, b->SE3_0)
        } else {
            u64::MAX
        },
        SubSpace::Compound(s) => if a is Compound && b is Compound {
            parts_distance(s.parts@, a->Compound_0, b->Compound_0)
        } else {
            u64::MAX
        },
    }
}

/// The weighted distances between two lists of points in the first `upto`
/// parts.
pub open spec fn distance_terms<
    RV: StateSpace<StateType = RealVectorState>,
    C: StateSpace<StateType = SO2State>,
    R: StateSpace<StateType = SO3State>,
>(parts: Seq<Part<RV, C, R>>, a: Seq<StateModel>, b: Seq<StateModel>, upto: nat) -> Seq<nat>
    decreases parts, upto,
{
    if upto == 0 || upto > parts.len() {
        Seq::empty()
    } else {
        distance_terms(parts, a, b, (upto - 1) as nat).push(
            parts[upto - 1].weight.spec_apply(
                part_distance(parts[upto - 1].space, a[upto - 1], b[upto - 1]) as nat,
            ),
        )
    }
}

/// The distance between two lists of points: the length of the vector of the
/// parts' weighted distances. Lists that do not have a point for each part
/// are as far from everything as can be.
pub open spec fn parts_distance<
    RV: StateSpace<StateType = RealVectorState>,
    C: StateSpace<StateType = SO2State>,
    R: StateSpace<StateType = SO3State>,
>(parts: Seq<Part<RV, C, R>>, a: Seq<StateModel>, b: Seq<StateModel>) -> Length
    decreases parts, parts.len() + 1,
{
    if a.len() != parts.len() || b.len() != parts.len() {
        u64::MAX
    } else {
        spec_norm(distance_terms(parts, a, b, parts.len()))
    }
}

/// Measures the distance between two states in a part.
pub fn measure_part<
    RV: StateSpace<StateType = RealVectorState>,
    C: StateSpace<StateType = SO2State>,
    R: StateSpace<StateType = SO3State>,
>(space: &SubSpace<RV, C, R>, a: &StateValue, b: &StateValue) -> (d: Length)
    ensures
        d == part_distance(*space, a@, b@),
    decreases *space,
{
    match space {
        SubSpace::RealVector(s) => match (a, b) {
            (StateValue::RealVector(x), StateValue::RealVector(y)) => s.distance(x, y),
            _ => u64::MAX,
        },
        SubSpace::SO2(s) => match (a, b) {
            (StateValue::SO2(x), StateValue::SO2(y)) => s.distance(x, y),
            _ => u64::MAX,
        },
        SubSpace::SO3(s) => match (a, b) {
            (StateValue::SO3(x), StateValue::SO3(y)) => s.distance(x, y),
            _ => u64::MAX,
        },
        SubSpace::SE2(s) => match (a, b) {
            (StateValue::SE2(x), StateValue::SE2(y)) => s.distance(x, y),
            _ => u64::MAX,
        },
        SubSpace::SE3(s) => match (a, b) {
            (StateValue::SE3(x), StateValue::SE3(y)) => s.distance(x, y),
            _ => u64::MAX,
        },
        SubSpace::Compound(s) => match (a, b) {
            (StateValue::Compound(x), StateValue::Compound(y)) => {
                proof {
                    assert(decreases_to!(*space => *s));
                }
                measure_parts(s, x, y)
            },
            _ => u64::MAX,
        },
    }
}

/// Measures the distance between two states of a compound space.
pub fn measure_parts<
    RV: StateSpace<StateType = RealVectorState>,
    C: StateSpace<StateType = SO2State>,
    R: StateSpace<StateType = SO3State>,
>(space: &CompoundStateSpace<RV, C, R>, a: &CompoundState, b: &CompoundState) -> (d: Length)
    ensures
        d == parts_distance(space.parts@, a@, b@),
    decreases *space,
{
    proof {
        lemma_components_model(*a, a.components@.len());
        lemma_components_model(*b, b.components@.len());
    }
    let n: usize = space.parts.len();
    if a.components.len() != n || b.components.len() != n {
        return u64::MAX;
    }
    let mut terms: Vec<u128> = Vec::new();
    let mut i: usize = 0;
    while i < n
        invariant
            i <= n,
            n == space.parts@.len(),
            a.components@.len() == n,
            b.components@.len() == n,
            a@.len() == n,
            b@.len() == n,
            forall|j: int| 0 <= j < n ==> #[trigger] a@[j] == value_model(a.components@[j]),
            forall|j: int| 0 <= j < n ==> #[trigger] b@[j] == value_model(b.components@[j]),
            terms@.map_values(|t: u128| t as nat) == distance_terms(
                space.parts@,
                a@,
                b@,
                i as nat,
            ),
        decreases n - i,
    {
        proof {
            assert(decreases_to!(*space => space.parts));
            assert(decreases_to!(space.parts => space.parts[i as int]));
            assert(decreases_to!(space.parts[i as int] => space.parts[i as int].space));
        }
        let d: Length = measure_part(&space.parts[i].space, &a.components[i], &b.components[i]);
        let ghost before = terms@;
        terms.push(space.parts[i].weight.apply(d));
        proof {
            assert(terms@.map_values(|t: u128| t as nat) =~= before.map_values(|t: u128| t as nat).push(
                space.parts@[i as int].weight.spec_apply(d as nat),
            ));
        }
        i = i + 1;
    }
    norm(&terms)
}

/// Whether a point lies within the bounds of a part. A point of another
/// family than the part does not.
pub open spec fn part_satisfies_bounds<
    RV: StateSpace<StateType = RealVectorState>,
    C: StateSpace<StateType = SO2State>,
    R: StateSpace<StateType = SO3State>,
>(space: SubSpace<RV, C, R>, state: StateModel) -> bool
    decreases space, 0nat,
{
    match space {
        SubSpace::RealVector(s) => state is RealVector && s.spec_satisfies_bounds(
            state->RealVector_0,
        ),
        SubSpace::SO2(s) => state is SO2 && s.spec_satisfies_bounds(state->SO2_0),
        SubSpace::SO3(s) => state is SO3 && s.spec_satisfies_bounds(state->SO3_0),
        SubSpace::SE2(s) => state is SE2 && se2_satisfies_bounds(s, state->SE2_0),
        SubSpace::SE3(s) => state is SE3 && se3_satisfies_bounds(s, state->SE3_0),
        SubSpace::Compound(s) => state is Compound && parts_satisfy_bounds(
            s.parts@,
            state->Compound_0,
        ),
    }
}

/// Whether each of the first `upto` points lies within the bounds of its part.
pub open spec fn satisfied_upto<
    RV: StateSpace<StateType = RealVectorState>,
    C: StateSpace<StateType = SO2State>,
    R: StateSpace<StateType = SO3State>,
>(parts: Seq<Part<RV, C, R>>, states: Seq<StateModel>, upto: nat) -> bool
    decreases parts, upto,
{
    if upto == 0 {
        true
    } else {
        &&& upto <= parts.len()
        &&& upto <= states.len()
        &&& satisfied_upto(parts, states, (upto - 1) as nat)
        &&& part_satisfies_bounds(parts[upto - 1].space, states[upto - 1])
    }
}

/// A list of points lies within the bounds when it has a point for each
/// part and each point lies within the bounds of its part.
pub open spec fn parts_satisfy_bounds<
    RV: StateSpace<StateType = RealVectorState>,
    C: StateSpace<StateType = SO2State>,
    R: StateSpace<StateType = SO3State>,
>(parts: Seq<Part<RV, C, R>>, states: Seq<StateModel>) -> bool
    decreases parts, parts.len() + 1,
{
    states.len() == parts.len() && satisfied_upto(parts, states, parts.len())
}

/// Where all of the first `upto` points are within bounds, so are the first
/// `fewer`.
pub proof fn lemma_satisfied_prefix<
    RV: StateSpace<StateType = RealVectorState>,
    C: StateSpace<StateType = SO2State>,
    R: StateSpace<StateType = SO3State>,
>(parts: Seq<Part<RV, C, R>>, states: Seq<StateModel>, upto: nat, fewer: nat)
    requires
        fewer <= upto,
        satisfied_upto(parts, states, upto),
    ensures
        satisfied_upto(parts, states, fewer),
    decreases upto,
{
    if fewer < upto {
        lemma_satisfied_prefix(parts, states, (upto - 1) as nat, fewer);
    }
}

/// Tests a state against the bounds of a part.
pub fn check_part<
    RV: StateSpace<StateType = RealVectorState>,
    C: StateSpace<StateType = SO2State>,
    R: StateSpace<StateType = SO3State>,
>(space: &SubSpace<RV, C, R>, state: &StateValue) -> (inside: bool)
    ensures
        inside == part_satisfies_bounds(*space, state@),
    decreases *space,
{
    match space {
        SubSpace::RealVector(s) => match state {
            StateValue::RealVector(x) => s.satisfies_bounds(x),
            _ => false,
        },
        SubSpace::SO2(s) => match state {
            StateValue::SO2(x) => s.satisfies_bounds(x),
            _ => false,
        },
        SubSpace::SO3(s) => match state {
            StateValue::SO3(x) => s.satisfies_bounds(x),
            _ => false,
        },
        SubSpace::SE2(s) => match state {
            StateValue::SE2(x) => s.satisfies_bounds(x),
            _ => false,
        },
        SubSpace::SE3(s) => match state {
            StateValue::SE3(x) => s.satisfies_bounds(x),
            _ => false,
        },
        SubSpace::Compound(s) => match state {
            StateValue::Compound(x) => {
                proof {
                    assert(decreases_to!(*space => *s));
                }
                check_parts(s, x)
            },
            _ => false,
        },
    }
}

/// Tests a state against the bounds of a compound space.
pub fn check_parts<
    RV: StateSpace<StateType = RealVectorState>,
    C: StateSpace<StateType = SO2State>,
    R: StateSpace<StateType = SO3State>,
>(space: &CompoundStateSpace<RV, C, R>, state: &CompoundState) -> (inside: bool)
    ensures
        inside == parts_satisfy_bounds(space.parts@, state@),
    decreases *space,
{
    proof {
        lemma_components_model(*state, state.components@.len());
    }
    let n: usize = space.parts.len();
    if state.components.len() != n {
        return false;
    }
    let mut i: usize = 0;
    while i < n
        invariant
            i <= n,
            n == space.parts@.len(),
            state.components@.len() == n,
            state@.len() == n,
            forall|j: int| 0 <= j < n ==> #[trigger] state@[j] == value_model(state.components@[j]),
            satisfied_upto(space.parts@, state@, i as nat),
        decreases n - i,
    {
        proof {
            assert(decreases_to!(*space => space.parts));
            assert(decreases_to!(space.parts => space.parts[i as int]));
            assert(decreases_to!(space.parts[i as int] => space.parts[i as int].space));
        }
        if !check_part(&space.parts[i].space, &state.components[i]) {
            proof {
                assert(!satisfied_upto(space.parts@, state@, (i + 1) as nat));
                if satisfied_upto(space.parts@, state@, n as nat) {
                    lemma_satisfied_prefix(space.parts@, state@, n as nat, (i + 1) as nat);
                }
            }
            return false;
        }
        i = i + 1;
    }
    true
}

/// What interpolation answers for points that are not of the shape of the
/// space: the second point at all of the way, the first before that.
pub open spec fn off_shape<T>(from: T, to: T, t: Fraction) -> T {
    if t.numerator == t.denominator {
        to
    } else {
        from
    }
}

/// The point between two points in a part. Where either is of another
/// family than the part, it is the first of the two, but the second at all
/// of the way.
pub open spec fn part_interpolate<
    RV: StateSpace<StateType = RealVectorState>,
    C: StateSpace<StateType = SO2State>,
    R: StateSpace<StateType = SO3State>,
>(space: SubSpace<RV, C, R>, from: StateModel, to: StateModel, t: Fraction) -> StateModel
    decreases space, 0nat,
{
    match space {
        SubSpace::RealVector(s) => if from is RealVector && to is RealVector {
            StateModel::RealVector(s.spec_interpolate(from->RealVector_0, to->RealVector_0, t))
        } else {
            off_shape(from, to, t)
        },
        SubSpace::SO2(s) => if from is SO2 && to is SO2 {
            StateModel::SO2(s.spec_interpolate(from->SO2_0, to->SO2_0, t))
        } else {
            off_shape(from, to, t)
        },
        SubSpace::SO3(s) => if from is SO3 && to is SO3 {
            StateModel::SO3(s.spec_interpolate(from->SO3_0, to->SO3_0, t))
        } else {
            off_shape(from, to, t)
        },
        SubSpace::SE2(s) => if from is SE2 && to is SE2 {
            StateModel::SE2(se2_interpolate(s, from->SE2_0, to->SE2_0, t))
        } else {
            off_shape(from, to, t)
        },
        SubSpace::SE3(s) => if from is SE3 && to is SE3 {
            StateModel::SE3(se3_interpolate(s, from->SE3_0, to->SE3_0, t))
        } else {
            off_shape(from, to, t)
        },
        SubSpace::Compound(s) => if from is Compound && to is Compound {
            StateModel::Compound(parts_interpolate(s.parts@, from->Compound_0, to->Compound_0, t))
        } else {
            off_shape(from, to, t)
        },
    }
}

/// The points between the first `upto` points of two lists, part by part.
pub open spec fn interpolated_upto<
    RV: StateSpace<StateType = RealVectorState>,
    C: StateSpace<StateType = SO2State>,
    R: StateSpace<StateType = SO3State>,
>(
    parts: Seq<Part<RV, C, R>>,
    from: Seq<StateModel>,
    to: Seq<StateModel>,
    t: Fraction,
    upto: nat,
) -> Seq<StateModel>
    decreases parts, upto,
{
    if upto == 0 || upto > parts.len() {
        Seq::empty()
    } else {
        interpolated_upto(parts, from, to, t, (upto - 1) as nat).push(
            part_interpolate(parts[upto - 1].space, from[upto - 1], to[upto - 1], t),
        )
    }
}

/// The list of points between two lists of points: part by part, in the
/// order of the parts. Where either list does not have a point for each
/// part, it is the first of the two, but the second at all of the way.
pub open spec fn parts_interpolate<
    RV: StateSpace<StateType = RealVectorState>,
    C: StateSpace<StateType = SO2State>,
    R: StateSpace<StateType = SO3State>,
>(
    parts: Seq<Part<RV, C, R>>,
    from: Seq<StateModel>,
    to: Seq<StateModel>,
    t: Fraction,
) -> Seq<StateModel>
    decreases parts, parts.len() + 1,
{
    if from.len() != parts.len() || to.len() != parts.len() {
        off_shape(from, to, t)
    } else {
        interpolated_upto(parts, from, to, t, parts.len())
    }
}

/// The list built by `interpolated_upto` has `upto` points.
pub proof fn lemma_interpolated_len<
    RV: StateSpace<StateType = RealVectorState>,
    C: StateSpace<StateType = SO2State>,
    R: StateSpace<StateType = SO3State>,
>(
    parts: Seq<Part<RV, C, R>>,
    from: Seq<StateModel>,
    to: Seq<StateModel>,
    t: Fraction,
    upto: nat,
)
    requires
        upto <= parts.len(),
    ensures
        interpolated_upto(parts, from, to, t, upto).len() == upto,
    decreases upto,
{
    if upto > 0 {
        lemma_interpolated_len(parts, from, to, t, (upto - 1) as nat);
    }
}

/// Copies the state that interpolation answers with for states that are
/// not of the shape of the space.
fn copy_off_shape(from: &StateValue, to: &StateValue, t: Fraction) -> (between: StateValue)
    requires
        t.wf(),
    ensures
        between@ == off_shape(from@, to@, t),
        t.numerator == 0 ==> between@ == from@,
        t.numerator == t.denominator ==> between@ == to@,
{
    if t.numerator == t.denominator {
        clone_value(to)
    } else {
        clone_value(from)
    }
}

/// Finds the state between two states in a part.
pub fn interpolate_part<
    RV: StateSpace<StateType = RealVectorState>,
    C: StateSpace<StateType = SO2State>,
    R: StateSpace<StateType = SO3State>,
>(space: &SubSpace<RV, C, R>, from: &StateValue, to: &StateValue, t: Fraction) -> (between: StateValue)
    requires
        t.wf(),
    ensures
        between@ == part_interpolate(*space, from@, to@, t),
        t.numerator == 0 ==> between@ == from@,
        t.numerator == t.denominator ==> between@ == to@,
    decreases *space,
{
    match space {
        SubSpace::RealVector(s) => match (from, to) {
            (StateValue::RealVector(x), StateValue::RealVector(y)) => {
                let mut out = *x.clone_box();
                s.interpolate(x, y, t, &mut out);
                StateValue::RealVector(out)
            },
            _ => copy_off_shape(from, to, t),
        },
        SubSpace::SO2(s) => match (from, to) {
            (StateValue::SO2(x), StateValue::SO2(y)) => {
                let mut out = *x;
                s.interpolate(x, y, t, &mut out);
                StateValue::SO2(out)
            },
            _ => copy_off_shape(from, to, t),
        },
        SubSpace::SO3(s) => match (from, to) {
            (StateValue::SO3(x), StateValue::SO3(y)) => {
                let mut out = *x;
                s.interpolate(x, y, t, &mut out);
                StateValue::SO3(out)
            },
            _ => copy_off_shape(from, to, t),
        },
        SubSpace::SE2(s) => match (from, to) {
            (StateValue::SE2(x), StateValue::SE2(y)) => {
                let mut out = *x.clone_box();
                s.interpolate(x, y, t, &mut out);
                StateValue::SE2(out)
            },
            _ => copy_off_shape(from, to, t),
        },
        SubSpace::SE3(s) => match (from, to) {
            (StateValue::SE3(x), StateValue::SE3(y)) => {
                let mut out = *x.clone_box();
                s.interpolate(x, y, t, &mut out);
                StateValue::SE3(out)
            },
            _ => copy_off_shape(from, to, t),
        },
        SubSpace::Compound(s) => match (from, to) {
            (StateValue::Compound(x), StateValue::Compound(y)) => {
                proof {
                    assert(decreases_to!(*space => *s));
                }
                StateValue::Compound(interpolate_parts(s, x, y, t))
            },
            _ => copy_off_shape(from, to, t),
        },
    }
}

/// Finds the state between two states of a compound space.
pub fn interpolate_parts<
    RV: StateSpace<StateType = RealVectorState>,
    C: StateSpace<StateType = SO2State>,
    R: StateSpace<StateType = SO3State>,
>(
    space: &CompoundStateSpace<RV, C, R>,
    from: &CompoundState,
    to: &CompoundState,
    t: Fraction,
) -> (between: CompoundState)
    requires
        t.wf(),
    ensures
        between@ == parts_interpolate(space.parts@, from@, to@, t),
        t.numerator == 0 ==> between@ == from@,
        t.numerator == t.denominator ==> between@ == to@,
    decreases *space,
{
    proof {
        lemma_components_model(*from, from.components@.len());
        lemma_components_model(*to, to.components@.len());
    }
    let n: usize = space.parts.len();
    if from.components.len() != n || to.components.len() != n {
        if t.numerator == t.denominator {
            return *to.clone_box();
        }
        return *from.clone_box();
    }
    let mut components: Vec<StateValue> = Vec::new();
    let mut i: usize = 0;
    while i < n
        invariant
            i <= n,
            t.wf(),
            n == space.parts@.len(),
            from.components@.len() == n,
            to.components@.len() == n,
            from@.len() == n,
            to@.len() == n,
            forall|j: int| 0 <= j < n ==> #[trigger] from@[j] == value_model(from.components@[j]),
            forall|j: int| 0 <= j < n ==> #[trigger] to@[j] == value_model(to.components@[j]),
            components@.len() == i,
            forall|j: int|
                0 <= j < i ==> value_model(#[trigger] components@[j]) == interpolated_upto(
                    space.parts@,
                    from@,
                    to@,
                    t,
                    n as nat,
                )[j],
            t.numerator == 0 ==> forall|j: int|
                0 <= j < i ==> value_model(#[trigger] components@[j]) == from@[j],
            t.numerator == t.denominator ==> forall|j: int|
                0 <= j < i ==> value_model(#[trigger] components@[j]) == to@[j],
        decreases n - i,
    {
        proof {
            assert(decreases_to!(*space => space.parts));
            assert(decreases_to!(space.parts => space.parts[i as int]));
            assert(decreases_to!(space.parts[i as int] => space.parts[i as int].space));
            lemma_interpolated_index(space.parts@, from@, to@, t, n as nat, i as int);
        }
        components.push(
            interpolate_part(&space.parts[i].space, &from.components[i], &to.components[i], t),
        );
        i = i + 1;
    }
    let between = CompoundState { components };
    proof {
        lemma_components_model(between, between.components@.len());
        lemma_interpolated_len(space.parts@, from@, to@, t, n as nat);
        assert(between@ =~= interpolated_upto(space.parts@, from@, to@, t, n as nat));
        if t.numerator == 0 {
            assert(between@ =~= from@);
        }
        if t.numerator == t.denominator {
            assert(between@ =~= to@);
        }
    }
    between
}

/// The point at `index` of the list built by `interpolated_upto` is the
/// point between the two points at `index`.
pub proof fn lemma_interpolated_index<
    RV: StateSpace<StateType = RealVectorState>,
    C: StateSpace<StateType = SO2State>,
    R: StateSpace<StateType = SO3State>,
>(
    parts: Seq<Part<RV, C, R>>,
    from: Seq<StateModel>,
    to: Seq<StateModel>,
    t: Fraction,
    upto: nat,
    index: int,
)
    requires
        0 <= index < upto <= parts.len(),
    ensures
        interpolated_upto(parts, from, to, t, upto).len() == upto,
        interpolated_upto(parts, from, to, t, upto)[index] == part_interpolate(
            parts[index].space,
            from[index],
            to[index],
            t,
        ),
    decreases upto,
{
    lemma_interpolated_len(parts, from, to, t, upto);
    lemma_interpolated_len(parts, from, to, t, (upto - 1) as nat);
    if index < upto - 1 {
        lemma_interpolated_index(parts, from, to, t, (upto - 1) as nat, index);
    }
}

/// The point that a point is moved to when the bounds of a part are
/// enforced. A point of another family than the part is first replaced by
/// the blank point of the part's family.
pub open spec fn part_enforce<
    RV: StateSpace<StateType = RealVectorState>,
    C: StateSpace<StateType = SO2State>,
    R: StateSpace<StateType = SO3State>,
>(space: SubSpace<RV, C, R>, state: StateModel) -> StateModel
    decreases space, 0nat,
{
    match space {
        SubSpace::RealVector(s) => StateModel::RealVector(
            s.spec_enforce_bounds(
                if state is RealVector {
                    state->RealVector_0
                } else {
                    Seq::empty()
                },
            ),
        ),
        SubSpace::SO2(s) => StateModel::SO2(
            s.spec_enforce_bounds(
                if state is SO2 {
                    state->SO2_0
                } else {
                    Scalar::spec_zero()
                },
            ),
        ),
        SubSpace::SO3(s) => StateModel::SO3(
            s.spec_enforce_bounds(
                if state is SO3 {
                    state->SO3_0
                } else {
                    SO3State::spec_identity()
                },
            ),
        ),
        SubSpace::SE2(s) => StateModel::SE2(
            se2_enforce_bounds(
                s,
                if state is SE2 {
                    state->SE2_0
                } else {
                    SE2Model { translation: Seq::empty(), rotation: Scalar::spec_zero() }
                },
            ),
        ),
        SubSpace::SE3(s) => StateModel::SE3(
            se3_enforce_bounds(
                s,
                if state is SE3 {
                    state->SE3_0
                } else {
                    SE3Model { translation: Seq::empty(), rotation: SO3State::spec_identity() }
                },
            ),
        ),
        SubSpace::Compound(s) => StateModel::Compound(
            parts_enforce(
                s.parts@,
                if state is Compound {
                    state->Compound_0
                } else {
                    Seq::empty()
                },
            ),
        ),
    }
}

/// The point at `index` of a list, or the empty compound point where the
/// list is too short.
pub open spec fn point_or_blank(states: Seq<StateModel>, index: int) -> StateModel {
    if 0 <= index < states.len() {
        states[index]
    } else {
        StateModel::Compound(Seq::empty())
    }
}

/// The first `upto` points of a list after the bounds of their parts have
/// been enforced.
pub open spec fn enforced_upto<
    RV: StateSpace<StateType = RealVectorState>,
    C: StateSpace<StateType = SO2State>,
    R: StateSpace<StateType = SO3State>,
>(parts: Seq<Part<RV, C, R>>, states: Seq<StateModel>, upto: nat) -> Seq<StateModel>
    decreases parts, upto,
{
    if upto == 0 || upto > parts.len() {
        Seq::empty()
    } else {
        enforced_upto(parts, states, (upto - 1) as nat).push(
            part_enforce(parts[upto - 1].space, point_or_blank(states, upto - 1)),
        )
    }
}

/// The list that a list of points is moved to when the bounds are enforced:
/// one point for each part, each within the bounds of its part.
pub open spec fn parts_enforce<
    RV: StateSpace<StateType = RealVectorState>,
    C: StateSpace<StateType = SO2State>,
    R: StateSpace<StateType = SO3State>,
>(parts: Seq<Part<RV, C, R>>, states: Seq<StateModel>) -> Seq<StateModel>
    decreases parts, parts.len() + 1,
{
    enforced_upto(parts, states, parts.len())
}

/// The point at `index` of the list built by `enforced_upto` is the point at
/// `index` with the bounds of its part enforced.
pub proof fn lemma_enforced_index<
    RV: StateSpace<StateType = RealVectorState>,
    C: StateSpace<StateType = SO2State>,
    R: StateSpace<StateType = SO3State>,
>(parts: Seq<Part<RV, C, R>>, states: Seq<StateModel>, upto: nat, index: int)
    requires
        0 <= index < upto <= parts.len(),
    ensures
        enforced_upto(parts, states, upto).len() == upto,
        enforced_upto(parts, states, upto)[index] == part_enforce(
            parts[index].space,
            point_or_blank(states, index),
        ),
    decreases upto,
{
    lemma_enforced_len(parts, states, upto);
    lemma_enforced_len(parts, states, (upto - 1) as nat);
    if index < upto - 1 {
        lemma_enforced_index(parts, states, (upto - 1) as nat, index);
    }
}

/// The list built by `enforced_upto` has `upto` points.
pub proof fn lemma_enforced_len<
    RV: StateSpace<StateType = RealVectorState>,
    C: StateSpace<StateType = SO2State>,
    R: StateSpace<StateType = SO3State>,
>(parts: Seq<Part<RV, C, R>>, states: Seq<StateModel>, upto: nat)
    requires
        upto <= parts.len(),
    ensures
        enforced_upto(parts, states, upto).len() == upto,
    decreases upto,
{
    if upto > 0 {
        lemma_enforced_len(parts, states, (upto - 1) as nat);
    }
}

/// A list in which every point lies within the bounds of its part lies
/// within the bounds.
pub proof fn lemma_satisfied_by_each<
    RV: StateSpace<StateType = RealVectorState>,
    C: StateSpace<StateType = SO2State>,
    R: StateSpace<StateType = SO3State>,
>(parts: Seq<Part<RV, C, R>>, states: Seq<StateModel>, upto: nat)
    requires
        upto <= parts.len(),
        upto <= states.len(),
        forall|j: int|
            0 <= j < upto ==> part_satisfies_bounds((#[trigger] parts[j]).space, states[j]),
    ensures
        satisfied_upto(parts, states, upto),
    decreases upto,
{
    if upto > 0 {
        lemma_satisfied_by_each(parts, states, (upto - 1) as nat);
        assert(part_satisfies_bounds(parts[upto - 1].space, states[upto - 1]));
    }
}

/// A list in which enforcing the bounds changes no point is left as it is
/// when the bounds are enforced.
pub proof fn lemma_settled_by_each<
    RV: StateSpace<StateType = RealVectorState>,
    C: StateSpace<StateType = SO2State>,
    R: StateSpace<StateType = SO3State>,
>(parts: Seq<Part<RV, C, R>>, states: Seq<StateModel>)
    requires
        states.len() == parts.len(),
        forall|j: int|
            0 <= j < parts.len() ==> part_enforce((#[trigger] parts[j]).space, states[j])
                == states[j],
    ensures
        parts_enforce(parts, states) == states,
{
    let n = parts.len();
    lemma_enforced_len(parts, states, n);
    assert forall|j: int| 0 <= j < n implies enforced_upto(parts, states, n)[j] == states[j] by {
        lemma_enforced_index(parts, states, n, j);
        assert(part_enforce(parts[j].space, states[j]) == states[j]);
    }
    assert(enforced_upto(parts, states, n) =~= states);
}

/// Moves a state into the bounds of a part.
pub fn enforce_part<
    RV: StateSpace<StateType = RealVectorState>,
    C: StateSpace<StateType = SO2State>,
    R: StateSpace<StateType = SO3State>,
>(space: &SubSpace<RV, C, R>, state: &StateValue) -> (inside: StateValue)
    ensures
        inside@ == part_enforce(*space, state@),
        part_satisfies_bounds(*space, inside@),
        part_enforce(*space, inside@) == inside@,
    decreases *space,
{
    match space {
        SubSpace::RealVector(s) => {
            let mut out = match state {
                StateValue::RealVector(x) => *x.clone_box(),
                _ => RealVectorState::new(Vec::new()),
            };
            s.enforce_bounds(&mut out);
            StateValue::RealVector(out)
        },
        SubSpace::SO2(s) => {
            let mut out = match state {
                StateValue::SO2(x) => *x,
                _ => SO2State::new(Scalar::zero()),
            };
            s.enforce_bounds(&mut out);
            StateValue::SO2(out)
        },
        SubSpace::SO3(s) => {
            let mut out = match state {
                StateValue::SO3(x) => *x,
                _ => SO3State::identity(),
            };
            s.enforce_bounds(&mut out);
            StateValue::SO3(out)
        },
        SubSpace::SE2(s) => {
            let mut out = match state {
                StateValue::SE2(x) => *x.clone_box(),
                _ => SE2State {
                    translation: RealVectorState::new(Vec::new()),
                    rotation: SO2State::new(Scalar::zero()),
                },
            };
            s.enforce_bounds(&mut out);
            StateValue::SE2(out)
        },
        SubSpace::SE3(s) => {
            let mut out = match state {
                StateValue::SE3(x) => *x.clone_box(),
                _ => SE3State {
                    translation: RealVectorState::new(Vec::new()),
                    rotation: SO3State::identity(),
                },
            };
            s.enforce_bounds(&mut out);
            StateValue::SE3(out)
        },
        SubSpace::Compound(s) => {
            proof {
                assert(decreases_to!(*space => *s));
            }
            let out = match state {
                StateValue::Compound(x) => enforce_parts(s, x),
                _ => {
                    let blank = CompoundState { components: Vec::new() };
                    proof {
                        lemma_components_model(blank, 0);
                        assert(blank@ =~= Seq::<StateModel>::empty());
                    }
                    enforce_parts(s, &blank)
                },
            };
            StateValue::Compound(out)
        },
    }
}

/// Moves a state into the bounds of a compound space: it is given one
/// component for each part, and each is moved into the bounds of its part.
pub fn enforce_parts<
    RV: StateSpace<StateType = RealVectorState>,
    C: StateSpace<StateType = SO2State>,
    R: StateSpace<StateType = SO3State>,
>(space: &CompoundStateSpace<RV, C, R>, state: &CompoundState) -> (inside: CompoundState)
    ensures
        inside@ == parts_enforce(space.parts@, state@),
        parts_satisfy_bounds(space.parts@, inside@),
        parts_enforce(space.parts@, inside@) == inside@,
    decreases *space,
{
    proof {
        lemma_components_model(*state, state.components@.len());
    }
    let n: usize = space.parts.len();
    let blank = StateValue::Compound(CompoundState { components: Vec::new() });
    proof {
        lemma_components_model(blank->Compound_0, 0);
        assert(blank->Compound_0@ =~= Seq::<StateModel>::empty());
        assert(blank@ == StateModel::Compound(Seq::empty()));
    }
    let mut components: Vec<StateValue> = Vec::new();
    let mut i: usize = 0;
    while i < n
        invariant
            i <= n,
            n == space.parts@.len(),
            state@.len() == state.components@.len(),
            forall|j: int|
                0 <= j < state.components@.len() ==> #[trigger] state@[j] == value_model(
                    state.components@[j],
                ),
            blank@ == StateModel::Compound(Seq::empty()),
            components@.len() == i,
            forall|j: int|
                0 <= j < i ==> {
                    &&& value_model(#[trigger] components@[j]) == part_enforce(
                        space.parts@[j].space,
                        point_or_blank(state@, j),
                    )
                    &&& part_satisfies_bounds(space.parts@[j].space, value_model(components@[j]))
                    &&& part_enforce(space.parts@[j].space, value_model(components@[j]))
                        == value_model(components@[j])
                },
        decreases n - i,
    {
        proof {
            assert(decreases_to!(*space => space.parts));
            assert(decreases_to!(space.parts => space.parts[i as int]));
            assert(decreases_to!(space.parts[i as int] => space.parts[i as int].space));
        }
        let moved = if i < state.components.len() {
            enforce_part(&space.parts[i].space, &state.components[i])
        } else {
            enforce_part(&space.parts[i].space, &blank)
        };
        components.push(moved);
        i = i + 1;
    }
    let inside = CompoundState { components };
    proof {
        lemma_components_model(inside, inside.components@.len());
        lemma_enforced_len(space.parts@, state@, n as nat);
        assert forall|j: int| 0 <= j < n implies inside@[j] == enforced_upto(
            space.parts@,
            state@,
            n as nat,
        )[j] by {
            lemma_enforced_index(space.parts@, state@, n as nat, j);
        }
        assert(inside@ =~= enforced_upto(space.parts@, state@, n as nat));
        assert forall|j: int| 0 <= j < n implies part_satisfies_bounds(
            (#[trigger] space.parts@[j]).space,
            inside@[j],
        ) by {
            assert(inside@[j] == value_model(inside.components@[j]));
        }
        lemma_satisfied_by_each(space.parts@, inside@, n as nat);
        assert forall|j: int| 0 <= j < n implies part_enforce(
            (#[trigger] space.parts@[j]).space,
            inside@[j],
        ) == inside@[j] by {
            assert(inside@[j] == value_model(inside.components@[j]));
        }
        lemma_settled_by_each(space.parts@, inside@);
    }
    inside
}

/// Draws a state within the bounds of a part: the part's own sampler is
/// asked, and its state or its failure handed on. A part that holds no
/// simple space asks no sampler and never fails.
pub fn sample_part<
    RV: StateSpace<StateType = RealVectorState>,
    C: StateSpace<StateType = SO2State>,
    R: StateSpace<StateType = SO3State>,
>(space: &SubSpace<RV, C, R>, rng: &mut StdRng) -> (sample: Result<StateValue, StateSamplingError>)
    ensures
        sample matches Ok(s) ==> part_satisfies_bounds(*space, s@),
        part_is_hollow(*space) ==> sample is Ok,
    decreases *space,
{
    match space {
        SubSpace::RealVector(s) => match s.sample_uniform(rng) {
            Ok(x) => Ok(StateValue::RealVector(x)),
            Err(e) => Err(e),
        },
        SubSpace::SO2(s) => match s.sample_uniform(rng) {
            Ok(x) => Ok(StateValue::SO2(x)),
            Err(e) => Err(e),
        },
        SubSpace::SO3(s) => match s.sample_uniform(rng) {
            Ok(x) => Ok(StateValue::SO3(x)),
            Err(e) => Err(e),
        },
        SubSpace::SE2(s) => match s.sample_uniform(rng) {
            Ok(x) => Ok(StateValue::SE2(x)),
            Err(e) => Err(e),
        },
        SubSpace::SE3(s) => match s.sample_uniform(rng) {
            Ok(x) => Ok(StateValue::SE3(x)),
            Err(e) => Err(e),
        },
        SubSpace::Compound(s) => {
            proof {
                assert(decreases_to!(*space => *s));
            }
            match sample_parts(s, rng) {
                Ok(x) => Ok(StateValue::Compound(x)),
                Err(e) => Err(e),
            }
        },
    }
}

/// Draws a state within the bounds of a compound space: one component from
/// each part, in the order of the parts. Fails where a part fails, and so
/// never where no part holds a simple space: a space without parts gives
/// the state without components.
pub fn sample_parts<
    RV: StateSpace<StateType = RealVectorState>,
    C: StateSpace<StateType = SO2State>,
    R: StateSpace<StateType = SO3State>,
>(space: &CompoundStateSpace<RV, C, R>, rng: &mut StdRng) -> (sample: Result<
    CompoundState,
    StateSamplingError,
>)
    ensures
        sample matches Ok(s) ==> parts_satisfy_bounds(space.parts@, s@) && s@.len()
            == space.parts@.len(),
        parts_are_hollow(space.parts@) ==> sample is Ok,
    decreases *space,
{
    let n: usize = space.parts.len();
    let mut components: Vec<StateValue> = Vec::new();
    let mut i: usize = 0;
    while i < n
        invariant
            i <= n,
            n == space.parts@.len(),
            components@.len() == i,
            forall|j: int|
                0 <= j < i ==> part_satisfies_bounds(
                    space.parts@[j].space,
                    value_model(#[trigger] components@[j]),
                ),
        decreases n - i,
    {
        proof {
            assert(decreases_to!(*space => space.parts));
            assert(decreases_to!(space.parts => space.parts[i as int]));
            assert(decreases_to!(space.parts[i as int] => space.parts[i as int].space));
        }
        proof {
            if parts_are_hollow(space.parts@) {
                lemma_hollow_part(space.parts@, n as nat, i as int);
            }
        }
        match sample_part(&space.parts[i].space, rng) {
            Ok(part) => {
                components.push(part);
            },
            Err(e) => {
                return Err(e);
            },
        }
        i = i + 1;
    }
    let sample = CompoundState { components };
    proof {
        lemma_components_model(sample, sample.components@.len());
        assert forall|j: int| 0 <= j < n implies part_satisfies_bounds(
            (#[trigger] space.parts@[j]).space,
            sample@[j],
        ) by {
            assert(sample@[j] == value_model(sample.components@[j]));
        }
        lemma_satisfied_by_each(space.parts@, sample@, n as nat);
    }
    Ok(sample)
}

/// Whether a part holds no simple space: it is a compound space, and so are
/// all its parts, and theirs. Such a part has one state only, which is made
/// of lists of lists, and drawing it asks nothing of any space's sampler.
pub open spec fn part_is_hollow<
    RV: StateSpace<StateType = RealVectorState>,
    C: StateSpace<StateType = SO2State>,
    R: StateSpace<StateType = SO3State>,
>(space: SubSpace<RV, C, R>) -> bool
    decreases space, 0nat,
{
    match space {
        SubSpace::Compound(s) => hollow_upto(s.parts@, s.parts@.len()),
        _ => false,
    }
}

/// Whether each of the first `upto` parts holds no simple space.
pub open spec fn hollow_upto<
    RV: StateSpace<StateType = RealVectorState>,
    C: StateSpace<StateType = SO2State>,
    R: StateSpace<StateType = SO3State>,
>(parts: Seq<Part<RV, C, R>>, upto: nat) -> bool
    decreases parts, upto,
{
    if upto == 0 {
        true
    } else {
        &&& upto <= parts.len()
        &&& hollow_upto(parts, (upto - 1) as nat)
        &&& part_is_hollow(parts[upto - 1].space)
    }
}

/// Whether a compound space holds no simple space: it has no parts, or all
/// its parts hold none.
pub open spec fn parts_are_hollow<
    RV: StateSpace<StateType = RealVectorState>,
    C: StateSpace<StateType = SO2State>,
    R: StateSpace<StateType = SO3State>,
>(parts: Seq<Part<RV, C, R>>) -> bool {
    hollow_upto(parts, parts.len())
}

/// Where the first `upto` parts hold no simple space, neither does the part
/// at `index` among them.
pub proof fn lemma_hollow_part<
    RV: StateSpace<StateType = RealVectorState>,
    C: StateSpace<StateType = SO2State>,
    R: StateSpace<StateType = SO3State>,
>(parts: Seq<Part<RV, C, R>>, upto: nat, index: int)
    requires
        0 <= index < upto,
        hollow_upto(parts, upto),
    ensures
        upto <= parts.len(),
        part_is_hollow(parts[index].space),
    decreases upto,
{
    if index < upto - 1 {
        lemma_hollow_part(parts, (upto - 1) as nat, index);
    }
}

/// The extent of a part.
pub open spec fn part_extent<
    RV: StateSpace<StateType = RealVectorState>,
    C: StateSpace<StateType = SO2State>,
    R: StateSpace<StateType = SO3State>,
>(space: SubSpace<RV, C, R>) -> Length
    decreases space, 0nat,
{
    match space {
        SubSpace::RealVector(s) => s.spec_maximum_extent(),
        SubSpace::SO2(s) => s.spec_maximum_extent(),
        SubSpace::SO3(s) => s.spec_maximum_extent(),
        SubSpace::SE2(s) => se2_maximum_extent(s),
        SubSpace::SE3(s) => se3_maximum_extent(s),
        SubSpace::Compound(s) => parts_extent(s.parts@),
    }
}

/// The weighted extents of the first `upto` parts.
pub open spec fn extent_terms<
    RV: StateSpace<StateType = RealVectorState>,
    C: StateSpace<StateType = SO2State>,
    R: StateSpace<StateType = SO3State>,
>(parts: Seq<Part<RV, C, R>>, upto: nat) -> Seq<nat>
    decreases parts, upto,
{
    if upto == 0 || upto > parts.len() {
        Seq::empty()
    } else {
        extent_terms(parts, (upto - 1) as nat).push(
            parts[upto - 1].weight.spec_apply(part_extent(parts[upto - 1].space) as nat),
        )
    }
}

/// The extent of a compound space: the parts' extents put together as
/// distances are.
pub open spec fn parts_extent<
    RV: StateSpace<StateType = RealVectorState>,
    C: StateSpace<StateType = SO2State>,
    R: StateSpace<StateType = SO3State>,
>(parts: Seq<Part<RV, C, R>>) -> Length
    decreases parts, parts.len() + 1,
{
    spec_norm(extent_terms(parts, parts.len()))
}

/// Finds the extent of a part.
pub fn extent_of_part<
    RV: StateSpace<StateType = RealVectorState>,
    C: StateSpace<StateType = SO2State>,
    R: StateSpace<StateType = SO3State>,
>(space: &SubSpace<RV, C, R>) -> (extent: Length)
    ensures
        extent == part_extent(*space),
    decreases *space,
{
    match space {
        SubSpace::RealVector(s) => s.get_maximum_extent(),
        SubSpace::SO2(s) => s.get_maximum_extent(),
        SubSpace::SO3(s) => s.get_maximum_extent(),
        SubSpace::SE2(s) => s.get_maximum_extent(),
        SubSpace::SE3(s) => s.get_maximum_extent(),
        SubSpace::Compound(s) => {
            proof {
                assert(decreases_to!(*space => *s));
            }
            extent_of_parts(s)
        },
    }
}

/// Finds the extent of a compound space.
pub fn extent_of_parts<
    RV: StateSpace<StateType = RealVectorState>,
    C: StateSpace<StateType = SO2State>,
    R: StateSpace<StateType = SO3State>,
>(space: &CompoundStateSpace<RV, C, R>) -> (extent: Length)
    ensures
        extent == parts_extent(space.parts@),
    decreases *space,
{
    let n: usize = space.parts.len();
    let mut terms: Vec<u128> = Vec::new();
    let mut i: usize = 0;
    while i < n
        invariant
            i <= n,
            n == space.parts@.len(),
            terms@.map_values(|t: u128| t as nat) == extent_terms(space.parts@, i as nat),
        decreases n - i,
    {
        proof {
            assert(decreases_to!(*space => space.parts));
            assert(decreases_to!(space.parts => space.parts[i as int]));
            assert(decreases_to!(space.parts[i as int] => space.parts[i as int].space));
        }
        let l: Length = extent_of_part(&space.parts[i].space);
        let ghost before = terms@;
        terms.push(space.parts[i].weight.apply(l));
        proof {
            assert(terms@.map_values(|t: u128| t as nat) =~= before.map_values(|t: u128| t as nat).push(
                space.parts@[i as int].weight.spec_apply(l as nat),
            ));
        }
        i = i + 1;
    }
    norm(&terms)
}

impl<
    RV: StateSpace<StateType = RealVectorState>,
    C: StateSpace<StateType = SO2State>,
    R: StateSpace<StateType = SO3State>,
> CompoundStateSpace<RV, C, R> {
    /// The compound space of the given parts.
    pub fn from_parts(parts: Vec<Part<RV, C, R>>) -> (space: Self)
        ensures
            space.parts == parts,
            space.segment_fraction == (Fraction { numerator: 1, denominator: 100 }),
    {
        CompoundStateSpace { parts, segment_fraction: Fraction::hundredth() }
    }

    /// Sets the part of the space's extent that a motion may cover
    /// unchecked.
    pub fn set_longest_valid_segment_fraction(&mut self, fraction: Fraction)
        requires
            fraction.wf(),
            fraction.numerator > 0,
        ensures
            final(self).segment_fraction == fraction,
            final(self).parts == old(self).parts,
    {
        self.segment_fraction = fraction;
    }

    /// The compound space of the spaces `subspaces`, weighted by `weights`
    /// in the same order. There must be a weight for each space.
    pub fn new(subspaces: Vec<SubSpace<RV, C, R>>, weights: Vec<Weight>) -> (space: Result<
        Self,
        StateSpaceError,
    >)
        ensures
            match space {
                Ok(s) => {
                    &&& subspaces@.len() == weights@.len()
                    &&& s.segment_fraction == (Fraction { numerator: 1, denominator: 100 })
                    &&& s.parts@.len() == subspaces@.len()
                    &&& forall|i: int|
                        0 <= i < s.parts@.len() ==> (#[trigger] s.parts@[i]).space == subspaces@[i]
                            && s.parts@[i].weight == weights@[i]
                },
                Err(e) => subspaces@.len() != weights@.len() && e
                    == StateSpaceError::InvalidDimension,
            },
    {
        if subspaces.len() != weights.len() {
            return Err(StateSpaceError::InvalidDimension);
        }
        let ghost given = subspaces@;
        let mut rest = subspaces;
        let mut backwards: Vec<Part<RV, C, R>> = Vec::new();
        while rest.len() > 0
            invariant
                given.len() == weights@.len(),
                rest@ == given.subrange(0, rest@.len() as int),
                backwards@.len() + rest@.len() == given.len(),
                forall|k: int|
                    0 <= k < backwards@.len() ==> (#[trigger] backwards@[k]).space == given[given.len()
                        - 1 - k] && backwards@[k].weight == weights@[given.len() - 1 - k],
            decreases rest@.len(),
        {
            let ghost before = rest@;
            let index: usize = rest.len() - 1;
            match rest.pop() {
                Some(space) => {
                    proof {
                        assert(space == before[before.len() - 1]);
                        assert(rest@ == given.subrange(0, rest@.len() as int));
                    }
                    backwards.push(Part { space, weight: weights[index] });
                },
                None => {},
            }
        }
        let ghost turned = backwards@;
        let mut parts: Vec<Part<RV, C, R>> = Vec::new();
        while backwards.len() > 0
            invariant
                turned.len() == given.len(),
                backwards@ == turned.subrange(0, backwards@.len() as int),
                parts@.len() + backwards@.len() == turned.len(),
                forall|k: int|
                    0 <= k < turned.len() ==> (#[trigger] turned[k]).space == given[given.len() - 1
                        - k] && turned[k].weight == weights@[given.len() - 1 - k],
                forall|k: int|
                    0 <= k < parts@.len() ==> (#[trigger] parts@[k]).space == given[k] && parts@[k].weight
                        == weights@[k],
            decreases backwards@.len(),
        {
            let ghost before = backwards@;
            match backwards.pop() {
                Some(part) => {
                    proof {
                        assert(part == before[before.len() - 1]);
                        assert(part == turned[before.len() - 1]);
                        assert(backwards@ == turned.subrange(0, backwards@.len() as int));
                    }
                    parts.push(part);
                },
                None => {},
            }
        }
        Ok(CompoundStateSpace { parts, segment_fraction: Fraction::hundredth() })
    }

    /// The number of parts.
    pub fn part_count(&self) -> (n: usize)
        ensures
            n == self.parts@.len(),
    {
        self.parts.len()
    }
}

impl<
    RV: StateSpace<StateType = RealVectorState>,
    C: StateSpace<StateType = SO2State>,
    R: StateSpace<StateType = SO3State>,
> StateSpace for CompoundStateSpace<RV, C, R> {
    type StateType = CompoundState;

    open spec fn spec_distance(&self, a: Seq<StateModel>, b: Seq<StateModel>) -> Length {
        parts_distance(self.parts@, a, b)
    }

    open spec fn spec_interpolate(
        &self,
        from: Seq<StateModel>,
        to: Seq<StateModel>,
        t: Fraction,
    ) -> Seq<StateModel> {
        parts_interpolate(self.parts@, from, to, t)
    }

    open spec fn spec_satisfies_bounds(&self, state: Seq<StateModel>) -> bool {
        parts_satisfy_bounds(self.parts@, state)
    }

    open spec fn spec_enforce_bounds(&self, state: Seq<StateModel>) -> Seq<StateModel> {
        parts_enforce(self.parts@, state)
    }

    open spec fn spec_maximum_extent(&self) -> Length {
        parts_extent(self.parts@)
    }

    open spec fn spec_longest_valid_segment_length(&self) -> Length {
        spec_at_least_one(spec_fraction_of(parts_extent(self.parts@), self.segment_fraction))
    }

    proof fn lemma_distance_is_symmetric(&self, a: Seq<StateModel>, b: Seq<StateModel>) {
        lemma_parts_distance_is_symmetric(self.parts@, a, b);
    }

    fn distance(&self, a: &CompoundState, b: &CompoundState) -> (d: Length) {
        measure_parts(self, a, b)
    }

    fn interpolate(
        &self,
        from: &CompoundState,
        to: &CompoundState,
        t: Fraction,
        out: &mut CompoundState,
    ) {
        *out = interpolate_parts(self, from, to, t);
    }

    fn satisfies_bounds(&self, state: &CompoundState) -> (inside: bool) {
        check_parts(self, state)
    }

    fn enforce_bounds(&self, state: &mut CompoundState) {
        let inside = enforce_parts(self, state);
        *state = inside;
    }

    /// Draws one component from each part. A space in which no part holds a
    /// simple space never fails.
    fn sample_uniform(&self, rng: &mut StdRng) -> (sample: Result<
        CompoundState,
        StateSamplingError,
    >)
        ensures
            sample matches Ok(s) ==> s@.len() == self.parts@.len(),
            parts_are_hollow(self.parts@) ==> sample is Ok,
    {
        sample_parts(self, rng)
    }

    fn get_maximum_extent(&self) -> (extent: Length) {
        extent_of_parts(self)
    }

    fn get_longest_valid_segment_length(&self) -> (longest: Length) {
        at_least_one(fraction_of(extent_of_parts(self), self.segment_fraction))
    }
}

/// The distance in a part is the same in both directions.
pub proof fn lemma_part_distance_is_symmetric<
    RV: StateSpace<StateType = RealVectorState>,
    C: StateSpace<StateType = SO2State>,
    R: StateSpace<StateType = SO3State>,
>(space: SubSpace<RV, C, R>, a: StateModel, b: StateModel)
    ensures
        part_distance(space, a, b) == part_distance(space, b, a),
    decreases space, 0nat,
{
    match space {
        SubSpace::RealVector(s) => {
            if a is RealVector && b is RealVector {
                s.lemma_distance_is_symmetric(a->RealVector_0, b->RealVector_0);
            }
        },
        SubSpace::SO2(s) => {
            if a is SO2 && b is SO2 {
                s.lemma_distance_is_symmetric(a->SO2_0, b->SO2_0);
            }
        },
        SubSpace::SO3(s) => {
            if a is SO3 && b is SO3 {
                s.lemma_distance_is_symmetric(a->SO3_0, b->SO3_0);
            }
        },
        SubSpace::SE2(s) => {
            if a is SE2 && b is SE2 {
                s.translation.lemma_distance_is_symmetric(
                    a->SE2_0.translation,
                    b->SE2_0.translation,
                );
                s.rotation.lemma_distance_is_symmetric(a->SE2_0.rotation, b->SE2_0.rotation);
            }
        },
        SubSpace::SE3(s) => {
            if a is SE3 && b is SE3 {
                s.translation.lemma_distance_is_symmetric(
                    a->SE3_0.translation,
                    b->SE3_0.translation,
                );
                s.rotation.lemma_distance_is_symmetric(a->SE3_0.rotation, b->SE3_0.rotation);
            }
        },
        SubSpace::Compound(s) => {
            if a is Compound && b is Compound {
                lemma_parts_distance_is_symmetric(s.parts@, a->Compound_0, b->Compound_0);
            }
        },
    }
}

/// The weighted distances in the first `upto` parts are the same in both
/// directions.
pub proof fn lemma_terms_are_symmetric<
    RV: StateSpace<StateType = RealVectorState>,
    C: StateSpace<StateType = SO2State>,
    R: StateSpace<StateType = SO3State>,
>(parts: Seq<Part<RV, C, R>>, a: Seq<StateModel>, b: Seq<StateModel>, upto: nat)
    requires
        upto <= parts.len(),
    ensures
        distance_terms(parts, a, b, upto) == distance_terms(parts, b, a, upto),
    decreases parts, upto,
{
    if upto > 0 {
        lemma_terms_are_symmetric(parts, a, b, (upto - 1) as nat);
        lemma_part_distance_is_symmetric(parts[upto - 1].space, a[upto - 1], b[upto - 1]);
    }
}

/// The distance in a compound space is the same in both directions.
pub proof fn lemma_parts_distance_is_symmetric<
    RV: StateSpace<StateType = RealVectorState>,
    C: StateSpace<StateType = SO2State>,
    R: StateSpace<StateType = SO3State>,
>(parts: Seq<Part<RV, C, R>>, a: Seq<StateModel>, b: Seq<StateModel>)
    ensures
        parts_distance(parts, a, b) == parts_distance(parts, b, a),
    decreases parts, parts.len() + 1,
{
    lemma_terms_are_symmetric(parts, a, b, parts.len());
}

/// Where interpolation in every part ends at the second point when taken
/// all the way, so does interpolation in the compound space; and where it
/// starts at the first point, so does interpolation in the compound space.
pub proof fn lemma_interpolation_ends<
    RV: StateSpace<StateType = RealVectorState>,
    C: StateSpace<StateType = SO2State>,
    R: StateSpace<StateType = SO3State>,
>(
    parts: Seq<Part<RV, C, R>>,
    a: Seq<StateModel>,
    b: Seq<StateModel>,
    zero: Fraction,
    one: Fraction,
)
    requires
        a.len() == parts.len(),
        b.len() == parts.len(),
        forall|j: int|
            0 <= j < parts.len() ==> part_interpolate((#[trigger] parts[j]).space, a[j], b[j], zero)
                == a[j],
        forall|j: int|
            0 <= j < parts.len() ==> part_interpolate((#[trigger] parts[j]).space, a[j], b[j], one)
                == b[j],
    ensures
        parts_interpolate(parts, a, b, zero) == a,
        parts_interpolate(parts, a, b, one) == b,
{
    let n = parts.len();
    lemma_interpolated_len(parts, a, b, zero, n);
    lemma_interpolated_len(parts, a, b, one, n);
    assert forall|j: int| 0 <= j < n implies interpolated_upto(parts, a, b, zero, n)[j] == a[j] by {
        lemma_interpolated_index(parts, a, b, zero, n, j);
        assert(part_interpolate(parts[j].space, a[j], b[j], zero) == a[j]);
    }
    assert forall|j: int| 0 <= j < n implies interpolated_upto(parts, a, b, one, n)[j] == b[j] by {
        lemma_interpolated_index(parts, a, b, one, n, j);
        assert(part_interpolate(parts[j].space, a[j], b[j], one) == b[j]);
    }
    assert(interpolated_upto(parts, a, b, zero, n) =~= a);
    assert(interpolated_upto(parts, a, b, one, n) =~= b);
}

/// Enforcing the bounds of a compound space leaves as it is every point that
/// its own part leaves as it is, whatever happens to the others.
pub proof fn lemma_settled_part_stays<
    RV: StateSpace<StateType = RealVectorState>,
    C: StateSpace<StateType = SO2State>,
    R: StateSpace<StateType = SO3State>,
>(space: &CompoundStateSpace<RV, C, R>, state: Seq<StateModel>, index: int)
    requires
        0 <= index < space.parts@.len(),
        index < state.len(),
        part_enforce(space.parts@[index].space, state[index]) == state[index],
    ensures
        space.spec_enforce_bounds(state).len() == space.parts@.len(),
        space.spec_enforce_bounds(state)[index] == state[index],
{
    lemma_enforced_index(space.parts@, state, space.parts@.len(), index);
}

/// Enforcing the bounds of a compound space yields a state within them, and
/// enforcing them again changes nothing, whenever that holds in every part.
pub proof fn lemma_enforcing_bounds_settles<
    RV: StateSpace<StateType = RealVectorState>,
    C: StateSpace<StateType = SO2State>,
    R: StateSpace<StateType = SO3State>,
>(parts: Seq<Part<RV, C, R>>, state: Seq<StateModel>)
    requires
        forall|j: int|
            0 <= j < parts.len() ==> {
                let moved = part_enforce((#[trigger] parts[j]).space, point_or_blank(state, j));
                &&& part_satisfies_bounds(parts[j].space, moved)
                &&& part_enforce(parts[j].space, moved) == moved
            },
    ensures
        parts_satisfy_bounds(parts, parts_enforce(parts, state)),
        parts_enforce(parts, parts_enforce(parts, state)) == parts_enforce(parts, state),
{
    let n = parts.len();
    let moved = parts_enforce(parts, state);
    lemma_enforced_len(parts, state, n);
    assert forall|j: int| 0 <= j < n implies part_satisfies_bounds(
        (#[trigger] parts[j]).space,
        moved[j],
    ) by {
        lemma_enforced_index(parts, state, n, j);
    }
    lemma_satisfied_by_each(parts, moved, n);
    assert forall|j: int| 0 <= j < n implies part_enforce((#[trigger] parts[j]).space, moved[j])
        == moved[j] by {
        lemma_enforced_index(parts, state, n, j);
    }
    lemma_settled_by_each(parts, moved);
}

} // verus!
