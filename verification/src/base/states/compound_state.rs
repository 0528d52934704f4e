//! States made of other states.

use vstd::prelude::*;
use crate::base::scalar::Scalar;
use crate::base::state::{DynClone, State};
use crate::base::states::real_vector_state::RealVectorState;
use crate::base::states::se2_state::{SE2Model, SE2State};
use crate::base::states::se3_state::{SE3Model, SE3State};
use crate::base::states::so2_state::SO2State;
use crate::base::states::so3_state::SO3State;

verus! {

/// A state of any family.
pub enum StateValue {
    RealVector(RealVectorState),
    SO2(SO2State),
    SO3(SO3State),
    SE2(SE2State),
    SE3(SE3State),
    Compound(CompoundState),
}

/// An ordered list of states of any families, compound ones among them.
pub struct CompoundState {
    pub components: Vec<StateValue>,
}

/// The point that a state of any family stands for.
pub enum StateModel {
    RealVector(Seq<Scalar>),
    SO2(Scalar),
    SO3(SO3State),
    SE2(SE2Model),
    SE3(SE3Model),
    Compound(Seq<StateModel>),
}

/// The point that `value` stands for.
pub open spec fn value_model(value: StateValue) -> StateModel
    decreases value, 0nat,
{
    match value {
        StateValue::RealVector(s) => StateModel::RealVector(s@),
        StateValue::SO2(s) => StateModel::SO2(s@),
        StateValue::SO3(s) => StateModel::SO3(s),
        StateValue::SE2(s) => StateModel::SE2(s@),
        StateValue::SE3(s) => StateModel::SE3(s@),
        StateValue::Compound(c) => StateModel::Compound(
            components_model(c, c.components@.len()),
        ),
    }
}

/// The points that the first `upto` components of `state` stand for.
pub open spec fn components_model(state: CompoundState, upto: nat) -> Seq<StateModel>
    decreases state, upto,
{
    if upto == 0 || upto > state.components@.len() {
        Seq::empty()
    } else {
        components_model(state, (upto - 1) as nat).push(
            value_model(state.components@[upto - 1]),
        )
    }
}

/// The coordinates of `value`, in order, those of a compound state being
/// the coordinates of its components one after another.
pub open spec fn value_flat(value: StateValue) -> Seq<Scalar>
    decreases value, 0nat,
{
    match value {
        StateValue::RealVector(s) => s@,
        StateValue::SO2(s) => seq![s@],
        StateValue::SO3(s) => s.spec_to_array(),
        StateValue::SE2(s) => s@.to_array(),
        StateValue::SE3(s) => s@.to_array(),
        StateValue::Compound(c) => components_flat(c, c.components@.len()),
    }
}

/// The coordinates of the first `upto` components of `state`, one component
/// after another.
pub open spec fn components_flat(state: CompoundState, upto: nat) -> Seq<Scalar>
    decreases state, upto,
{
    if upto == 0 || upto > state.components@.len() {
        Seq::empty()
    } else {
        components_flat(state, (upto - 1) as nat) + value_flat(state.components@[upto - 1])
    }
}

impl View for StateValue {
    type V = StateModel;

    open spec fn view(&self) -> StateModel {
        value_model(*self)
    }
}

impl View for CompoundState {
    type V = Seq<StateModel>;

    open spec fn view(&self) -> Seq<StateModel> {
        components_model(*self, self.components@.len())
    }
}

/// The model of a compound state lists the models of its components.
pub proof fn lemma_components_model(state: CompoundState, upto: nat)
    requires
        upto <= state.components@.len(),
    ensures
        components_model(state, upto).len() == upto,
        forall|i: int|
            0 <= i < upto ==> #[trigger] components_model(state, upto)[i] == value_model(
                state.components@[i],
            ),
    decreases upto,
{
    if upto > 0 {
        lemma_components_model(state, (upto - 1) as nat);
    }
}

/// Appends the coordinates of `value` to `out`.
pub fn flatten_into(value: &StateValue, out: &mut Vec<Scalar>)
    ensures
        final(out)@ == old(out)@ + value_flat(*value),
    decreases *value,
{
    match value {
        StateValue::RealVector(s) => {
            let mut i: usize = 0;
            while i < s.values.len()
                invariant
                    i <= s.values@.len(),
                    out@ == old(out)@ + s.values@.subrange(0, i as int),
                decreases s.values@.len() - i,
            {
                out.push(s.values[i]);
                i = i + 1;
                assert(out@ =~= old(out)@ + s.values@.subrange(0, i as int));
            }
            assert(s.values@.subrange(0, s.values@.len() as int) =~= s.values@);
        },
        StateValue::SO2(s) => {
            out.push(s.value);
            assert(out@ =~= old(out)@ + seq![s@]);
        },
        StateValue::SO3(s) => {
            out.push(s.x);
            out.push(s.y);
            out.push(s.z);
            out.push(s.w);
            assert(out@ =~= old(out)@ + s.spec_to_array());
        },
        StateValue::SE2(s) => {
            out.push(s.get_x());
            out.push(s.get_y());
            out.push(s.get_yaw());
            assert(out@ =~= old(out)@ + s@.to_array());
        },
        StateValue::SE3(s) => {
            out.push(s.get_x());
            out.push(s.get_y());
            out.push(s.get_z());
            out.push(s.rotation.x);
            out.push(s.rotation.y);
            out.push(s.rotation.z);
            out.push(s.rotation.w);
            assert(out@ =~= old(out)@ + s@.to_array());
        },
        StateValue::Compound(c) => {
            assert(decreases_to!(*value => *c));
            let mut i: usize = 0;
            while i < c.components.len()
                invariant
                    i <= c.components@.len(),
                    *value == StateValue::Compound(*c),
                    decreases_to!(*value => *c),
                    out@ == old(out)@ + components_flat(*c, i as nat),
                decreases c.components@.len() - i,
            {
                proof {
                    assert(decreases_to!(*c => c.components));
                    assert(decreases_to!(c.components => c.components[i as int]));
                }
                flatten_into(&c.components[i], out);
                i = i + 1;
                assert(out@ =~= old(out)@ + components_flat(*c, i as nat));
            }
        },
    }
}

/// Copies a state of any family.
pub fn clone_value(value: &StateValue) -> (copy: StateValue)
    ensures
        copy@ == value@,
    decreases *value,
{
    match value {
        StateValue::RealVector(s) => StateValue::RealVector(*s.clone_box()),
        StateValue::SO2(s) => StateValue::SO2(*s),
        StateValue::SO3(s) => StateValue::SO3(*s),
        StateValue::SE2(s) => StateValue::SE2(*s.clone_box()),
        StateValue::SE3(s) => StateValue::SE3(*s.clone_box()),
        StateValue::Compound(c) => {
            assert(decreases_to!(*value => *c));
            let mut components: Vec<StateValue> = Vec::new();
            let mut i: usize = 0;
            while i < c.components.len()
                invariant
                    i <= c.components@.len(),
                    *value == StateValue::Compound(*c),
                    decreases_to!(*value => *c),
                    components@.len() == i,
                    forall|j: int|
                        0 <= j < i ==> (#[trigger] components@[j])@ == c.components@[j]@,
                decreases c.components@.len() - i,
            {
                proof {
                    assert(decreases_to!(*c => c.components));
                    assert(decreases_to!(c.components => c.components[i as int]));
                }
                components.push(clone_value(&c.components[i]));
                i = i + 1;
            }
            let copy = CompoundState { components };
            proof {
                lemma_components_model(copy, copy.components@.len());
                lemma_components_model(*c, c.components@.len());
                assert(copy@ =~= c@);
            }
            StateValue::Compound(copy)
        },
    }
}

impl DynClone for StateValue {
    fn clone_box(&self) -> (copy: Box<StateValue>) {
        Box::new(clone_value(self))
    }
}

impl State for StateValue {

}

impl CompoundState {
    pub fn new(components: Vec<StateValue>) -> (state: CompoundState)
        ensures
            state.components == components,
    {
        CompoundState { components }
    }

    /// The number of components.
    pub fn component_count(&self) -> (n: usize)
        ensures
            n == self.components@.len(),
            n == self@.len(),
    {
        proof {
            lemma_components_model(*self, self.components@.len());
        }
        self.components.len()
    }

    /// The component at `index`, or nothing where there are not that many.
    pub fn get_component(&self, index: usize) -> (component: Option<&StateValue>)
        ensures
            component is Some <==> index < self.components@.len(),
            component matches Some(c) ==> *c == self.components@[index as int] && c@
                == self@[index as int],
    {
        if index < self.components.len() {
            proof {
                lemma_components_model(*self, self.components@.len());
            }
            Some(&self.components[index])
        } else {
            None
        }
    }

    /// The coordinates of all components, one component after another.
    pub open spec fn spec_to_array(self) -> Seq<Scalar> {
        components_flat(self, self.components@.len())
    }

    pub fn to_array(&self) -> (values: Vec<Scalar>)
        ensures
            values@ == self.spec_to_array(),
    {
        let mut values: Vec<Scalar> = Vec::new();
        let mut i: usize = 0;
        while i < self.components.len()
            invariant
                i <= self.components@.len(),
                values@ == components_flat(*self, i as nat),
            decreases self.components@.len() - i,
        {
            flatten_into(&self.components[i], &mut values);
            i = i + 1;
        }
        values
    }
}

impl DynClone for CompoundState {
    fn clone_box(&self) -> (copy: Box<CompoundState>) {
        let mut components: Vec<StateValue> = Vec::new();
        let mut i: usize = 0;
        while i < self.components.len()
            invariant
                i <= self.components@.len(),
                components@.len() == i,
                forall|j: int|
                    0 <= j < i ==> (#[trigger] components@[j])@ == self.components@[j]@,
            decreases self.components@.len() - i,
        {
            components.push(clone_value(&self.components[i]));
            i = i + 1;
        }
        let copy = CompoundState { components };
        proof {
            lemma_components_model(copy, copy.components@.len());
            lemma_components_model(*self, self.components@.len());
            assert(copy@ =~= self@);
        }
        Box::new(copy)
    }
}

impl State for CompoundState {

}

/// Collects the components of a compound state one by one.
pub struct CompoundStateBuilder {
    components: Vec<StateValue>,
}

impl CompoundStateBuilder {
    /// The components added so far.
    pub closed spec fn spec_components(&self) -> Seq<StateValue> {
        self.components@
    }

    /// A builder without components.
    pub fn new() -> (builder: CompoundStateBuilder)
        ensures
            builder.spec_components().len() == 0,
    {
        CompoundStateBuilder { components: Vec::new() }
    }

    /// Adds a component of any family.
    pub fn add(&mut self, component: StateValue)
        ensures
            final(self).spec_components() == old(self).spec_components().push(component),
    {
        self.components.push(component);
    }

    pub fn add_real_vector_state(&mut self, state: &RealVectorState)
        ensures
            final(self).spec_components().len() == old(self).spec_components().len() + 1,
            final(self).spec_components().drop_last() == old(self).spec_components(),
            final(self).spec_components().last()@ == StateModel::RealVector(state@),
    {
        self.components.push(StateValue::RealVector(*state.clone_box()));
        assert(self.components@.drop_last() =~= old(self).components@);
    }

    pub fn add_so2_state(&mut self, state: &SO2State)
        ensures
            final(self).spec_components() == old(self).spec_components().push(
                StateValue::SO2(*state),
            ),
    {
        self.components.push(StateValue::SO2(*state));
    }

    pub fn add_so3_state(&mut self, state: &SO3State)
        ensures
            final(self).spec_components() == old(self).spec_components().push(
                StateValue::SO3(*state),
            ),
    {
        self.components.push(StateValue::SO3(*state));
    }

    pub fn add_se2_state(&mut self, state: &SE2State)
        ensures
            final(self).spec_components().len() == old(self).spec_components().len() + 1,
            final(self).spec_components().drop_last() == old(self).spec_components(),
            final(self).spec_components().last()@ == StateModel::SE2(state@),
    {
        self.components.push(StateValue::SE2(*state.clone_box()));
        assert(self.components@.drop_last() =~= old(self).components@);
    }

    pub fn add_se3_state(&mut self, state: &SE3State)
        ensures
            final(self).spec_components().len() == old(self).spec_components().len() + 1,
            final(self).spec_components().drop_last() == old(self).spec_components(),
            final(self).spec_components().last()@ == StateModel::SE3(state@),
    {
        self.components.push(StateValue::SE3(*state.clone_box()));
        assert(self.components@.drop_last() =~= old(self).components@);
    }

    pub fn add_compound_state(&mut self, state: &CompoundState)
        ensures
            final(self).spec_components().len() == old(self).spec_components().len() + 1,
            final(self).spec_components().drop_last() == old(self).spec_components(),
            final(self).spec_components().last()@ == StateModel::Compound(state@),
    {
        self.components.push(StateValue::Compound(*state.clone_box()));
        assert(self.components@.drop_last() =~= old(self).components@);
    }

    /// The compound state of the components added, in the order of adding.
    pub fn build(self) -> (state: CompoundState)
        ensures
            state.components@ == self.spec_components(),
    {
        CompoundState { components: self.components }
    }
}

} // verus!
