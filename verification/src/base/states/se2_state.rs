//! Poses in the plane.

use vstd::prelude::*;
use crate::base::scalar::{get_or, spec_get_or, Scalar};
use crate::base::state::{DynClone, State};
use crate::base::states::real_vector_state::RealVectorState;
use crate::base::states::so2_state::SO2State;

verus! {

/// A pose in the plane: a position and a heading.
#[derive(Debug)]
pub struct SE2State {
    pub translation: RealVectorState,
    pub rotation: SO2State,
}

/// The point that a pose in the plane stands for.
pub struct SE2Model {
    pub translation: Seq<Scalar>,
    pub rotation: Scalar,
}

impl View for SE2State {
    type V = SE2Model;

    open spec fn view(&self) -> SE2Model {
        SE2Model { translation: self.translation@, rotation: self.rotation@ }
    }
}

impl SE2Model {
    /// The pose at the position (`x`, `y`) with the heading `yaw`.
    pub open spec fn at(x: Scalar, y: Scalar, yaw: Scalar) -> SE2Model {
        SE2Model { translation: seq![x, y], rotation: yaw }
    }

    /// The first coordinate of the position, or zero where there is none.
    pub open spec fn x(self) -> Scalar {
        spec_get_or(self.translation, 0, Scalar::spec_zero())
    }

    /// The second coordinate of the position, or zero where there is none.
    pub open spec fn y(self) -> Scalar {
        spec_get_or(self.translation, 1, Scalar::spec_zero())
    }

    /// The coordinates in the order x, y, yaw.
    pub open spec fn to_array(self) -> Seq<Scalar> {
        seq![self.x(), self.y(), self.rotation]
    }

    /// The pose that a list of coordinates stands for: x, y and yaw in that
    /// order, with zero for each that is missing.
    pub open spec fn from_array(values: Seq<Scalar>) -> SE2Model {
        SE2Model::at(
            spec_get_or(values, 0, Scalar::spec_zero()),
            spec_get_or(values, 1, Scalar::spec_zero()),
            spec_get_or(values, 2, Scalar::spec_zero()),
        )
    }
}

impl SE2State {
    /// The pose at the position (`x`, `y`) with the heading `yaw`.
    pub fn new(x: Scalar, y: Scalar, yaw: Scalar) -> (s: SE2State)
        ensures
            s@ == SE2Model::at(x, y, yaw),
    {
        let mut values: Vec<Scalar> = Vec::new();
        values.push(x);
        values.push(y);
        assert(values@ =~= seq![x, y]);
        SE2State { translation: RealVectorState { values }, rotation: SO2State { value: yaw } }
    }

    pub fn get_x(&self) -> (x: Scalar)
        ensures
            x == self@.x(),
    {
        get_or(&self.translation.values, 0, Scalar::zero())
    }

    pub fn get_y(&self) -> (y: Scalar)
        ensures
            y == self@.y(),
    {
        get_or(&self.translation.values, 1, Scalar::zero())
    }

    pub fn get_yaw(&self) -> (yaw: Scalar)
        ensures
            yaw == self@.rotation,
    {
        self.rotation.value
    }

    /// The position, as a state of the plane.
    pub fn get_translation(&self) -> (t: &RealVectorState)
        ensures
            t@ == self@.translation,
    {
        &self.translation
    }

    /// The heading, as a state of the circle.
    pub fn get_rotation(&self) -> (r: &SO2State)
        ensures
            r@ == self@.rotation,
    {
        &self.rotation
    }

    /// The coordinates in the order x, y, yaw.
    pub fn to_array(&self) -> (values: Vec<Scalar>)
        ensures
            values@ == self@.to_array(),
    {
        let mut values: Vec<Scalar> = Vec::new();
        values.push(self.get_x());
        values.push(self.get_y());
        values.push(self.rotation.value);
        assert(values@ =~= self@.to_array());
        values
    }

    /// The pose that a list of coordinates stands for.
    pub fn from_array(values: &Vec<Scalar>) -> (s: SE2State)
        ensures
            s@ == SE2Model::from_array(values@),
    {
        SE2State::new(
            get_or(values, 0, Scalar::zero()),
            get_or(values, 1, Scalar::zero()),
            get_or(values, 2, Scalar::zero()),
        )
    }
}

impl DynClone for SE2State {
    fn clone_box(&self) -> (copy: Box<SE2State>) {
        Box::new(SE2State { translation: *self.translation.clone_box(), rotation: self.rotation })
    }
}

impl State for SE2State {

}

/// Turning a pose with a position of two coordinates into its array and the
/// array back gives the pose again.
pub proof fn lemma_se2_state_array_round_trip(state: SE2Model)
    requires
        state.translation.len() == 2,
    ensures
        SE2Model::from_array(state.to_array()) == state,
{
    assert(SE2Model::from_array(state.to_array()).translation =~= state.translation);
}

} // verus!
