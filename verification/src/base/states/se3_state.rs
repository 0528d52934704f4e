//! Poses in space.

use vstd::prelude::*;
use crate::base::scalar::{get_or, spec_get_or, Scalar};
use crate::base::state::{DynClone, State};
use crate::base::states::real_vector_state::RealVectorState;
use crate::base::states::so3_state::SO3State;

verus! {

/// A pose in space: a position and a rotation.
#[derive(Debug)]
pub struct SE3State {
    pub translation: RealVectorState,
    pub rotation: SO3State,
}

/// The point that a pose in space stands for.
pub struct SE3Model {
    pub translation: Seq<Scalar>,
    pub rotation: SO3State,
}

impl View for SE3State {
    type V = SE3Model;

    open spec fn view(&self) -> SE3Model {
        SE3Model { translation: self.translation@, rotation: self.rotation }
    }
}

impl SE3Model {
    /// The pose at the position (`x`, `y`, `z`) with the rotation `rotation`.
    pub open spec fn at(x: Scalar, y: Scalar, z: Scalar, rotation: SO3State) -> SE3Model {
        SE3Model { translation: seq![x, y, z], rotation }
    }

    /// The first coordinate of the position, or zero where there is none.
    pub open spec fn x(self) -> Scalar {
        spec_get_or(self.translation, 0, Scalar::spec_zero())
    }

    /// The second coordinate of the position, or zero where there is none.
    pub open spec fn y(self) -> Scalar {
        spec_get_or(self.translation, 1, Scalar::spec_zero())
    }

    /// The third coordinate of the position, or zero where there is none.
    pub open spec fn z(self) -> Scalar {
        spec_get_or(self.translation, 2, Scalar::spec_zero())
    }

    /// The coordinates in the order x, y, z, then the rotation's x, y, z, w.
    pub open spec fn to_array(self) -> Seq<Scalar> {
        seq![
            self.x(),
            self.y(),
            self.z(),
            self.rotation.x,
            self.rotation.y,
            self.rotation.z,
            self.rotation.w,
        ]
    }

    /// The pose that a list of coordinates stands for: the position, then
    /// the rotation, with zero for each coordinate that is missing, but one
    /// for a missing w.
    pub open spec fn from_array(values: Seq<Scalar>) -> SE3Model {
        SE3Model::at(
            spec_get_or(values, 0, Scalar::spec_zero()),
            spec_get_or(values, 1, Scalar::spec_zero()),
            spec_get_or(values, 2, Scalar::spec_zero()),
            SO3State {
                x: spec_get_or(values, 3, Scalar::spec_zero()),
                y: spec_get_or(values, 4, Scalar::spec_zero()),
                z: spec_get_or(values, 5, Scalar::spec_zero()),
                w: spec_get_or(values, 6, Scalar::spec_one()),
            },
        )
    }
}

impl SE3State {
    /// The pose at the position (`x`, `y`, `z`) with the rotation `rotation`.
    pub fn new(x: Scalar, y: Scalar, z: Scalar, rotation: SO3State) -> (s: SE3State)
        ensures
            s@ == SE3Model::at(x, y, z, rotation),
    {
        let mut values: Vec<Scalar> = Vec::new();
        values.push(x);
        values.push(y);
        values.push(z);
        assert(values@ =~= seq![x, y, z]);
        SE3State { translation: RealVectorState { values }, rotation }
    }

    pub fn get_x(&self) -> (x: Scalar)
        ensures
            x == self@.x(),
    {
        get_or(&self.translation.values, 0, Scalar::zero())
    }

    pub fn get_y(&self) -> (y: Scalar)
        ensures
            y == self@.y(),
    {
        get_or(&self.translation.values, 1, Scalar::zero())
    }

    pub fn get_z(&self) -> (z: Scalar)
        ensures
            z == self@.z(),
    {
        get_or(&self.translation.values, 2, Scalar::zero())
    }

    /// The position, as a state of three-dimensional space.
    pub fn get_translation(&self) -> (t: &RealVectorState)
        ensures
            t@ == self@.translation,
    {
        &self.translation
    }

    pub fn get_rotation(&self) -> (r: &SO3State)
        ensures
            *r == self@.rotation,
    {
        &self.rotation
    }

    /// The coordinates in the order x, y, z, then the rotation's x, y, z, w.
    pub fn to_array(&self) -> (values: Vec<Scalar>)
        ensures
            values@ == self@.to_array(),
    {
        let mut values: Vec<Scalar> = Vec::new();
        values.push(self.get_x());
        values.push(self.get_y());
        values.push(self.get_z());
        values.push(self.rotation.x);
        values.push(self.rotation.y);
        values.push(self.rotation.z);
        values.push(self.rotation.w);
        assert(values@ =~= self@.to_array());
        values
    }

    /// The pose that a list of coordinates stands for.
    pub fn from_array(values: &Vec<Scalar>) -> (s: SE3State)
        ensures
            s@ == SE3Model::from_array(values@),
    {
        let rotation = SO3State {
            x: get_or(values, 3, Scalar::zero()),
            y: get_or(values, 4, Scalar::zero()),
            z: get_or(values, 5, Scalar::zero()),
            w: get_or(values, 6, Scalar::one()),
        };
        SE3State::new(
            get_or(values, 0, Scalar::zero()),
            get_or(values, 1, Scalar::zero()),
            get_or(values, 2, Scalar::zero()),
            rotation,
        )
    }
}

impl DynClone for SE3State {
    fn clone_box(&self) -> (copy: Box<SE3State>) {
        Box::new(SE3State { translation: *self.translation.clone_box(), rotation: self.rotation })
    }
}

impl State for SE3State {

}

/// Turning a pose with a position of three coordinates into its array and
/// the array back gives the pose again.
pub proof fn lemma_se3_state_array_round_trip(state: SE3Model)
    requires
        state.translation.len() == 3,
    ensures
        SE3Model::from_array(state.to_array()) == state,
{
    assert(SE3Model::from_array(state.to_array()).translation =~= state.translation);
}

} // verus!
