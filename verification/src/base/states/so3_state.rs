//! States of the rotation group.

use vstd::prelude::*;
use crate::base::scalar::{get_or, spec_get_or, Scalar};
use crate::base::state::{DynClone, State};

verus! {

/// A rotation in space: the four coordinates of a quaternion, kept as given.
#[derive(Clone, Copy, Debug, PartialEq, Eq, Structural)]
pub struct SO3State {
    pub x: Scalar,
    pub y: Scalar,
    pub z: Scalar,
    pub w: Scalar,
}

impl View for SO3State {
    type V = SO3State;

    open spec fn view(&self) -> SO3State {
        *self
    }
}

impl SO3State {
    pub fn new(x: Scalar, y: Scalar, z: Scalar, w: Scalar) -> (s: SO3State)
        ensures
            s == (SO3State { x, y, z, w }),
    {
        SO3State { x, y, z, w }
    }

    pub open spec fn spec_identity() -> SO3State {
        SO3State {
            x: Scalar::spec_zero(),
            y: Scalar::spec_zero(),
            z: Scalar::spec_zero(),
            w: Scalar::spec_one(),
        }
    }

    /// The rotation that turns nothing: (0, 0, 0, 1).
    pub fn identity() -> (s: SO3State)
        ensures
            s == SO3State::spec_identity(),
    {
        SO3State { x: Scalar::zero(), y: Scalar::zero(), z: Scalar::zero(), w: Scalar::one() }
    }

    /// The coordinates in the order x, y, z, w.
    pub open spec fn spec_to_array(self) -> Seq<Scalar> {
        seq![self.x, self.y, self.z, self.w]
    }

    /// The state that a list of coordinates stands for: x, y, z and w in
    /// that order, with zero for a missing x, y or z and one for a missing w.
    pub open spec fn spec_from_array(values: Seq<Scalar>) -> SO3State {
        SO3State {
            x: spec_get_or(values, 0, Scalar::spec_zero()),
            y: spec_get_or(values, 1, Scalar::spec_zero()),
            z: spec_get_or(values, 2, Scalar::spec_zero()),
            w: spec_get_or(values, 3, Scalar::spec_one()),
        }
    }

    pub fn to_array(&self) -> (values: Vec<Scalar>)
        ensures
            values@ == self.spec_to_array(),
    {
        let mut values: Vec<Scalar> = Vec::new();
        values.push(self.x);
        values.push(self.y);
        values.push(self.z);
        values.push(self.w);
        assert(values@ =~= self.spec_to_array());
        values
    }

    pub fn from_array(values: &Vec<Scalar>) -> (s: SO3State)
        ensures
            s == SO3State::spec_from_array(values@),
    {
        SO3State {
            x: get_or(values, 0, Scalar::zero()),
            y: get_or(values, 1, Scalar::zero()),
            z: get_or(values, 2, Scalar::zero()),
            w: get_or(values, 3, Scalar::one()),
        }
    }
}

impl DynClone for SO3State {
    fn clone_box(&self) -> (copy: Box<SO3State>) {
        Box::new(SO3State { x: self.x, y: self.y, z: self.z, w: self.w })
    }
}

impl State for SO3State {

}

/// Turning a state into its array and the array back gives the state again.
pub proof fn lemma_so3_state_array_round_trip(state: SO3State)
    ensures
        SO3State::spec_from_array(state.spec_to_array()) == state,
{
}

} // verus!
