//! The concrete families of states.

pub mod compound_state;
pub mod real_vector_state;
pub mod se2_state;
pub mod se3_state;
pub mod so2_state;
pub mod so3_state;
