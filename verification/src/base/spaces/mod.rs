//! Spaces put together from other spaces.

pub mod compound_state_space;
pub mod se2_state_space;
pub mod se3_state_space;
