//! States, spaces, goals and the other pieces that planners are built from.

pub mod bounds;
pub mod clock;
pub mod error;
pub mod goal;
pub mod measure;
pub mod planner;
pub mod problem_definition;
pub mod random;
pub mod scalar;
pub mod space;
pub mod spaces;
pub mod state;
pub mod states;
pub mod validity;
