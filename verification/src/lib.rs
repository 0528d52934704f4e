//! Sampling-based motion planning.
//!
//! Given a configuration space, an oracle that tells valid states from
//! invalid ones, a start state and a goal, a planner looks for a path of
//! valid states from the start to the goal.
//!
//! The library holds what is discrete in that work and proves it: the
//! planners' trees and roadmaps, nearest-neighbour and parent selection,
//! rewiring, shortest routes, motion validation, the layout of states, and
//! the spaces that are put together from other spaces. The geometry of the
//! simple spaces comes from outside, through the `StateSpace` trait: a space
//! hands out distances as whole numbers of a unit of its choice and takes
//! interpolation parameters as ratios, so that planners and composite spaces
//! compare, add and combine lengths exactly. Coordinates are carried as
//! 64-bit patterns and never computed with.
//!
//! `base` holds states, spaces, goals, the validity oracle and the problem
//! definition; `geometric` holds the planners RRT, RRT-Connect, RRT* and PRM
//! and the structures they are built from.

use vstd::prelude::*;

pub mod base;
pub mod geometric;
