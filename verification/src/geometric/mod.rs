//! Geometric planners: they search for a path of states, without dynamics.

pub mod motion;
pub mod prm;
pub mod roadmap;
pub mod rrt;
pub mod rrt_connect;
pub mod rrt_star;
pub mod sampling;
pub mod shortest_path;
pub mod star_tree;
pub mod tree;
