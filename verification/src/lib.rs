//! A heuristic forward-search planning engine for robots that follow straight
//! line segments between the vertices of a graph, rotating in place at the
//! endpoints (an SE(2) line-follow motion model).
//!
//! All quantities are fixed-point integers: positions in nanometers, angles in
//! nanoradians, times and costs in nanoseconds of travel.

use vstd::prelude::*;

pub mod graph;
pub mod line_follow_se2;
pub mod motion;
pub mod planner;

pub use graph::Graph;
pub use line_follow_se2::{Expander, Goal, Node, Solution, Start};
pub use planner::{Planner, Progress, Status};

verus! {

} // verus!
