//! Heuristics and distance orderings for A*-style routing in delay-tolerant
//! networks, with their contracts proved by Verus.
pub mod types;
pub mod route_stage;
pub mod multigraph;
pub mod pathfinding;
pub mod distance;
pub mod heuristic;
