//! Orderings of route stages used to pick the next stage to expand.
pub mod geographical_distance;
pub mod heuristic_sabr;
