//! A stage of a route under construction: the node reached and the cost
//! metrics accumulated on the way there.
use vstd::prelude::*;
use crate::types::{Date, GeographicalDistance, HopCount, NodeID};

verus! {

/// One stage of a route: the route reaches `to_node` at `at_time` after
/// `hop_count` hops, and must leave before `expiration`.
#[derive(Clone, Copy, Debug, PartialEq, Eq)]
pub struct RouteStage {
    /// The node reached by this stage.
    pub to_node: NodeID,
    /// The arrival time at `to_node`.
    pub at_time: Date,
    /// The number of hops taken so far.
    pub hop_count: HopCount,
    /// The latest time at which the route can still be used.
    pub expiration: Date,
    /// The predicted arrival time at the destination.
    pub at_time_heuristic: Date,
    /// The predicted number of hops to the destination.
    pub hop_count_heuristic: HopCount,
    /// The geographical distance covered so far.
    pub cumulative_distance: GeographicalDistance,
    /// The start time of the contact through which `to_node` was reached, if any.
    pub via_contact_start: Option<Date>,
}

} // verus!
