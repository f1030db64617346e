//! Basic quantities shared by the whole library.
//!
//! Times, durations and geographical distances are integer quantities (ticks of
//! a fixed time unit, and a fixed length unit). The greatest value of each type
//! stands for "unknown" or "unreachable", and additions on these quantities
//! saturate at that value.
use vstd::prelude::*;

verus! {

/// Identifier of a node of the network.
pub type NodeID = u16;

/// A point in time.
pub type Date = u64;

/// A span of time.
pub type Duration = u64;

/// A number of hops.
pub type HopCount = u16;

/// A geographical distance.
pub type GeographicalDistance = u64;

/// A bundle to be routed: where it comes from, where it goes, and until when it lives.
pub struct Bundle {
    pub source: NodeID,
    pub destinations: Vec<NodeID>,
    pub expiration: Date,
}

} // verus!
