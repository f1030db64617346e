use vstd::prelude::*;
use std::collections::HashSet;
use crate::heuristic::{Heuristic, HeuristicDelayResult, HeuristicResult};
use crate::multigraph::Multigraph;
use crate::route_stage::RouteStage;
use crate::types::{Bundle, NodeID};

verus! {

/// The zero heuristic: it predicts no remaining cost at all, so that A*
/// behaves as Dijkstra's algorithm.
pub struct Zero {}

impl Heuristic for Zero {
    open spec fn inv(&self) -> bool {
        true
    }

    open spec fn aims_at(&self, target: NodeID) -> bool {
        true
    }

    open spec fn settled(&self, stage: RouteStage, graph: Multigraph, visited: Set<NodeID>) -> bool {
        true
    }

    open spec fn settled_delay(&self, tx: NodeID, graph: Multigraph, visited: Set<NodeID>) -> bool {
        true
    }

    open spec fn predicted(&self, stage: RouteStage, graph: Multigraph, visited: Set<NodeID>) -> HeuristicResult {
        HeuristicResult { at_time_heuristic: stage.at_time, hop_count_heuristic: stage.hop_count }
    }

    open spec fn predicted_delay(&self, tx: NodeID, graph: Multigraph, visited: Set<NodeID>) -> HeuristicDelayResult {
        HeuristicDelayResult { heuristic_delay: 0, heuristic_remaining_hop_count: 0 }
    }

    fn new() -> (h: Self) {
        Zero {  }
    }

    /// Predicts the stage's own arrival time and hop count.
    fn compute_heuristics(
        &mut self,
        route_stage: &RouteStage,
        _bundle: &Bundle,
        _multigraph: &Multigraph,
        _visited: &HashSet<NodeID>,
    ) -> (r: HeuristicResult)
        ensures
            r.at_time_heuristic == route_stage.at_time,
            r.hop_count_heuristic == route_stage.hop_count,
    {
        HeuristicResult {
            at_time_heuristic: route_stage.at_time,
            hop_count_heuristic: route_stage.hop_count,
        }
    }

    /// Predicts no remaining delay and no remaining hop.
    fn compute_delay_heuristic(
        &mut self,
        _tx_node: NodeID,
        _bundle: &Bundle,
        _multigraph: &Multigraph,
        _visited: &HashSet<NodeID>,
    ) -> (r: HeuristicDelayResult)
        ensures
            r.heuristic_delay == 0,
            r.heuristic_remaining_hop_count == 0,
    {
        HeuristicDelayResult { heuristic_delay: 0, heuristic_remaining_hop_count: 0 }
    }

    /// Nothing to set up.
    fn setup(&mut self, _bundle: &Bundle) {
    }
}

} // verus!
