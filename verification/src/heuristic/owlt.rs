use vstd::prelude::*;
use std::collections::HashSet;
use crate::heuristic::{Heuristic, HeuristicDelayResult, HeuristicResult};
use crate::multigraph::Multigraph;
use crate::route_stage::RouteStage;
use crate::types::{Bundle, Date, Duration, HopCount, NodeID};

verus! {

/// The one-way-light-time heuristic: it predicts the arrival at the
/// destination after the minimal delay between the stage's node and the
/// destination, and one more hop unless the destination is reached.
pub struct Owlt {
    target: NodeID,
}

/// The arrival time predicted by the one-way-light-time heuristic.
pub open spec fn owlt_at_time(stage: RouteStage, graph: Multigraph, target: NodeID) -> Date {
    stage.at_time.saturating_add(graph.minimal_delay(stage.to_node, target))
}

/// The hop count predicted by the one-way-light-time heuristic.
pub open spec fn owlt_hop_count(stage: RouteStage, target: NodeID) -> HopCount {
    stage.hop_count.saturating_add(if stage.to_node == target { 0 } else { 1 })
}

/// The remaining delay and hops predicted from `tx` by the one-way-light-time heuristic.
pub open spec fn owlt_delay(tx: NodeID, graph: Multigraph, target: NodeID) -> HeuristicDelayResult {
    HeuristicDelayResult {
        heuristic_delay: graph.minimal_delay(tx, target),
        heuristic_remaining_hop_count: if tx == target { 0 } else { 1 },
    }
}

/// The arrival predicted for a stage is its arrival plus the minimal delay
/// from the stage's node to the destination, as the delay table gives it for
/// that ordered pair (sender first, destination second), saturating; without a
/// table entry, the destination counts as unreachable. The predicted arrival
/// is the stage's arrival plus the predicted remaining delay from its node.
pub proof fn owlt_arrival_from_delay_table(stage: RouteStage, graph: Multigraph, target: NodeID)
    ensures
        (stage.to_node as int) < graph.minimal_delays@.len() && (target as int)
            < graph.minimal_delays@[stage.to_node as int]@.len() ==> owlt_at_time(stage, graph, target)
            == stage.at_time.saturating_add(graph.minimal_delays@[stage.to_node as int]@[target as int]),
        !((stage.to_node as int) < graph.minimal_delays@.len() && (target as int)
            < graph.minimal_delays@[stage.to_node as int]@.len()) ==> owlt_at_time(stage, graph, target)
            == Date::MAX,
        (stage.to_node as int) < graph.minimal_delays@.len() && (target as int)
            < graph.minimal_delays@[stage.to_node as int]@.len() ==> owlt_delay(stage.to_node, graph, target).heuristic_delay
            == graph.minimal_delays@[stage.to_node as int]@[target as int],
        owlt_at_time(stage, graph, target) == stage.at_time.saturating_add(
            owlt_delay(stage.to_node, graph, target).heuristic_delay,
        ),
        owlt_at_time(stage, graph, target) >= stage.at_time,
        stage.to_node == target ==> owlt_hop_count(stage, target) == stage.hop_count,
        stage.to_node != target ==> owlt_hop_count(stage, target) == stage.hop_count.saturating_add(1),
        owlt_delay(stage.to_node, graph, target).heuristic_remaining_hop_count == (if stage.to_node
            == target {
            0u16
        } else {
            1u16
        }),
{
}

impl Owlt {
    /// The destination the heuristic aims at.
    pub closed spec fn target(&self) -> NodeID {
        self.target
    }
}

impl Heuristic for Owlt {
    open spec fn inv(&self) -> bool {
        true
    }

    open spec fn aims_at(&self, target: NodeID) -> bool {
        self.target() == target
    }

    open spec fn settled(&self, stage: RouteStage, graph: Multigraph, visited: Set<NodeID>) -> bool {
        true
    }

    open spec fn settled_delay(&self, tx: NodeID, graph: Multigraph, visited: Set<NodeID>) -> bool {
        true
    }

    open spec fn predicted(&self, stage: RouteStage, graph: Multigraph, visited: Set<NodeID>) -> HeuristicResult {
        HeuristicResult {
            at_time_heuristic: owlt_at_time(stage, graph, self.target()),
            hop_count_heuristic: owlt_hop_count(stage, self.target()),
        }
    }

    open spec fn predicted_delay(&self, tx: NodeID, graph: Multigraph, visited: Set<NodeID>) -> HeuristicDelayResult {
        owlt_delay(tx, graph, self.target())
    }

    fn new() -> (h: Self)
        ensures
            h.target() == 0,
    {
        Owlt { target: 0 }
    }

    /// Predicts the arrival after the minimal delay to the destination, and
    /// one more hop unless the stage is at the destination.
    fn compute_heuristics(
        &mut self,
        route_stage: &RouteStage,
        _bundle: &Bundle,
        multigraph: &Multigraph,
        _visited: &HashSet<NodeID>,
    ) -> (r: HeuristicResult)
        ensures
            final(self).target() == old(self).target(),
            r.at_time_heuristic == owlt_at_time(*route_stage, *multigraph, old(self).target()),
            r.hop_count_heuristic == owlt_hop_count(*route_stage, old(self).target()),
            route_stage.to_node == old(self).target() ==> r.hop_count_heuristic == route_stage.hop_count,
            route_stage.to_node != old(self).target() ==> r.hop_count_heuristic
                == route_stage.hop_count.saturating_add(1),
            ((route_stage.to_node) as int) < multigraph.minimal_delays@.len() && ((old(self).target()) as int)
                < multigraph.minimal_delays@[(route_stage.to_node) as int]@.len() ==> r.at_time_heuristic
                == route_stage.at_time.saturating_add(
                multigraph.minimal_delays@[route_stage.to_node as int]@[old(self).target() as int],
            ),
            !(((route_stage.to_node) as int) < multigraph.minimal_delays@.len() && ((old(self).target()) as int)
                < multigraph.minimal_delays@[(route_stage.to_node) as int]@.len()) ==> r.at_time_heuristic == Date::MAX,
    {
        let at_time_heuristic: Date = route_stage.at_time.saturating_add(
            multigraph.get_minimal_delay_between_sender_and_target(route_stage.to_node, self.target),
        );
        let hop_count_heuristic: HopCount = route_stage.hop_count.saturating_add(
            if route_stage.to_node == self.target {
                0
            } else {
                1
            },
        );
        HeuristicResult { at_time_heuristic, hop_count_heuristic }
    }

    /// Predicts the minimal delay to the destination, and one hop unless
    /// `tx_node` is the destination.
    fn compute_delay_heuristic(
        &mut self,
        tx_node: NodeID,
        _bundle: &Bundle,
        multigraph: &Multigraph,
        _visited: &HashSet<NodeID>,
    ) -> (r: HeuristicDelayResult)
        ensures
            final(self).target() == old(self).target(),
            r == owlt_delay(tx_node, *multigraph, old(self).target()),
            r.heuristic_remaining_hop_count == (if tx_node == old(self).target() {
                0u16
            } else {
                1u16
            }),
            ((tx_node) as int) < multigraph.minimal_delays@.len() && ((old(self).target()) as int)
                < multigraph.minimal_delays@[(tx_node) as int]@.len() ==> r.heuristic_delay
                == multigraph.minimal_delays@[tx_node as int]@[old(self).target() as int],
            !(((tx_node) as int) < multigraph.minimal_delays@.len() && ((old(self).target()) as int)
                < multigraph.minimal_delays@[(tx_node) as int]@.len()) ==> r.heuristic_delay == Duration::MAX,
    {
        HeuristicDelayResult {
            heuristic_delay: multigraph.get_minimal_delay_between_sender_and_target(
                tx_node,
                self.target,
            ),
            heuristic_remaining_hop_count: if tx_node == self.target {
                0
            } else {
                1
            },
        }
    }

    /// Aims at the first destination of the bundle.
    fn setup(&mut self, bundle: &Bundle)
        ensures
            final(self).target() == bundle.destinations@[0],
    {
        self.target = bundle.destinations[0];
    }
}

} // verus!
