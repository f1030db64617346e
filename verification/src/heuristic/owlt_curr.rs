use vstd::prelude::*;
use std::collections::HashSet;
use crate::heuristic::{Heuristic, HeuristicDelayResult, HeuristicResult};
use crate::heuristic::owlt::{owlt_at_time, owlt_delay, owlt_hop_count};
use crate::multigraph::{Multigraph, last_distance_at};
use crate::route_stage::RouteStage;
use crate::types::{Bundle, Date, Duration, GeographicalDistance, HopCount, NodeID};

verus! {

/// The one-way-light-time heuristic that also predicts the geographical
/// distance: the distance covered so far plus the distance between the
/// stage's node and the destination when the last contact began.
pub struct OwltCurr {
    target: NodeID,
}

/// The distance predicted for `stage` when its last contact began at `start`.
pub open spec fn owlt_distance(stage: RouteStage, graph: Multigraph, target: NodeID, start: Date) -> GeographicalDistance {
    stage.cumulative_distance.saturating_add(graph.distance_at(stage.to_node, target, start))
}

/// The predicted distance depends on the start of the last contact, not on
/// the stage's arrival time: two stages that differ only in their arrival get
/// the same prediction; and it is the distance covered plus the distance
/// between the stage's node and the destination in force at that start.
pub proof fn owlt_distance_at_contact_start(
    stage: RouteStage,
    graph: Multigraph,
    target: NodeID,
    start: Date,
    other_arrival: Date,
)
    ensures
        owlt_distance(RouteStage { at_time: other_arrival, ..stage }, graph, target, start)
            == owlt_distance(stage, graph, target, start),
        owlt_distance(stage, graph, target, start) == stage.cumulative_distance.saturating_add(
            graph.distance_at(stage.to_node, target, start),
        ),
        owlt_distance(stage, graph, target, start) >= stage.cumulative_distance,
{
}

impl OwltCurr {
    /// The destination the heuristic aims at.
    pub closed spec fn target(&self) -> NodeID {
        self.target
    }

    /// Predicts the geographical distance at the destination: the distance
    /// covered so far plus the distance from the stage's node to the
    /// destination at the start of the contact the stage came through.
    pub fn compute_distance_heuristic(&self, route_stage: &RouteStage, multigraph: &Multigraph) -> (d:
        GeographicalDistance)
        requires
            route_stage.via_contact_start is Some,
        ensures
            d == owlt_distance(
                *route_stage,
                *multigraph,
                self.target(),
                route_stage.via_contact_start->0,
            ),
            d == route_stage.cumulative_distance.saturating_add(
                multigraph.distance_at(
                    route_stage.to_node,
                    self.target(),
                    route_stage.via_contact_start->0,
                ),
            ),
            (route_stage.to_node as int) < multigraph.distances@.len() && (self.target() as int)
                < multigraph.distances@[route_stage.to_node as int]@.len() ==> d
                == route_stage.cumulative_distance.saturating_add(
                last_distance_at(
                    multigraph.distances@[route_stage.to_node as int]@[self.target() as int]@,
                    route_stage.via_contact_start->0,
                ),
            ),
    {
        let start_time: Date = route_stage.via_contact_start.unwrap();
        route_stage.cumulative_distance.saturating_add(
            multigraph.get_distance_between_sender_and_target_at_time(
                route_stage.to_node,
                self.target,
                start_time,
            ),
        )
    }
}

impl Heuristic for OwltCurr {
    open spec fn inv(&self) -> bool {
        true
    }

    open spec fn aims_at(&self, target: NodeID) -> bool {
        self.target() == target
    }

    open spec fn settled(&self, stage: RouteStage, graph: Multigraph, visited: Set<NodeID>) -> bool {
        true
    }

    open spec fn settled_delay(&self, tx: NodeID, graph: Multigraph, visited: Set<NodeID>) -> bool {
        true
    }

    open spec fn predicted(&self, stage: RouteStage, graph: Multigraph, visited: Set<NodeID>) -> HeuristicResult {
        HeuristicResult {
            at_time_heuristic: owlt_at_time(stage, graph, self.target()),
            hop_count_heuristic: owlt_hop_count(stage, self.target()),
        }
    }

    open spec fn predicted_delay(&self, tx: NodeID, graph: Multigraph, visited: Set<NodeID>) -> HeuristicDelayResult {
        owlt_delay(tx, graph, self.target())
    }

    fn new() -> (h: Self)
        ensures
            h.target() == 0,
    {
        OwltCurr { target: 0 }
    }

    /// Predicts the arrival after the minimal delay to the destination, and
    /// one more hop unless the stage is at the destination.
    fn compute_heuristics(
        &mut self,
        route_stage: &RouteStage,
        _bundle: &Bundle,
        multigraph: &Multigraph,
        _visited: &HashSet<NodeID>,
    ) -> (r: HeuristicResult)
        ensures
            final(self).target() == old(self).target(),
            r.at_time_heuristic == owlt_at_time(*route_stage, *multigraph, old(self).target()),
            r.hop_count_heuristic == owlt_hop_count(*route_stage, old(self).target()),
            route_stage.to_node == old(self).target() ==> r.hop_count_heuristic == route_stage.hop_count,
            route_stage.to_node != old(self).target() ==> r.hop_count_heuristic
                == route_stage.hop_count.saturating_add(1),
            ((route_stage.to_node) as int) < multigraph.minimal_delays@.len() && ((old(self).target()) as int)
                < multigraph.minimal_delays@[(route_stage.to_node) as int]@.len() ==> r.at_time_heuristic
                == route_stage.at_time.saturating_add(
                multigraph.minimal_delays@[route_stage.to_node as int]@[old(self).target() as int],
            ),
            !(((route_stage.to_node) as int) < multigraph.minimal_delays@.len() && ((old(self).target()) as int)
                < multigraph.minimal_delays@[(route_stage.to_node) as int]@.len()) ==> r.at_time_heuristic == Date::MAX,
    {
        let at_time_heuristic: Date = route_stage.at_time.saturating_add(
            multigraph.get_minimal_delay_between_sender_and_target(route_stage.to_node, self.target),
        );
        let hop_count_heuristic: HopCount = route_stage.hop_count.saturating_add(
            if route_stage.to_node == self.target {
                0
            } else {
                1
            },
        );
        HeuristicResult { at_time_heuristic, hop_count_heuristic }
    }

    /// Predicts the minimal delay to the destination, and one hop unless
    /// `tx_node` is the destination.
    fn compute_delay_heuristic(
        &mut self,
        tx_node: NodeID,
        _bundle: &Bundle,
        multigraph: &Multigraph,
        _visited: &HashSet<NodeID>,
    ) -> (r: HeuristicDelayResult)
        ensures
            final(self).target() == old(self).target(),
            r == owlt_delay(tx_node, *multigraph, old(self).target()),
            r.heuristic_remaining_hop_count == (if tx_node == old(self).target() {
                0u16
            } else {
                1u16
            }),
            ((tx_node) as int) < multigraph.minimal_delays@.len() && ((old(self).target()) as int)
                < multigraph.minimal_delays@[(tx_node) as int]@.len() ==> r.heuristic_delay
                == multigraph.minimal_delays@[tx_node as int]@[old(self).target() as int],
            !(((tx_node) as int) < multigraph.minimal_delays@.len() && ((old(self).target()) as int)
                < multigraph.minimal_delays@[(tx_node) as int]@.len()) ==> r.heuristic_delay == Duration::MAX,
    {
        HeuristicDelayResult {
            heuristic_delay: multigraph.get_minimal_delay_between_sender_and_target(
                tx_node,
                self.target,
            ),
            heuristic_remaining_hop_count: if tx_node == self.target {
                0
            } else {
                1
            },
        }
    }

    /// Aims at the first destination of the bundle.
    fn setup(&mut self, bundle: &Bundle)
        ensures
            final(self).target() == bundle.destinations@[0],
    {
        self.target = bundle.destinations[0];
    }
}

} // verus!
