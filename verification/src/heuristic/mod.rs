//! Heuristics for A*-based routing: predictions of the remaining cost to reach
//! the destination of a bundle from a route stage.
use vstd::prelude::*;
use std::collections::HashSet;
use crate::multigraph::Multigraph;
use crate::route_stage::RouteStage;
use crate::types::{Bundle, Date, Duration, HopCount, NodeID};

pub mod zero;
pub mod owlt;
pub mod owlt_curr;
pub mod k_look_ahead;
pub mod k_look_ahead_min;

verus! {

/// The predicted cost metrics at the destination.
#[derive(Clone, Copy, Debug, PartialEq, Eq)]
pub struct HeuristicResult {
    /// The predicted arrival time at the destination.
    pub at_time_heuristic: Date,
    /// The predicted hop count at the destination.
    pub hop_count_heuristic: HopCount,
}

/// The predicted remaining cost from a node to the destination.
#[derive(Clone, Copy, Debug, PartialEq, Eq)]
pub struct HeuristicDelayResult {
    /// The predicted remaining delay.
    pub heuristic_delay: Duration,
    /// The predicted remaining number of hops.
    pub heuristic_remaining_hop_count: HopCount,
}

/// A heuristic function: it predicts, for a route stage, the cost metrics
/// (arrival time and hop count) at the destination of the bundle.
///
/// Every answer is `predicted` (or `predicted_delay`) of the state the
/// heuristic is in after computing it, and that prediction is then
/// *settled*: later computations do not change a settled prediction. A
/// heuristic without memory has all its predictions settled.
pub trait Heuristic: Sized {
    /// The heuristic's own consistency condition, kept by every operation.
    spec fn inv(&self) -> bool;

    /// Whether the heuristic is set up to aim at the destination `target`.
    spec fn aims_at(&self, target: NodeID) -> bool;

    /// Whether the prediction for `stage` is settled.
    spec fn settled(&self, stage: RouteStage, graph: Multigraph, visited: Set<NodeID>) -> bool;

    /// Whether the prediction of the remaining cost from `tx` is settled.
    spec fn settled_delay(&self, tx: NodeID, graph: Multigraph, visited: Set<NodeID>) -> bool;

    /// The prediction for `stage`.
    spec fn predicted(&self, stage: RouteStage, graph: Multigraph, visited: Set<NodeID>) -> HeuristicResult;

    /// The prediction of the remaining cost from `tx`.
    spec fn predicted_delay(&self, tx: NodeID, graph: Multigraph, visited: Set<NodeID>) -> HeuristicDelayResult;

    /// A new heuristic, to be set up with a bundle before use.
    fn new() -> (h: Self)
        ensures
            h.inv(),
    ;

    /// Predicts the arrival time and hop count at the destination for
    /// `route_stage`. No prediction lies before the stage's own arrival time.
    fn compute_heuristics(
        &mut self,
        route_stage: &RouteStage,
        bundle: &Bundle,
        multigraph: &Multigraph,
        visited: &HashSet<NodeID>,
    ) -> (r: HeuristicResult)
        requires
            old(self).inv(),
        ensures
            final(self).inv(),
            r.at_time_heuristic >= route_stage.at_time,
            r == final(self).predicted(*route_stage, *multigraph, visited@),
            final(self).settled(*route_stage, *multigraph, visited@),
            forall|s: RouteStage, g: Multigraph, v: Set<NodeID>|
                #[trigger] old(self).settled(s, g, v) ==> final(self).settled(s, g, v)
                    && final(self).predicted(s, g, v) == old(self).predicted(s, g, v),
            forall|t: NodeID, g: Multigraph, v: Set<NodeID>|
                #[trigger] old(self).settled_delay(t, g, v) ==> final(self).settled_delay(t, g, v)
                    && final(self).predicted_delay(t, g, v) == old(self).predicted_delay(t, g, v),
            forall|t: NodeID| #[trigger] final(self).aims_at(t) == old(self).aims_at(t),
    ;

    /// Predicts the remaining delay and hop count from node `tx` to the destination.
    fn compute_delay_heuristic(
        &mut self,
        tx_node: NodeID,
        bundle: &Bundle,
        multigraph: &Multigraph,
        visited: &HashSet<NodeID>,
    ) -> (r: HeuristicDelayResult)
        requires
            old(self).inv(),
        ensures
            final(self).inv(),
            r == final(self).predicted_delay(tx_node, *multigraph, visited@),
            final(self).settled_delay(tx_node, *multigraph, visited@),
            forall|s: RouteStage, g: Multigraph, v: Set<NodeID>|
                #[trigger] old(self).settled(s, g, v) ==> final(self).settled(s, g, v)
                    && final(self).predicted(s, g, v) == old(self).predicted(s, g, v),
            forall|t: NodeID, g: Multigraph, v: Set<NodeID>|
                #[trigger] old(self).settled_delay(t, g, v) ==> final(self).settled_delay(t, g, v)
                    && final(self).predicted_delay(t, g, v) == old(self).predicted_delay(t, g, v),
            forall|t: NodeID| #[trigger] final(self).aims_at(t) == old(self).aims_at(t),
    ;

    /// Sets the heuristic up for routing `bundle` (towards its first destination).
    fn setup(&mut self, bundle: &Bundle)
        requires
            old(self).inv(),
            bundle.destinations@.len() > 0,
        ensures
            final(self).inv(),
            final(self).aims_at(bundle.destinations@[0]),
    ;
}

/// Every prediction settled in `a` is settled in `b`, with the same value.
pub open spec fn keeps_settled<H: Heuristic>(a: H, b: H) -> bool {
    &&& forall|s: RouteStage, g: Multigraph, v: Set<NodeID>|
        #[trigger] a.settled(s, g, v) ==> b.settled(s, g, v) && b.predicted(s, g, v)
            == a.predicted(s, g, v)
    &&& forall|t: NodeID, g: Multigraph, v: Set<NodeID>|
        #[trigger] a.settled_delay(t, g, v) ==> b.settled_delay(t, g, v) && b.predicted_delay(
            t,
            g,
            v,
        ) == a.predicted_delay(t, g, v)
}

/// Keeping the settled predictions chains.
pub proof fn lemma_keeps_settled_trans<H: Heuristic>(a: H, b: H, c: H)
    requires
        keeps_settled(a, b),
        keeps_settled(b, c),
    ensures
        keeps_settled(a, c),
{
}

/// A settled prediction is an answer that computing again gives unchanged.
pub proof fn lemma_keeps_settled_refl<H: Heuristic>(a: H)
    ensures
        keeps_settled(a, a),
{
}

} // verus!
