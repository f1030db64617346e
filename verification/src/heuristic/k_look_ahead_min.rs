use vstd::prelude::*;
use std::collections::{HashMap, HashSet};
use crate::heuristic::{
    Heuristic, HeuristicDelayResult, HeuristicResult, keeps_settled, lemma_keeps_settled_refl,
    lemma_keeps_settled_trans,
};
use crate::heuristic::k_look_ahead::{lemma_open_nodes_below_insert, open_nodes, visited_after};
use crate::multigraph::Multigraph;
use crate::route_stage::RouteStage;
use crate::types::{Bundle, Duration, HopCount, NodeID};

verus! {

/// The K-look-ahead heuristic on remaining delays. For a node and a depth it
/// predicts the least remaining delay (and, among equal delays, the least hop
/// count) over the neighbours that are not on the route explored so far: the
/// neighbour's own prediction at one depth less, plus the minimal delay
/// towards it and one hop. At depth 0 the final heuristic decides, and the
/// destination needs no more delay. For a depth beyond the number of nodes
/// that can still be entered, the prediction is the least cost of a route to
/// the destination.
///
/// Each prediction is recorded per node and depth together with the nodes of
/// the route it was made for, and reused for the same node, depth and route
/// nodes during one computation.
pub struct KLookAheadMin<H: Heuristic> {
    target: NodeID,
    k: usize,
    final_heuristic: H,
    visited: Vec<NodeID>,
    table: HashMap<NodeID, HashMap<usize, MemoEntry>>,
}

/// A recorded prediction and the nodes of the route it was made for.
pub struct MemoEntry {
    pub route: Vec<NodeID>,
    pub result: HeuristicDelayResult,
}

/// The remaining cost of an unreachable destination.
pub open spec fn unreachable_delay() -> HeuristicDelayResult {
    HeuristicDelayResult { heuristic_delay: Duration::MAX, heuristic_remaining_hop_count: HopCount::MAX }
}

/// The remaining cost at the destination itself.
pub open spec fn no_delay() -> HeuristicDelayResult {
    HeuristicDelayResult { heuristic_delay: 0, heuristic_remaining_hop_count: 0 }
}

/// The cost of going one hop, `hop_delay` long, before the remaining cost `via`.
pub open spec fn one_hop_before(via: HeuristicDelayResult, hop_delay: Duration) -> HeuristicDelayResult {
    HeuristicDelayResult {
        heuristic_delay: via.heuristic_delay.saturating_add(hop_delay),
        heuristic_remaining_hop_count: via.heuristic_remaining_hop_count.saturating_add(1),
    }
}

/// `lowest` compared with going through a neighbour whose remaining cost is
/// `via` and which is `hop_delay` away: the lower delay wins, and on equal
/// delays the lower hop count.
pub open spec fn delay_step(lowest: HeuristicDelayResult, via: HeuristicDelayResult, hop_delay: Duration) -> HeuristicDelayResult {
    let c = one_hop_before(via, hop_delay);
    if c.heuristic_delay < lowest.heuristic_delay || (c.heuristic_delay == lowest.heuristic_delay
        && c.heuristic_remaining_hop_count < lowest.heuristic_remaining_hop_count) {
        c
    } else {
        lowest
    }
}

/// `a` is no worse than `b`: a lower delay, or the same delay and no more hops.
pub open spec fn no_worse(a: HeuristicDelayResult, b: HeuristicDelayResult) -> bool {
    a.heuristic_delay < b.heuristic_delay || (a.heuristic_delay == b.heuristic_delay
        && a.heuristic_remaining_hop_count <= b.heuristic_remaining_hop_count)
}

/// Whether the neighbour `node` is skipped.
pub open spec fn skipped(node: NodeID, visited: Set<NodeID>, excluded: Set<NodeID>) -> bool {
    visited.contains(node) || excluded.contains(node)
}

/// The remaining cost predicted from `tx` at depth `k`, with the nodes of
/// `visited` (the route so far) and `excluded` not entered, and with `final_heuristic` at depth 0.
pub open spec fn remaining<H: Heuristic>(
    final_heuristic: H,
    graph: Multigraph,
    excluded: Set<NodeID>,
    visited: Set<NodeID>,
    target: NodeID,
    tx: NodeID,
    k: nat,
) -> HeuristicDelayResult
    decreases k, 1int, 0int,
{
    if k == 0 {
        final_heuristic.predicted_delay(tx, graph, excluded)
    } else if tx == target {
        no_delay()
    } else {
        remaining_from(
            final_heuristic,
            graph,
            excluded,
            visited.insert(tx),
            target,
            tx,
            k,
            graph.receivers_of(tx).len(),
        )
    }
}

/// The lowest remaining cost from `tx` at depth `k` through its first `n` receivers.
pub open spec fn remaining_from<H: Heuristic>(
    final_heuristic: H,
    graph: Multigraph,
    excluded: Set<NodeID>,
    visited: Set<NodeID>,
    target: NodeID,
    tx: NodeID,
    k: nat,
    n: nat,
) -> HeuristicDelayResult
    decreases k, 0int, n,
{
    if n == 0 || k == 0 {
        unreachable_delay()
    } else {
        let prev = remaining_from(final_heuristic, graph, excluded, visited, target, tx, k, (n - 1) as nat);
        let r = graph.receivers_of(tx)[n - 1].node;
        if skipped(r, visited, excluded) {
            prev
        } else {
            delay_step(
                prev,
                remaining(final_heuristic, graph, excluded, visited.insert(r), target, r, (k - 1) as nat),
                graph.minimal_delay(tx, r),
            )
        }
    }
}

/// Whether every prediction of `final_heuristic` that `remaining` uses is settled.
pub open spec fn remaining_settled<H: Heuristic>(
    final_heuristic: H,
    graph: Multigraph,
    excluded: Set<NodeID>,
    visited: Set<NodeID>,
    target: NodeID,
    tx: NodeID,
    k: nat,
) -> bool
    decreases k, 1int, 0int,
{
    if k == 0 {
        final_heuristic.settled_delay(tx, graph, excluded)
    } else if tx == target {
        true
    } else {
        remaining_from_settled(
            final_heuristic,
            graph,
            excluded,
            visited.insert(tx),
            target,
            tx,
            k,
            graph.receivers_of(tx).len(),
        )
    }
}

/// Whether every prediction of `final_heuristic` that `remaining_from` uses is settled.
pub open spec fn remaining_from_settled<H: Heuristic>(
    final_heuristic: H,
    graph: Multigraph,
    excluded: Set<NodeID>,
    visited: Set<NodeID>,
    target: NodeID,
    tx: NodeID,
    k: nat,
    n: nat,
) -> bool
    decreases k, 0int, n,
{
    if n == 0 || k == 0 {
        true
    } else {
        let r = graph.receivers_of(tx)[n - 1].node;
        &&& remaining_from_settled(final_heuristic, graph, excluded, visited, target, tx, k, (n - 1) as nat)
        &&& (skipped(r, visited, excluded) || remaining_settled(
            final_heuristic,
            graph,
            excluded,
            visited.insert(r),
            target,
            r,
            (k - 1) as nat,
        ))
    }
}

/// A prediction whose final-heuristic predictions are settled is the same in
/// any later state of the final heuristic, where they are still settled.
pub proof fn lemma_remaining_stable<H: Heuristic>(
    h1: H,
    h2: H,
    graph: Multigraph,
    excluded: Set<NodeID>,
    visited: Set<NodeID>,
    target: NodeID,
    tx: NodeID,
    k: nat,
)
    requires
        remaining_settled(h1, graph, excluded, visited, target, tx, k),
        keeps_settled(h1, h2),
    ensures
        remaining_settled(h2, graph, excluded, visited, target, tx, k),
        remaining(h1, graph, excluded, visited, target, tx, k) == remaining(
            h2,
            graph,
            excluded,
            visited,
            target,
            tx,
            k,
        ),
    decreases k, 1int, 0int,
{
    if k == 0 {
        assert(h1.settled_delay(tx, graph, excluded));
    } else if tx != target {
        lemma_remaining_from_stable(
            h1,
            h2,
            graph,
            excluded,
            visited.insert(tx),
            target,
            tx,
            k,
            graph.receivers_of(tx).len(),
        );
    }
}

/// `lemma_remaining_stable` through the first `n` receivers.
pub proof fn lemma_remaining_from_stable<H: Heuristic>(
    h1: H,
    h2: H,
    graph: Multigraph,
    excluded: Set<NodeID>,
    visited: Set<NodeID>,
    target: NodeID,
    tx: NodeID,
    k: nat,
    n: nat,
)
    requires
        remaining_from_settled(h1, graph, excluded, visited, target, tx, k, n),
        keeps_settled(h1, h2),
    ensures
        remaining_from_settled(h2, graph, excluded, visited, target, tx, k, n),
        remaining_from(h1, graph, excluded, visited, target, tx, k, n) == remaining_from(
            h2,
            graph,
            excluded,
            visited,
            target,
            tx,
            k,
            n,
        ),
    decreases k, 0int, n,
{
    if n > 0 && k > 0 {
        lemma_remaining_from_stable(h1, h2, graph, excluded, visited, target, tx, k, (n - 1) as nat);
        let r = graph.receivers_of(tx)[n - 1].node;
        if !skipped(r, visited, excluded) {
            lemma_remaining_stable(h1, h2, graph, excluded, visited.insert(r), target, r, (k - 1) as nat);
        }
    }
}

/// The node a prediction is made for counts among the route's nodes or not, alike.
proof fn lemma_remaining_own_node<H: Heuristic>(
    h: H,
    graph: Multigraph,
    excluded: Set<NodeID>,
    visited: Set<NodeID>,
    target: NodeID,
    tx: NodeID,
    k: nat,
)
    ensures
        remaining(h, graph, excluded, visited.insert(tx), target, tx, k) == remaining(
            h,
            graph,
            excluded,
            visited,
            target,
            tx,
            k,
        ),
        remaining_settled(h, graph, excluded, visited.insert(tx), target, tx, k)
            == remaining_settled(h, graph, excluded, visited, target, tx, k),
{
    assert(visited.insert(tx).insert(tx) =~= visited.insert(tx));
}

/// Every recorded prediction is the one `remaining` gives for its node, depth
/// and route nodes, with settled final-heuristic predictions.
pub open spec fn table_sound<H: Heuristic>(
    memo: Map<(NodeID, usize), (Seq<NodeID>, HeuristicDelayResult)>,
    final_heuristic: H,
    graph: Multigraph,
    excluded: Set<NodeID>,
    target: NodeID,
) -> bool {
    forall|key: (NodeID, usize)|
        #[trigger] memo.contains_key(key) ==> {
            &&& remaining_settled(
                final_heuristic,
                graph,
                excluded,
                memo[key].0.to_set(),
                target,
                key.0,
                key.1 as nat,
            )
            &&& memo[key].1 == remaining(
                final_heuristic,
                graph,
                excluded,
                memo[key].0.to_set(),
                target,
                key.0,
                key.1 as nat,
            )
        }
}

/// The recorded predictions stay right when the final heuristic keeps its settled predictions.
proof fn lemma_table_stable<H: Heuristic>(
    memo: Map<(NodeID, usize), (Seq<NodeID>, HeuristicDelayResult)>,
    h1: H,
    h2: H,
    graph: Multigraph,
    excluded: Set<NodeID>,
    target: NodeID,
)
    requires
        table_sound(memo, h1, graph, excluded, target),
        keeps_settled(h1, h2),
    ensures
        table_sound(memo, h2, graph, excluded, target),
{
    assert forall|key: (NodeID, usize)| #[trigger] memo.contains_key(key) implies {
        &&& remaining_settled(h2, graph, excluded, memo[key].0.to_set(), target, key.0, key.1 as nat)
        &&& memo[key].1 == remaining(h2, graph, excluded, memo[key].0.to_set(), target, key.0, key.1 as nat)
    } by {
        lemma_remaining_stable(h1, h2, graph, excluded, memo[key].0.to_set(), target, key.0, key.1 as nat);
    }
}

// ----- routes to the destination -----

/// Whether `b` is the node of a receiver of `a`.
pub open spec fn is_receiver(graph: Multigraph, a: NodeID, b: NodeID) -> bool {
    exists|j: int|
        0 <= j < graph.receivers_of(a).len() && #[trigger] graph.receivers_of(a)[j].node == b
}

/// `route` is a route of the graph that leaves its first node through
/// receivers, and enters no node of `visited` or `excluded` and none twice.
pub open spec fn is_route(
    graph: Multigraph,
    excluded: Set<NodeID>,
    visited: Set<NodeID>,
    route: Seq<NodeID>,
) -> bool {
    forall|i: int|
        1 <= i < route.len() ==> {
            &&& is_receiver(graph, route[i - 1], #[trigger] route[i])
            &&& !visited.contains(route[i])
            &&& !excluded.contains(route[i])
            &&& forall|j: int| 0 <= j < i ==> route[j] != route[i]
        }
}

/// `route` is a route from `tx` to `target` that enters no node of `visited` or `excluded`.
pub open spec fn route_to_target(
    graph: Multigraph,
    excluded: Set<NodeID>,
    visited: Set<NodeID>,
    target: NodeID,
    tx: NodeID,
    route: Seq<NodeID>,
) -> bool {
    &&& route.len() >= 1
    &&& route[0] == tx
    &&& route.last() == target
    &&& is_route(graph, excluded, visited, route)
}

/// The cost of `route`: its minimal delays summed, and its number of hops
/// (both saturating).
pub open spec fn route_cost(graph: Multigraph, route: Seq<NodeID>) -> HeuristicDelayResult
    decreases route.len(),
{
    if route.len() <= 1 {
        no_delay()
    } else {
        one_hop_before(route_cost(graph, route.drop_first()), graph.minimal_delay(route[0], route[1]))
    }
}

/// Whether `node` is the node of one of the first `n` receivers of `tx`.
pub open spec fn among_first(graph: Multigraph, tx: NodeID, node: NodeID, n: nat) -> bool {
    exists|j: int| 0 <= j < n && #[trigger] graph.receivers_of(tx)[j].node == node
}

/// A route avoiding more nodes avoids fewer.
proof fn lemma_route_fewer_visited(
    graph: Multigraph,
    excluded: Set<NodeID>,
    v1: Set<NodeID>,
    v2: Set<NodeID>,
    route: Seq<NodeID>,
)
    requires
        is_route(graph, excluded, v1, route),
        v2.subset_of(v1),
    ensures
        is_route(graph, excluded, v2, route),
{
}

/// A route to the destination from the receiver `r` of `tx`, with `tx` put in front.
proof fn lemma_route_prepend(
    graph: Multigraph,
    excluded: Set<NodeID>,
    visited: Set<NodeID>,
    target: NodeID,
    tx: NodeID,
    n: nat,
    q: Seq<NodeID>,
)
    requires
        0 < n <= graph.receivers_of(tx).len(),
        visited.contains(tx),
        !skipped(graph.receivers_of(tx)[n - 1].node, visited, excluded),
        route_to_target(
            graph,
            excluded,
            visited.insert(graph.receivers_of(tx)[n - 1].node),
            target,
            graph.receivers_of(tx)[n - 1].node,
            q,
        ),
    ensures
        route_to_target(graph, excluded, visited, target, tx, seq![tx] + q),
        route_cost(graph, seq![tx] + q) == one_hop_before(
            route_cost(graph, q),
            graph.minimal_delay(tx, graph.receivers_of(tx)[n - 1].node),
        ),
{
    let r = graph.receivers_of(tx)[n - 1].node;
    let v2 = visited.insert(r);
    let route = seq![tx] + q;
    assert(route[0] == tx);
    assert(route[1] == r);
    assert(route.last() == q.last());
    assert(is_receiver(graph, tx, r));
    assert forall|m: int| 1 <= m < route.len() implies {
        &&& is_receiver(graph, route[m - 1], #[trigger] route[m])
        &&& !visited.contains(route[m])
        &&& !excluded.contains(route[m])
        &&& forall|j: int| 0 <= j < m ==> route[j] != route[m]
    } by {
        assert(route[m] == q[m - 1]);
        if m > 1 {
            assert(route[m - 1] == q[m - 2]);
            assert(is_receiver(graph, q[m - 2], q[m - 1]));
            assert(!v2.contains(q[m - 1]));
            assert forall|j: int| 0 <= j < m implies route[j] != route[m] by {
                if j > 0 {
                    assert(route[j] == q[j - 1]);
                }
            }
        }
    }
    assert(route.drop_first() =~= q);
}

/// A route to the destination through the receiver `r` of `tx`, without `tx`.
proof fn lemma_route_rest(
    graph: Multigraph,
    excluded: Set<NodeID>,
    visited: Set<NodeID>,
    target: NodeID,
    tx: NodeID,
    route: Seq<NodeID>,
)
    requires
        route_to_target(graph, excluded, visited, target, tx, route),
        route.len() >= 2,
        visited.contains(tx),
    ensures
        route_to_target(graph, excluded, visited.insert(route[1]), target, route[1], route.drop_first()),
        route_cost(graph, route) == one_hop_before(
            route_cost(graph, route.drop_first()),
            graph.minimal_delay(tx, route[1]),
        ),
        !skipped(route[1], visited, excluded),
        is_receiver(graph, tx, route[1]),
{
    let q = route.drop_first();
    let v2 = visited.insert(route[1]);
    assert forall|m: int| 1 <= m < q.len() implies {
        &&& is_receiver(graph, q[m - 1], #[trigger] q[m])
        &&& !v2.contains(q[m])
        &&& !excluded.contains(q[m])
        &&& forall|j: int| 0 <= j < m ==> q[j] != q[m]
    } by {
        assert(q[m] == route[m + 1]);
        assert(q[m - 1] == route[m]);
        assert(is_receiver(graph, route[m], route[m + 1]));
        assert(route[1] != route[m + 1]);
        assert forall|j: int| 0 <= j < m implies q[j] != q[m] by {
            assert(q[j] == route[j + 1]);
        }
    }
    assert(is_receiver(graph, route[0], route[1]));
}

/// Once the depth `k` exceeds the number of nodes that can still be entered
/// from `tx` (those neither on the route so far nor excluded, and `tx`
/// itself), the remaining cost is that of a route to the destination (or
/// unreachable when there is none), and no route to the destination whose
/// delay does not reach `Duration::MAX` costs less: it is the least cost, by
/// delay and then hops, over the routes to the destination.
pub proof fn remaining_beyond_open_nodes<H: Heuristic>(
    final_heuristic: H,
    graph: Multigraph,
    excluded: Set<NodeID>,
    visited: Set<NodeID>,
    target: NodeID,
    tx: NodeID,
    k: nat,
)
    requires
        k > open_nodes(graph, visited.union(excluded).remove(tx)),
    ensures
        ({
            let v = remaining(final_heuristic, graph, excluded, visited, target, tx, k);
            v == unreachable_delay() || exists|route: Seq<NodeID>|
                #[trigger] route_to_target(graph, excluded, visited, target, tx, route)
                    && route_cost(graph, route) == v
        }),
        forall|route: Seq<NodeID>|
            #[trigger] route_to_target(graph, excluded, visited, target, tx, route) && route_cost(
                graph,
                route,
            ).heuristic_delay < Duration::MAX ==> no_worse(
                remaining(final_heuristic, graph, excluded, visited, target, tx, k),
                route_cost(graph, route),
            ),
    decreases k, 1int, 0int,
{
    let v = remaining(final_heuristic, graph, excluded, visited, target, tx, k);
    if tx == target {
        let route = seq![tx];
        assert(route_to_target(graph, excluded, visited, target, tx, route));
        assert forall|route: Seq<NodeID>|
            #[trigger] route_to_target(graph, excluded, visited, target, tx, route) && route_cost(
                graph,
                route,
            ).heuristic_delay < Duration::MAX implies no_worse(v, route_cost(graph, route)) by {
            if route.len() >= 2 {
                assert(route[route.len() - 1] != route[0]);
            }
        }
    } else {
        let vis1 = visited.insert(tx);
        let rs = graph.receivers_of(tx);
        if rs.len() > 0 {
            assert(visited.union(excluded).remove(tx).insert(tx) =~= vis1.union(excluded));
            lemma_open_nodes_below_insert(graph, visited.union(excluded).remove(tx), tx, 0x10000);
        }
        remaining_from_beyond_open_nodes(final_heuristic, graph, excluded, vis1, target, tx, k, rs.len());
        if v != unreachable_delay() {
            let route = choose|route: Seq<NodeID>|
                #[trigger] route_to_target(graph, excluded, vis1, target, tx, route) && route_cost(
                    graph,
                    route,
                ) == v;
            lemma_route_fewer_visited(graph, excluded, vis1, visited, route);
            assert(route_to_target(graph, excluded, visited, target, tx, route));
        }
        assert forall|route: Seq<NodeID>|
            #[trigger] route_to_target(graph, excluded, visited, target, tx, route) && route_cost(
                graph,
                route,
            ).heuristic_delay < Duration::MAX implies no_worse(v, route_cost(graph, route)) by {
            assert(route.len() >= 2);
            assert forall|m: int| 1 <= m < route.len() implies !vis1.contains(#[trigger] route[m]) by {
                assert(route[0] != route[m]);
            }
            assert(is_route(graph, excluded, vis1, route));
            assert(route_to_target(graph, excluded, vis1, target, tx, route));
            assert(is_receiver(graph, route[0], route[1]));
            let j = choose|j: int| 0 <= j < rs.len() && #[trigger] rs[j].node == route[1];
            assert(among_first(graph, tx, route[1], rs.len()));
        }
    }
}

proof fn remaining_from_beyond_open_nodes<H: Heuristic>(
    final_heuristic: H,
    graph: Multigraph,
    excluded: Set<NodeID>,
    visited: Set<NodeID>,
    target: NodeID,
    tx: NodeID,
    k: nat,
    n: nat,
)
    requires
        k > 0,
        n <= graph.receivers_of(tx).len(),
        visited.contains(tx),
        n > 0 ==> k - 1 > open_nodes(graph, visited.union(excluded)),
    ensures
        ({
            let v = remaining_from(final_heuristic, graph, excluded, visited, target, tx, k, n);
            v == unreachable_delay() || exists|route: Seq<NodeID>|
                #[trigger] route_to_target(graph, excluded, visited, target, tx, route)
                    && route_cost(graph, route) == v
        }),
        forall|route: Seq<NodeID>|
            #[trigger] route_to_target(graph, excluded, visited, target, tx, route) && route.len()
                >= 2 && among_first(graph, tx, route[1], n) && route_cost(graph, route).heuristic_delay
                < Duration::MAX ==> no_worse(
                remaining_from(final_heuristic, graph, excluded, visited, target, tx, k, n),
                route_cost(graph, route),
            ),
    decreases k, 0int, n,
{
    if n > 0 {
        let prev = remaining_from(final_heuristic, graph, excluded, visited, target, tx, k, (n - 1) as nat);
        let v = remaining_from(final_heuristic, graph, excluded, visited, target, tx, k, n);
        remaining_from_beyond_open_nodes(final_heuristic, graph, excluded, visited, target, tx, k, (n - 1) as nat);
        let r = graph.receivers_of(tx)[n - 1].node;
        let w = graph.minimal_delay(tx, r);
        if skipped(r, visited, excluded) {
            assert forall|route: Seq<NodeID>|
                #[trigger] route_to_target(graph, excluded, visited, target, tx, route) && route.len()
                    >= 2 && among_first(graph, tx, route[1], n) && route_cost(graph, route).heuristic_delay
                    < Duration::MAX implies no_worse(v, route_cost(graph, route)) by {
                let j = choose|j: int| 0 <= j < n && #[trigger] graph.receivers_of(tx)[j].node == route[1];
                lemma_route_rest(graph, excluded, visited, target, tx, route);
                assert(j != n - 1);
                assert(among_first(graph, tx, route[1], (n - 1) as nat));
            }
        } else {
            let vis2 = visited.insert(r);
            assert(vis2.union(excluded).remove(r) =~= visited.union(excluded));
            remaining_beyond_open_nodes(final_heuristic, graph, excluded, vis2, target, r, (k - 1) as nat);
            let c = remaining(final_heuristic, graph, excluded, vis2, target, r, (k - 1) as nat);
            if v != prev && v != unreachable_delay() {
                assert(v == one_hop_before(c, w));
                assert(c != unreachable_delay());
                let q = choose|q: Seq<NodeID>|
                    #[trigger] route_to_target(graph, excluded, vis2, target, r, q) && route_cost(graph, q) == c;
                lemma_route_prepend(graph, excluded, visited, target, tx, n, q);
                assert(route_to_target(graph, excluded, visited, target, tx, seq![tx] + q));
            }
            assert forall|route: Seq<NodeID>|
                #[trigger] route_to_target(graph, excluded, visited, target, tx, route) && route.len()
                    >= 2 && among_first(graph, tx, route[1], n) && route_cost(graph, route).heuristic_delay
                    < Duration::MAX implies no_worse(v, route_cost(graph, route)) by {
                let j = choose|j: int| 0 <= j < n && #[trigger] graph.receivers_of(tx)[j].node == route[1];
                lemma_route_rest(graph, excluded, visited, target, tx, route);
                if j < n - 1 {
                    assert(among_first(graph, tx, route[1], (n - 1) as nat));
                } else {
                    let q = route.drop_first();
                    assert(route[1] == r);
                    assert(route_to_target(graph, excluded, vis2, target, r, q));
                    assert(no_worse(c, route_cost(graph, q)));
                }
            }
        }
    }
}

// ----- the route being explored, as nodes kept in increasing order -----

/// A copy of `v`.
fn copy_nodes(v: &Vec<NodeID>) -> (r: Vec<NodeID>)
    ensures
        r@ == v@,
{
    let mut r: Vec<NodeID> = Vec::new();
    let mut i: usize = 0;
    while i < v.len()
        invariant
            i <= v.len(),
            r@ == v@.subrange(0, i as int),
        decreases v.len() - i,
    {
        r.push(v[i]);
        i = i + 1;
        assert(r@ =~= v@.subrange(0, i as int));
    }
    assert(v@.subrange(0, v.len() as int) =~= v@);
    r
}

/// Adds `x` to the nodes of `v`, in front of the first greater node.
fn insert_node(v: &mut Vec<NodeID>, x: NodeID)
    ensures
        final(v)@.to_set() == old(v)@.to_set().insert(x),
{
    let mut i: usize = 0;
    while i < v.len() && v[i] < x
        invariant
            i <= v.len(),
        decreases v.len() - i,
    {
        i = i + 1;
    }
    if i < v.len() && v[i] == x {
        assert(old(v)@.to_set().contains(x));
        assert(old(v)@.to_set().insert(x) =~= old(v)@.to_set());
        return ;
    }
    v.insert(i, x);
    let ghost s = old(v)@;
    assert(final(v)@.to_set() =~= s.to_set().insert(x)) by {
        assert forall|n: NodeID| v@.contains(n) implies s.contains(n) || n == x by {
            let j = choose|j: int| 0 <= j < v@.len() && v@[j] == n;
            if j < i {
                assert(s[j] == n);
            } else if j > i {
                assert(s[j - 1] == n);
            }
        }
        assert forall|n: NodeID| s.contains(n) implies v@.contains(n) by {
            let j = choose|j: int| 0 <= j < s.len() && s[j] == n;
            if j < i {
                assert(v@[j] == n);
            } else {
                assert(v@[j + 1] == n);
            }
        }
        assert(v@[i as int] == x);
    }
}

/// Removes `x` from the nodes of `v`.
fn remove_node(v: &mut Vec<NodeID>, x: NodeID)
    ensures
        final(v)@.to_set() == old(v)@.to_set().remove(x),
{
    let mut out: Vec<NodeID> = Vec::new();
    let mut i: usize = 0;
    while i < v.len()
        invariant
            i <= v.len(),
            forall|j: int| 0 <= j < out@.len() ==> #[trigger] out@[j] != x,
            forall|j: int| 0 <= j < out@.len() ==> exists|m: int| 0 <= m < i && v@[m] == #[trigger] out@[j],
            forall|m: int| 0 <= m < i && v@[m] != x ==> exists|j: int| 0 <= j < out@.len() && #[trigger] out@[j] == v@[m],
        decreases v.len() - i,
    {
        let y = v[i];
        let ghost before = out@;
        if y != x {
            out.push(y);
            proof {
                assert(out@[before.len() as int] == v@[i as int]);
            }
        }
        proof {
            assert forall|j: int| 0 <= j < out@.len() implies exists|m: int| 0 <= m < i + 1 && v@[m] == #[trigger] out@[j] by {
                if j < before.len() {
                    assert(out@[j] == before[j]);
                    let m = choose|m: int| 0 <= m < i && v@[m] == before[j];
                    assert(0 <= m < i + 1 && v@[m] == out@[j]);
                } else {
                    assert(0 <= i < i + 1 && v@[i as int] == out@[j]);
                }
            }
            assert forall|m: int| 0 <= m < i + 1 && v@[m] != x implies exists|j: int| 0 <= j < out@.len() && #[trigger] out@[j] == v@[m] by {
                if m < i {
                    let j = choose|j: int| 0 <= j < before.len() && before[j] == v@[m];
                    assert(out@[j] == before[j]);
                } else {
                    assert(out@[before.len() as int] == v@[m]);
                }
            }
        }
        i = i + 1;
    }
    let ghost s = v@;
    *v = out;
    assert(v@.to_set() =~= s.to_set().remove(x)) by {
        assert forall|n: NodeID| v@.contains(n) implies s.contains(n) && n != x by {
            let j = choose|j: int| 0 <= j < v@.len() && v@[j] == n;
            let m = choose|m: int| 0 <= m < s.len() && s[m] == v@[j];
        }
        assert forall|n: NodeID| s.contains(n) && n != x implies v@.contains(n) by {
            let m = choose|m: int| 0 <= m < s.len() && s[m] == n;
            let j = choose|j: int| 0 <= j < v@.len() && v@[j] == s[m];
        }
    }
}

/// Whether `a` and `b` hold the same nodes in the same order.
fn same_nodes(a: &Vec<NodeID>, b: &Vec<NodeID>) -> (r: bool)
    ensures
        r == (a@ == b@),
{
    if a.len() != b.len() {
        return false;
    }
    let mut i: usize = 0;
    while i < a.len()
        invariant
            a.len() == b.len(),
            i <= a.len(),
            forall|j: int| 0 <= j < i ==> a@[j] == b@[j],
        decreases a.len() - i,
    {
        if a[i] != b[i] {
            return false;
        }
        i = i + 1;
    }
    assert(a@ =~= b@);
    true
}

impl<H: Heuristic> KLookAheadMin<H> {
    /// The destination.
    pub closed spec fn target(&self) -> NodeID {
        self.target
    }

    /// The depth of the look-ahead.
    pub closed spec fn depth(&self) -> usize {
        self.k
    }

    /// The heuristic used at depth 0.
    pub closed spec fn final_heuristic(&self) -> H {
        self.final_heuristic
    }

    /// The nodes on the route being explored.
    pub closed spec fn visited_nodes(&self) -> Set<NodeID> {
        self.visited@.to_set()
    }

    /// The recorded predictions, by node and depth, with the route nodes each was made for.
    pub closed spec fn memo(&self) -> Map<(NodeID, usize), (Seq<NodeID>, HeuristicDelayResult)> {
        Map::new(
            |key: (NodeID, usize)|
                self.table@.contains_key(key.0) && self.table@[key.0]@.contains_key(key.1),
            |key: (NodeID, usize)|
                (self.table@[key.0]@[key.1].route@, self.table@[key.0]@[key.1].result),
        )
    }

    /// Computes the prediction for `tx_node` at depth `k` and records it in the
    /// table, computing first the predictions of the neighbours at depth
    /// `k - 1` that are not recorded for the same route nodes.
    pub fn compute_for_k(
        &mut self,
        k: usize,
        tx_node: NodeID,
        bundle: &Bundle,
        multigraph: &Multigraph,
        visited: &HashSet<NodeID>,
    )
        requires
            old(self).final_heuristic().inv(),
            table_sound(old(self).memo(), old(self).final_heuristic(), *multigraph, visited@, old(self).target()),
        ensures
            final(self).target() == old(self).target(),
            final(self).depth() == old(self).depth(),
            final(self).final_heuristic().inv(),
            keeps_settled(old(self).final_heuristic(), final(self).final_heuristic()),
            forall|t: NodeID|
                #[trigger] final(self).final_heuristic().aims_at(t) == old(self).final_heuristic().aims_at(t),
            final(self).visited_nodes() == visited_after(
                old(self).visited_nodes(),
                k as nat,
                tx_node,
                old(self).target(),
            ),
            table_sound(final(self).memo(), final(self).final_heuristic(), *multigraph, visited@, old(self).target()),
            final(self).memo().contains_key((tx_node, k)),
            final(self).memo()[(tx_node, k)].0.to_set() == old(self).visited_nodes().insert(tx_node),
            final(self).memo()[(tx_node, k)].1 == remaining(
                final(self).final_heuristic(),
                *multigraph,
                visited@,
                old(self).visited_nodes(),
                old(self).target(),
                tx_node,
                k as nat,
            ),
            remaining_settled(
                final(self).final_heuristic(),
                *multigraph,
                visited@,
                old(self).visited_nodes(),
                old(self).target(),
                tx_node,
                k as nat,
            ),
        decreases k,
    {
        let ghost fh0 = self.final_heuristic;
        let ghost vis0 = self.visited_nodes();
        let ghost memo0 = self.memo();
        proof {
            lemma_keeps_settled_refl(fh0);
            lemma_remaining_own_node(fh0, *multigraph, visited@, vis0, self.target, tx_node, k as nat);
        }
        if k == 0 {
            let heuristic_delay_result: HeuristicDelayResult =
                self.final_heuristic.compute_delay_heuristic(tx_node, bundle, multigraph, visited);
            let route = self.route_key(tx_node);
            self.add_to_table(tx_node, k, route, heuristic_delay_result);
            proof {
                lemma_table_stable(memo0, fh0, self.final_heuristic, *multigraph, visited@, self.target);
                lemma_remaining_own_node(self.final_heuristic, *multigraph, visited@, vis0, self.target, tx_node, 0);
            }
            return ;
        }
        if tx_node == self.target {
            let route = self.route_key(tx_node);
            self.add_to_table(
                tx_node,
                k,
                route,
                HeuristicDelayResult { heuristic_delay: 0, heuristic_remaining_hop_count: 0 },
            );
            return ;
        }
        let mut lowest_delay: HeuristicDelayResult = HeuristicDelayResult {
            heuristic_delay: Duration::MAX,
            heuristic_remaining_hop_count: HopCount::MAX,
        };
        self.add_node_to_visited(tx_node);
        let ghost vis1 = self.visited_nodes();
        let route = copy_nodes(&self.visited);
        let ghost rs = multigraph.receivers_of(tx_node);
        let level: usize = k - 1;
        if (tx_node as usize) < multigraph.senders.len() {
            let sender = &multigraph.senders[tx_node as usize];
            let mut i: usize = 0;
            while i < sender.receivers.len()
                invariant
                    sender.receivers@ == rs,
                    rs == multigraph.receivers_of(tx_node),
                    0 < k,
                    level == k - 1,
                    i <= rs.len(),
                    self.target == old(self).target(),
                    tx_node != self.target,
                    self.k == old(self).k,
                    self.final_heuristic.inv(),
                    keeps_settled(fh0, self.final_heuristic),
                    forall|t: NodeID| #[trigger] self.final_heuristic.aims_at(t) == fh0.aims_at(t),
                    self.visited_nodes() == vis1,
                    vis1 == vis0.insert(tx_node),
                    table_sound(self.memo(), self.final_heuristic, *multigraph, visited@, self.target),
                    lowest_delay == remaining_from(
                        self.final_heuristic,
                        *multigraph,
                        visited@,
                        vis1,
                        self.target,
                        tx_node,
                        k as nat,
                        i as nat,
                    ),
                    remaining_from_settled(
                        self.final_heuristic,
                        *multigraph,
                        visited@,
                        vis1,
                        self.target,
                        tx_node,
                        k as nat,
                        i as nat,
                    ),
                decreases rs.len() - i,
            {
                let receiver_id: NodeID = sender.receivers[i].node;
                let ghost fha = self.final_heuristic;
                if !(self.contains_node(receiver_id) || visited.contains(&receiver_id)) {
                    self.add_node_to_visited(receiver_id);
                    let key = self.route_key(receiver_id);
                    proof {
                        assert(vis1.insert(receiver_id).insert(receiver_id) =~= vis1.insert(receiver_id));
                    }
                    if self.recorded_for(receiver_id, level, &key).is_none() {
                        self.compute_for_k(level, receiver_id, bundle, multigraph, visited);
                        proof {
                            lemma_remaining_from_stable(
                                fha,
                                self.final_heuristic,
                                *multigraph,
                                visited@,
                                vis1,
                                self.target,
                                tx_node,
                                k as nat,
                                i as nat,
                            );
                            lemma_keeps_settled_trans(fh0, fha, self.final_heuristic);
                        }
                    } else {
                        proof {
                            assert(self.memo().contains_key((receiver_id, level)));
                        }
                    }
                    let receiver_delay: HeuristicDelayResult = *self.get_from_table(
                        receiver_id,
                        level,
                    ).unwrap();
                    let node_heuristic_delay: Duration =
                        receiver_delay.heuristic_delay.saturating_add(
                        multigraph.get_minimal_delay_between_sender_and_target(tx_node, receiver_id),
                    );
                    let node_heuristic_hop_count: HopCount =
                        receiver_delay.heuristic_remaining_hop_count.saturating_add(1);
                    if node_heuristic_delay < lowest_delay.heuristic_delay {
                        lowest_delay.heuristic_delay = node_heuristic_delay;
                        lowest_delay.heuristic_remaining_hop_count = node_heuristic_hop_count;
                    } else if node_heuristic_delay == lowest_delay.heuristic_delay
                        && node_heuristic_hop_count < lowest_delay.heuristic_remaining_hop_count {
                        lowest_delay.heuristic_delay = node_heuristic_delay;
                        lowest_delay.heuristic_remaining_hop_count = node_heuristic_hop_count;
                    }
                    self.remove_node_from_visited(receiver_id);
                    assert(self.visited_nodes() =~= vis1);
                }
                i = i + 1;
            }
        }
        self.remove_node_from_visited(tx_node);
        assert(self.visited_nodes() =~= vis0.remove(tx_node));
        let ghost memo2 = self.memo();
        self.add_to_table(tx_node, k, route, lowest_delay);
        proof {
            lemma_remaining_own_node(self.final_heuristic, *multigraph, visited@, vis0, self.target, tx_node, k as nat);
        }
    }

    /// The nodes on the route being explored, together with `tx_node`.
    fn route_key(&self, tx_node: NodeID) -> (r: Vec<NodeID>)
        ensures
            r@.to_set() == self.visited_nodes().insert(tx_node),
    {
        let mut r = copy_nodes(&self.visited);
        insert_node(&mut r, tx_node);
        r
    }

    /// Records `result` as the prediction for `tx_node` at depth `k`, made for the route nodes `route`.
    pub fn add_to_table(&mut self, tx_node: NodeID, k: usize, route: Vec<NodeID>, result: HeuristicDelayResult)
        ensures
            final(self).memo() == old(self).memo().insert((tx_node, k), (route@, result)),
            final(self).target() == old(self).target(),
            final(self).depth() == old(self).depth(),
            final(self).final_heuristic() == old(self).final_heuristic(),
            final(self).visited_nodes() == old(self).visited_nodes(),
    {
        if !self.table.contains_key(&tx_node) {
            self.table.insert(tx_node, HashMap::new());
        }
        let ghost route_view = route@;
        let mut per_depth = self.table.remove(&tx_node).unwrap();
        per_depth.insert(k, MemoEntry { route, result });
        self.table.insert(tx_node, per_depth);
        assert(self.memo() =~= old(self).memo().insert((tx_node, k), (route_view, result)));
    }

    /// The prediction recorded for `tx_node` at depth `k`, if any.
    pub fn get_from_table(&self, tx_node: NodeID, k: usize) -> (r: Option<&HeuristicDelayResult>)
        ensures
            r matches Some(v) ==> self.memo().contains_key((tx_node, k)) && *v == self.memo()[(
                tx_node,
                k,
            )].1,
            r is None ==> !self.memo().contains_key((tx_node, k)),
    {
        if let Some(map) = self.table.get(&tx_node) {
            if let Some(entry) = map.get(&k) {
                return Some(&entry.result);
            }
            return None;
        }
        return None;
    }

    /// The prediction recorded for `tx_node` at depth `k` if it was made for
    /// the route nodes `route`, in the same order.
    pub fn recorded_for(&self, tx_node: NodeID, k: usize, route: &Vec<NodeID>) -> (r: Option<
        &HeuristicDelayResult,
    >)
        ensures
            r matches Some(v) ==> self.memo().contains_key((tx_node, k)) && self.memo()[(
                tx_node,
                k,
            )].0 == route@ && *v == self.memo()[(tx_node, k)].1,
            r is None ==> !(self.memo().contains_key((tx_node, k)) && self.memo()[(
                tx_node,
                k,
            )].0 == route@),
    {
        if let Some(map) = self.table.get(&tx_node) {
            if let Some(entry) = map.get(&k) {
                if same_nodes(&entry.route, route) {
                    return Some(&entry.result);
                }
            }
        }
        return None;
    }

    /// Whether `node` is on the route being explored.
    pub fn contains_node(&self, node: NodeID) -> (b: bool)
        ensures
            b == self.visited_nodes().contains(node),
    {
        let mut i: usize = 0;
        while i < self.visited.len()
            invariant
                i <= self.visited.len(),
                forall|j: int| 0 <= j < i ==> self.visited@[j] != node,
            decreases self.visited.len() - i,
        {
            if self.visited[i] == node {
                assert(self.visited@.contains(node));
                return true;
            }
            i = i + 1;
        }
        false
    }

    /// Marks `node` as on the route being explored.
    pub fn add_node_to_visited(&mut self, node: NodeID)
        ensures
            final(self).visited_nodes() == old(self).visited_nodes().insert(node),
            final(self).memo() == old(self).memo(),
            final(self).target() == old(self).target(),
            final(self).depth() == old(self).depth(),
            final(self).final_heuristic() == old(self).final_heuristic(),
    {
        insert_node(&mut self.visited, node);
    }

    /// Unmarks `node`.
    pub fn remove_node_from_visited(&mut self, node: NodeID)
        ensures
            final(self).visited_nodes() == old(self).visited_nodes().remove(node),
            final(self).memo() == old(self).memo(),
            final(self).target() == old(self).target(),
            final(self).depth() == old(self).depth(),
            final(self).final_heuristic() == old(self).final_heuristic(),
    {
        remove_node(&mut self.visited, node);
    }
}

/// The arrival time and hop count predicted for `stage` when the remaining
/// cost from its node is `remaining`.
pub open spec fn with_remaining(stage: RouteStage, remaining: HeuristicDelayResult) -> HeuristicResult {
    HeuristicResult {
        at_time_heuristic: stage.at_time.saturating_add(remaining.heuristic_delay),
        hop_count_heuristic: stage.hop_count.saturating_add(remaining.heuristic_remaining_hop_count),
    }
}

impl<H: Heuristic> KLookAheadMin<H> {
    /// The remaining cost predicted from `tx` at the heuristic's depth, with
    /// the nodes of `excluded` not entered.
    pub open spec fn remaining_from_node(&self, tx: NodeID, graph: Multigraph, excluded: Set<NodeID>) -> HeuristicDelayResult {
        remaining(
            self.final_heuristic(),
            graph,
            excluded,
            Set::<NodeID>::empty(),
            self.target(),
            tx,
            self.depth() as nat,
        )
    }

    /// Whether the final-heuristic predictions that `remaining_from_node` uses are settled.
    pub open spec fn remaining_settled_from_node(&self, tx: NodeID, graph: Multigraph, excluded: Set<NodeID>) -> bool {
        remaining_settled(
            self.final_heuristic(),
            graph,
            excluded,
            Set::<NodeID>::empty(),
            self.target(),
            tx,
            self.depth() as nat,
        )
    }

    /// The predictions settled in `before` stay settled and unchanged in `self`
    /// when the final heuristic keeps its settled predictions.
    proof fn lemma_settled_kept(&self, before: Self)
        requires
            keeps_settled(before.final_heuristic(), self.final_heuristic()),
            self.target() == before.target(),
            self.depth() == before.depth(),
        ensures
            forall|t: NodeID, g: Multigraph, v: Set<NodeID>|
                #[trigger] before.remaining_settled_from_node(t, g, v) ==> self.remaining_settled_from_node(
                    t,
                    g,
                    v,
                ) && self.remaining_from_node(t, g, v) == before.remaining_from_node(t, g, v),
    {
        assert forall|t: NodeID, g: Multigraph, v: Set<NodeID>|
            #[trigger] before.remaining_settled_from_node(t, g, v) implies self.remaining_settled_from_node(
            t,
            g,
            v,
        ) && self.remaining_from_node(t, g, v) == before.remaining_from_node(t, g, v) by {
            lemma_remaining_stable(
                before.final_heuristic(),
                self.final_heuristic(),
                g,
                v,
                Set::<NodeID>::empty(),
                self.target(),
                t,
                self.depth() as nat,
            );
        }
    }
}

impl<H: Heuristic> Heuristic for KLookAheadMin<H> {
    open spec fn inv(&self) -> bool {
        &&& self.visited_nodes() == Set::<NodeID>::empty()
        &&& self.final_heuristic().inv()
    }

    /// The destination is the look-ahead's and the final heuristic's.
    open spec fn aims_at(&self, target: NodeID) -> bool {
        self.target() == target && self.final_heuristic().aims_at(target)
    }

    /// A prediction is settled once the final-heuristic predictions it uses are.
    open spec fn settled(&self, stage: RouteStage, graph: Multigraph, visited: Set<NodeID>) -> bool {
        self.remaining_settled_from_node(stage.to_node, graph, visited)
    }

    /// A prediction is settled once the final-heuristic predictions it uses are.
    open spec fn settled_delay(&self, tx: NodeID, graph: Multigraph, visited: Set<NodeID>) -> bool {
        self.remaining_settled_from_node(tx, graph, visited)
    }

    /// The stage's arrival and hop count, plus the remaining cost from its node.
    open spec fn predicted(&self, stage: RouteStage, graph: Multigraph, visited: Set<NodeID>) -> HeuristicResult {
        with_remaining(stage, self.remaining_from_node(stage.to_node, graph, visited))
    }

    /// The remaining cost from `tx`.
    open spec fn predicted_delay(&self, tx: NodeID, graph: Multigraph, visited: Set<NodeID>) -> HeuristicDelayResult {
        self.remaining_from_node(tx, graph, visited)
    }

    /// A look-ahead of three hops, towards node 0 until set up, with nothing recorded.
    fn new() -> (h: Self)
        ensures
            h.target() == 0,
            h.depth() == 3,
            h.memo() == Map::<(NodeID, usize), (Seq<NodeID>, HeuristicDelayResult)>::empty(),
    {
        let h = KLookAheadMin {
            target: 0,
            k: 3,
            final_heuristic: H::new(),
            table: HashMap::new(),
            visited: Vec::new(),
        };
        assert(h.memo() =~= Map::<(NodeID, usize), (Seq<NodeID>, HeuristicDelayResult)>::empty());
        assert(h.visited@.to_set() =~= Set::<NodeID>::empty());
        h
    }

    /// Predicts the arrival and hop count at the destination from the
    /// remaining cost from the stage's node, computed afresh for the nodes of
    /// `visited`: the predictions recorded before are dropped.
    fn compute_heuristics(
        &mut self,
        route_stage: &RouteStage,
        bundle: &Bundle,
        multigraph: &Multigraph,
        visited: &HashSet<NodeID>,
    ) -> (r: HeuristicResult)
        ensures
            final(self).target() == old(self).target(),
            final(self).depth() == old(self).depth(),
            keeps_settled(old(self).final_heuristic(), final(self).final_heuristic()),
            r == with_remaining(
                *route_stage,
                final(self).remaining_from_node(route_stage.to_node, *multigraph, visited@),
            ),
            final(self).memo().contains_key((route_stage.to_node, old(self).depth())),
            old(self).depth() > open_nodes(*multigraph, visited@.remove(route_stage.to_node)) ==> {
                let d = final(self).remaining_from_node(route_stage.to_node, *multigraph, visited@);
                &&& (d == unreachable_delay() || exists|route: Seq<NodeID>|
                    #[trigger] route_to_target(
                        *multigraph,
                        visited@,
                        Set::<NodeID>::empty(),
                        old(self).target(),
                        route_stage.to_node,
                        route,
                    ) && route_cost(*multigraph, route) == d)
                &&& forall|route: Seq<NodeID>|
                    #[trigger] route_to_target(
                        *multigraph,
                        visited@,
                        Set::<NodeID>::empty(),
                        old(self).target(),
                        route_stage.to_node,
                        route,
                    ) && route_cost(*multigraph, route).heuristic_delay < Duration::MAX ==> no_worse(
                        d,
                        route_cost(*multigraph, route),
                    )
            },
    {
        let ghost before = *self;
        self.table.clear();
        assert(self.memo() =~= Map::<(NodeID, usize), (Seq<NodeID>, HeuristicDelayResult)>::empty());
        self.compute_for_k(self.k, route_stage.to_node, bundle, multigraph, visited);
        assert(self.visited_nodes() =~= Set::<NodeID>::empty());
        proof {
            self.lemma_settled_kept(before);
            if self.k > open_nodes(*multigraph, visited@.remove(route_stage.to_node)) {
                assert(Set::<NodeID>::empty().union(visited@).remove(route_stage.to_node)
                    =~= visited@.remove(route_stage.to_node));
                remaining_beyond_open_nodes(
                    self.final_heuristic,
                    *multigraph,
                    visited@,
                    Set::<NodeID>::empty(),
                    self.target,
                    route_stage.to_node,
                    self.k as nat,
                );
            }
        }
        let lowest_delay = *self.get_from_table(route_stage.to_node, self.k).unwrap();
        HeuristicResult {
            at_time_heuristic: route_stage.at_time.saturating_add(lowest_delay.heuristic_delay),
            hop_count_heuristic: route_stage.hop_count.saturating_add(
                lowest_delay.heuristic_remaining_hop_count,
            ),
        }
    }

    /// The remaining cost from `tx_node`, computed afresh for the nodes of
    /// `visited`: the predictions recorded before are dropped.
    fn compute_delay_heuristic(
        &mut self,
        tx_node: NodeID,
        bundle: &Bundle,
        multigraph: &Multigraph,
        visited: &HashSet<NodeID>,
    ) -> (r: HeuristicDelayResult)
        ensures
            final(self).target() == old(self).target(),
            final(self).depth() == old(self).depth(),
            keeps_settled(old(self).final_heuristic(), final(self).final_heuristic()),
            r == final(self).remaining_from_node(tx_node, *multigraph, visited@),
            final(self).memo().contains_key((tx_node, old(self).depth())),
            old(self).depth() > open_nodes(*multigraph, visited@.remove(tx_node)) ==> {
                &&& (r == unreachable_delay() || exists|route: Seq<NodeID>|
                    #[trigger] route_to_target(
                        *multigraph,
                        visited@,
                        Set::<NodeID>::empty(),
                        old(self).target(),
                        tx_node,
                        route,
                    ) && route_cost(*multigraph, route) == r)
                &&& forall|route: Seq<NodeID>|
                    #[trigger] route_to_target(
                        *multigraph,
                        visited@,
                        Set::<NodeID>::empty(),
                        old(self).target(),
                        tx_node,
                        route,
                    ) && route_cost(*multigraph, route).heuristic_delay < Duration::MAX ==> no_worse(
                        r,
                        route_cost(*multigraph, route),
                    )
            },
    {
        let ghost before = *self;
        self.table.clear();
        assert(self.memo() =~= Map::<(NodeID, usize), (Seq<NodeID>, HeuristicDelayResult)>::empty());
        self.compute_for_k(self.k, tx_node, bundle, multigraph, visited);
        assert(self.visited_nodes() =~= Set::<NodeID>::empty());
        proof {
            self.lemma_settled_kept(before);
            if self.k > open_nodes(*multigraph, visited@.remove(tx_node)) {
                assert(Set::<NodeID>::empty().union(visited@).remove(tx_node) =~= visited@.remove(tx_node));
                remaining_beyond_open_nodes(
                    self.final_heuristic,
                    *multigraph,
                    visited@,
                    Set::<NodeID>::empty(),
                    self.target,
                    tx_node,
                    self.k as nat,
                );
            }
        }
        let lowest_delay = self.get_from_table(tx_node, self.k).unwrap();
        HeuristicDelayResult {
            heuristic_delay: lowest_delay.heuristic_delay,
            heuristic_remaining_hop_count: lowest_delay.heuristic_remaining_hop_count,
        }
    }

    /// Sets the final heuristic up, aims at the first destination of the
    /// bundle and drops the recorded predictions.
    fn setup(&mut self, bundle: &Bundle)
        ensures
            final(self).target() == bundle.destinations@[0],
            final(self).depth() == old(self).depth(),
            final(self).memo() == Map::<(NodeID, usize), (Seq<NodeID>, HeuristicDelayResult)>::empty(),
            final(self).final_heuristic().aims_at(bundle.destinations@[0]),
    {
        self.final_heuristic.setup(bundle);
        self.target = bundle.destinations[0];
        self.table.clear();
        assert(self.memo() =~= Map::<(NodeID, usize), (Seq<NodeID>, HeuristicDelayResult)>::empty());
    }
}

} // verus!
