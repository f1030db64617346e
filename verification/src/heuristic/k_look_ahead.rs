use vstd::prelude::*;
use std::collections::HashSet;
use crate::heuristic::{
    Heuristic, HeuristicDelayResult, HeuristicResult, keeps_settled, lemma_keeps_settled_refl,
    lemma_keeps_settled_trans,
};
use crate::multigraph::{Multigraph, Receiver};
use crate::pathfinding::{hop_result, lemma_hop_moves_forward, try_make_hop};
use crate::route_stage::RouteStage;
use crate::types::{Bundle, Date, HopCount, NodeID};

verus! {

/// The K-look-ahead heuristic. Besides the node of the stage itself, it
/// explores every route of at most `k` hops from it that avoids the nodes
/// already visited, and evaluates a final heuristic at the end of each such
/// route (or takes the route's own metrics when it reaches the destination).
/// The prediction is the least arrival time and the least hop count found.
/// This balances the accuracy of the heuristic against its cost: for `k = 0`
/// it is the final heuristic itself.
pub struct KLookAhead<H: Heuristic> {
    target: NodeID,
    k: usize,
    final_heuristic: H,
    visited: HashSet<NodeID>,
    best_at_time: Date,
    best_hop_count: HopCount,
}

/// `best` lowered, component by component, to the arrival time `at` and the hop count `hops`.
pub open spec fn lower_best(best: HeuristicResult, at: Date, hops: HopCount) -> HeuristicResult {
    HeuristicResult {
        at_time_heuristic: if at < best.at_time_heuristic {
            at
        } else {
            best.at_time_heuristic
        },
        hop_count_heuristic: if hops < best.hop_count_heuristic {
            hops
        } else {
            best.hop_count_heuristic
        },
    }
}

/// The predictions of the heuristic `h` for a graph and a set of visited nodes.
pub open spec fn leaf_of<H: Heuristic>(h: H, graph: Multigraph, visited: Set<NodeID>) -> spec_fn(
    RouteStage,
) -> HeuristicResult {
    |s: RouteStage| h.predicted(s, graph, visited)
}

/// The best metrics found by looking `k` hops ahead from `stage`, starting from
/// `best`: `leaf` evaluates the stages reached after `k` hops, the nodes of
/// `visited` and `excluded` are not entered, and a stage at `target` counts
/// with its own arrival time and predicted hop count.
pub open spec fn look_ahead(
    leaf: spec_fn(RouteStage) -> HeuristicResult,
    target: NodeID,
    k: nat,
    stage: RouteStage,
    graph: Multigraph,
    excluded: Set<NodeID>,
    visited: Set<NodeID>,
    best: HeuristicResult,
) -> HeuristicResult
    decreases k, 1int, 0int,
{
    if k == 0 {
        let r = leaf(stage);
        lower_best(best, r.at_time_heuristic, r.hop_count_heuristic)
    } else if stage.to_node == target {
        lower_best(best, stage.at_time, stage.hop_count_heuristic)
    } else {
        look_ahead_from(
            leaf,
            target,
            k,
            stage,
            graph,
            excluded,
            visited.insert(stage.to_node),
            graph.receivers_of(stage.to_node),
            0,
            best,
        )
    }
}

/// The best metrics found by looking ahead from `stage` through the receivers
/// `rs[i..]`, one after the other, starting from `best`.
pub open spec fn look_ahead_from(
    leaf: spec_fn(RouteStage) -> HeuristicResult,
    target: NodeID,
    k: nat,
    stage: RouteStage,
    graph: Multigraph,
    excluded: Set<NodeID>,
    visited: Set<NodeID>,
    rs: Seq<Receiver>,
    i: nat,
    best: HeuristicResult,
) -> HeuristicResult
    decreases k, 0int, rs.len() - i,
{
    if i >= rs.len() || k == 0 {
        best
    } else {
        let r = rs[i as int];
        let next = if visited.contains(r.node) || excluded.contains(r.node) {
            best
        } else {
            match r.first_index_after(stage.at_time) {
                Some(fi) => match hop_result(stage, r.contacts@, fi, r.node) {
                    Some(p) => look_ahead(
                        leaf,
                        target,
                        (k - 1) as nat,
                        p,
                        graph,
                        excluded,
                        visited.insert(r.node),
                        best,
                    ),
                    None => best,
                },
                None => best,
            }
        };
        look_ahead_from(leaf, target, k, stage, graph, excluded, visited, rs, i + 1, next)
    }
}

/// The nodes visited after a look-ahead of depth `k` from `node`.
pub open spec fn visited_after(visited: Set<NodeID>, k: nat, node: NodeID, target: NodeID) -> Set<
    NodeID,
> {
    if k == 0 || node == target {
        visited
    } else {
        visited.remove(node)
    }
}

/// Nothing found yet.
pub open spec fn nothing_found() -> HeuristicResult {
    HeuristicResult { at_time_heuristic: Date::MAX, hop_count_heuristic: HopCount::MAX }
}

/// Looking zero hops ahead gives the final heuristic's own prediction.
pub proof fn look_ahead_depth_zero_is_final_heuristic(
    leaf: spec_fn(RouteStage) -> HeuristicResult,
    target: NodeID,
    stage: RouteStage,
    graph: Multigraph,
    excluded: Set<NodeID>,
    visited: Set<NodeID>,
)
    ensures
        look_ahead(leaf, target, 0, stage, graph, excluded, visited, nothing_found()) == leaf(stage),
{
}

/// Looking ahead never raises the best metrics it starts from.
pub proof fn look_ahead_only_lowers(
    leaf: spec_fn(RouteStage) -> HeuristicResult,
    target: NodeID,
    k: nat,
    stage: RouteStage,
    graph: Multigraph,
    excluded: Set<NodeID>,
    visited: Set<NodeID>,
    best: HeuristicResult,
)
    ensures
        look_ahead(leaf, target, k, stage, graph, excluded, visited, best).at_time_heuristic
            <= best.at_time_heuristic,
        look_ahead(leaf, target, k, stage, graph, excluded, visited, best).hop_count_heuristic
            <= best.hop_count_heuristic,
    decreases k, 1int, 0int,
{
    if k > 0 && stage.to_node != target {
        look_ahead_from_only_lowers(
            leaf,
            target,
            k,
            stage,
            graph,
            excluded,
            visited.insert(stage.to_node),
            graph.receivers_of(stage.to_node),
            0,
            best,
        );
    }
}

proof fn look_ahead_from_only_lowers(
    leaf: spec_fn(RouteStage) -> HeuristicResult,
    target: NodeID,
    k: nat,
    stage: RouteStage,
    graph: Multigraph,
    excluded: Set<NodeID>,
    visited: Set<NodeID>,
    rs: Seq<Receiver>,
    i: nat,
    best: HeuristicResult,
)
    ensures
        look_ahead_from(leaf, target, k, stage, graph, excluded, visited, rs, i, best).at_time_heuristic
            <= best.at_time_heuristic,
        look_ahead_from(
            leaf,
            target,
            k,
            stage,
            graph,
            excluded,
            visited,
            rs,
            i,
            best,
        ).hop_count_heuristic <= best.hop_count_heuristic,
    decreases k, 0int, rs.len() - i,
{
    if i < rs.len() && k > 0 {
        let r = rs[i as int];
        let next = if visited.contains(r.node) || excluded.contains(r.node) {
            best
        } else {
            match r.first_index_after(stage.at_time) {
                Some(fi) => match hop_result(stage, r.contacts@, fi, r.node) {
                    Some(p) => {
                        look_ahead_only_lowers(
                            leaf,
                            target,
                            (k - 1) as nat,
                            p,
                            graph,
                            excluded,
                            visited.insert(r.node),
                            best,
                        );
                        look_ahead(
                            leaf,
                            target,
                            (k - 1) as nat,
                            p,
                            graph,
                            excluded,
                            visited.insert(r.node),
                            best,
                        )
                    },
                    None => best,
                },
                None => best,
            }
        };
        look_ahead_from_only_lowers(leaf, target, k, stage, graph, excluded, visited, rs, i + 1, next);
    }
}

/// The number of nodes of `graph` among the first `n` node numbers that are not in `visited`.
pub open spec fn open_nodes_below(graph: Multigraph, visited: Set<NodeID>, n: nat) -> nat
    decreases n,
{
    if n == 0 {
        0
    } else {
        let node = (n - 1) as NodeID;
        open_nodes_below(graph, visited, (n - 1) as nat) + if n - 1 < graph.senders@.len()
            && !visited.contains(node) {
            1nat
        } else {
            0nat
        }
    }
}

/// The number of nodes of `graph` that are not in `visited`.
pub open spec fn open_nodes(graph: Multigraph, visited: Set<NodeID>) -> nat {
    open_nodes_below(graph, visited, 0x10000)
}

/// Visiting a node of the graph that was open closes one node.
pub(crate) proof fn lemma_open_nodes_below_insert(graph: Multigraph, visited: Set<NodeID>, x: NodeID, n: nat)
    requires
        n <= 0x10000,
        (x as int) < graph.senders@.len(),
        !visited.contains(x),
    ensures
        open_nodes_below(graph, visited.insert(x), n) + (if (x as int) < n {
            1int
        } else {
            0int
        }) == open_nodes_below(graph, visited, n),
    decreases n,
{
    if n > 0 {
        lemma_open_nodes_below_insert(graph, visited, x, (n - 1) as nat);
        let node = (n - 1) as NodeID;
        assert(node as int == n - 1);
    }
}

/// Once the depth exceeds the number of nodes that the look-ahead can still
/// enter (those neither visited nor excluded, and the stage's own), the final heuristic is never consulted and looking deeper changes
/// nothing: the result is the best over all routes to the destination.
pub proof fn look_ahead_beyond_open_nodes(
    leaf1: spec_fn(RouteStage) -> HeuristicResult,
    leaf2: spec_fn(RouteStage) -> HeuristicResult,
    target: NodeID,
    k1: nat,
    k2: nat,
    stage: RouteStage,
    graph: Multigraph,
    excluded: Set<NodeID>,
    visited: Set<NodeID>,
    best: HeuristicResult,
)
    requires
        k1 > open_nodes(graph, visited.union(excluded).remove(stage.to_node)),
        k2 > open_nodes(graph, visited.union(excluded).remove(stage.to_node)),
    ensures
        look_ahead(leaf1, target, k1, stage, graph, excluded, visited, best) == look_ahead(
            leaf2,
            target,
            k2,
            stage,
            graph,
            excluded,
            visited,
            best,
        ),
    decreases k1, 1int, 0int,
{
    if stage.to_node != target {
        let n0 = stage.to_node;
        let rs = graph.receivers_of(n0);
        let entered = visited.insert(n0);
        if rs.len() > 0 {
            assert(visited.union(excluded).remove(n0).insert(n0) =~= entered.union(excluded));
            lemma_open_nodes_below_insert(graph, visited.union(excluded).remove(n0), n0, 0x10000);
        }
        look_ahead_from_beyond_open_nodes(
            leaf1,
            leaf2,
            target,
            k1,
            k2,
            stage,
            graph,
            excluded,
            entered,
            rs,
            0,
            best,
        );
    }
}

proof fn look_ahead_from_beyond_open_nodes(
    leaf1: spec_fn(RouteStage) -> HeuristicResult,
    leaf2: spec_fn(RouteStage) -> HeuristicResult,
    target: NodeID,
    k1: nat,
    k2: nat,
    stage: RouteStage,
    graph: Multigraph,
    excluded: Set<NodeID>,
    visited: Set<NodeID>,
    rs: Seq<Receiver>,
    i: nat,
    best: HeuristicResult,
)
    requires
        k1 > 0,
        k2 > 0,
        i < rs.len() ==> k1 - 1 > open_nodes(graph, visited.union(excluded)) && k2 - 1 > open_nodes(
            graph,
            visited.union(excluded),
        ),
    ensures
        look_ahead_from(leaf1, target, k1, stage, graph, excluded, visited, rs, i, best)
            == look_ahead_from(leaf2, target, k2, stage, graph, excluded, visited, rs, i, best),
    decreases k1, 0int, rs.len() - i,
{
    if i < rs.len() {
        let r = rs[i as int];
        let next = if visited.contains(r.node) || excluded.contains(r.node) {
            best
        } else {
            match r.first_index_after(stage.at_time) {
                Some(fi) => match hop_result(stage, r.contacts@, fi, r.node) {
                    Some(p) => {
                        lemma_hop_moves_forward(stage, r.contacts@, fi, r.node);
                        assert(visited.insert(r.node).union(excluded).remove(p.to_node)
                            =~= visited.union(excluded));
                        look_ahead_beyond_open_nodes(
                            leaf1,
                            leaf2,
                            target,
                            (k1 - 1) as nat,
                            (k2 - 1) as nat,
                            p,
                            graph,
                            excluded,
                            visited.insert(r.node),
                            best,
                        );
                        look_ahead(
                            leaf1,
                            target,
                            (k1 - 1) as nat,
                            p,
                            graph,
                            excluded,
                            visited.insert(r.node),
                            best,
                        )
                    },
                    None => best,
                },
                None => best,
            }
        };
        look_ahead_from_beyond_open_nodes(
            leaf1,
            leaf2,
            target,
            k1,
            k2,
            stage,
            graph,
            excluded,
            visited,
            rs,
            i + 1,
            next,
        );
    }
}

/// `p` is the hop from `stage` to the receiver `r`, over its contacts from the
/// first one still usable at the stage's arrival.
pub open spec fn hop_via(r: Receiver, stage: RouteStage, p: RouteStage) -> bool {
    match r.first_index_after(stage.at_time) {
        Some(fi) => hop_result(stage, r.contacts@, fi, r.node) == Some(p),
        None => false,
    }
}

/// `p` is the hop from `stage` to one of the receivers `rs[i..]`.
pub open spec fn hop_through(rs: Seq<Receiver>, i: nat, stage: RouteStage, p: RouteStage) -> bool {
    exists|j: int| i <= j < rs.len() && #[trigger] hop_via(rs[j], stage, p)
}

/// `stages` is a route of stages: each stage after the first is a hop from
/// the one before to one of its node's receivers, into a node that is neither
/// in `visited` nor `excluded` nor entered before; and no stage before the
/// last is at `target`.
pub open spec fn is_stage_route(
    graph: Multigraph,
    excluded: Set<NodeID>,
    visited: Set<NodeID>,
    target: NodeID,
    stages: Seq<RouteStage>,
) -> bool {
    forall|i: int| 1 <= i < stages.len() ==> #[trigger] stage_step(graph, excluded, visited, target, stages, i)
}

/// The stage `stages[i]` is a hop from `stages[i - 1]`, not at `target`, to a
/// receiver of its node, into a node that is neither in `visited` nor
/// `excluded` nor among the nodes of the stages before.
pub open spec fn stage_step(
    graph: Multigraph,
    excluded: Set<NodeID>,
    visited: Set<NodeID>,
    target: NodeID,
    stages: Seq<RouteStage>,
    i: int,
) -> bool {
    &&& stages[i - 1].to_node != target
    &&& hop_through(graph.receivers_of(stages[i - 1].to_node), 0, stages[i - 1], stages[i])
    &&& !visited.contains(stages[i].to_node)
    &&& !excluded.contains(stages[i].to_node)
    &&& forall|j: int| 0 <= j < i ==> stages[j].to_node != stages[i].to_node
}

/// A single stage is a route.
proof fn lemma_single_stage_route(
    graph: Multigraph,
    excluded: Set<NodeID>,
    visited: Set<NodeID>,
    target: NodeID,
    stage: RouteStage,
)
    ensures
        is_stage_route(graph, excluded, visited, target, seq![stage]),
{
}

/// The first hop of a route of stages.
proof fn lemma_stage_route_first_hop(
    graph: Multigraph,
    excluded: Set<NodeID>,
    visited: Set<NodeID>,
    target: NodeID,
    stages: Seq<RouteStage>,
)
    requires
        is_stage_route(graph, excluded, visited, target, stages),
        stages.len() >= 2,
    ensures
        stages[0].to_node != target,
        hop_through(graph.receivers_of(stages[0].to_node), 0, stages[0], stages[1]),
        !visited.contains(stages[1].to_node),
        !excluded.contains(stages[1].to_node),
        forall|i: int| 1 <= i < stages.len() ==> #[trigger] stages[i].to_node != stages[0].to_node,
{
    assert(stage_step(graph, excluded, visited, target, stages, 1));
    assert forall|i: int| 1 <= i < stages.len() implies #[trigger] stages[i].to_node != stages[0].to_node by {
        assert(stage_step(graph, excluded, visited, target, stages, i));
    }
}

/// A route of stages avoiding `v1` avoids its subset `v2`.
proof fn lemma_stage_route_fewer_visited(
    graph: Multigraph,
    excluded: Set<NodeID>,
    v1: Set<NodeID>,
    v2: Set<NodeID>,
    target: NodeID,
    stages: Seq<RouteStage>,
)
    requires
        is_stage_route(graph, excluded, v1, target, stages),
        v2.subset_of(v1),
    ensures
        is_stage_route(graph, excluded, v2, target, stages),
{
    assert forall|i: int| 1 <= i < stages.len() implies #[trigger] stage_step(
        graph,
        excluded,
        v2,
        target,
        stages,
        i,
    ) by {
        assert(stage_step(graph, excluded, v1, target, stages, i));
    }
}

/// A route of stages never enters its first node again.
proof fn lemma_stage_route_own_node(
    graph: Multigraph,
    excluded: Set<NodeID>,
    visited: Set<NodeID>,
    target: NodeID,
    stages: Seq<RouteStage>,
)
    requires
        is_stage_route(graph, excluded, visited, target, stages),
        stages.len() >= 1,
    ensures
        is_stage_route(graph, excluded, visited.insert(stages[0].to_node), target, stages),
{
    let v2 = visited.insert(stages[0].to_node);
    assert forall|i: int| 1 <= i < stages.len() implies #[trigger] stage_step(
        graph,
        excluded,
        v2,
        target,
        stages,
        i,
    ) by {
        assert(stage_step(graph, excluded, visited, target, stages, i));
    }
}

/// A route of stages from the hop `p` of `stage`, with `stage` put in front.
proof fn lemma_stage_route_prepend(
    graph: Multigraph,
    excluded: Set<NodeID>,
    visited: Set<NodeID>,
    target: NodeID,
    stage: RouteStage,
    q: Seq<RouteStage>,
)
    requires
        q.len() >= 1,
        is_stage_route(graph, excluded, visited.insert(q[0].to_node), target, q),
        stage.to_node != target,
        visited.contains(stage.to_node),
        hop_through(graph.receivers_of(stage.to_node), 0, stage, q[0]),
        !visited.contains(q[0].to_node),
        !excluded.contains(q[0].to_node),
    ensures
        is_stage_route(graph, excluded, visited, target, seq![stage] + q),
        (seq![stage] + q).drop_first() == q,
{
    let v2 = visited.insert(q[0].to_node);
    let sr = seq![stage] + q;
    assert forall|m: int| 1 <= m < sr.len() implies #[trigger] stage_step(
        graph,
        excluded,
        visited,
        target,
        sr,
        m,
    ) by {
        assert(sr[m] == q[m - 1]);
        if m > 1 {
            assert(sr[m - 1] == q[m - 2]);
            assert(stage_step(graph, excluded, v2, target, q, m - 1));
            assert(!v2.contains(q[m - 1].to_node));
            assert forall|j: int| 0 <= j < m implies sr[j].to_node != sr[m].to_node by {
                if j > 0 {
                    assert(sr[j] == q[j - 1]);
                }
            }
        }
    }
    assert(sr.drop_first() =~= q);
}

/// A route of stages without its first stage.
proof fn lemma_stage_route_rest(
    graph: Multigraph,
    excluded: Set<NodeID>,
    visited: Set<NodeID>,
    target: NodeID,
    stages: Seq<RouteStage>,
)
    requires
        is_stage_route(graph, excluded, visited, target, stages),
        stages.len() >= 2,
        visited.contains(stages[0].to_node),
    ensures
        is_stage_route(graph, excluded, visited.insert(stages[1].to_node), target, stages.drop_first()),
{
    let q = stages.drop_first();
    let v2 = visited.insert(stages[1].to_node);
    assert forall|m: int| 1 <= m < q.len() implies #[trigger] stage_step(
        graph,
        excluded,
        v2,
        target,
        q,
        m,
    ) by {
        assert(q[m] == stages[m + 1]);
        assert(q[m - 1] == stages[m]);
        assert(stage_step(graph, excluded, visited, target, stages, m + 1));
        assert(stages[1].to_node != stages[m + 1].to_node);
        assert forall|j: int| 0 <= j < m implies q[j].to_node != q[m].to_node by {
            assert(q[j] == stages[j + 1]);
        }
    }
}

/// `stages` is a route of stages from `stage` that ends in a leaf of a
/// look-ahead of depth `k`: after `k` hops, or at `target` sooner.
pub open spec fn leaf_route(
    graph: Multigraph,
    excluded: Set<NodeID>,
    visited: Set<NodeID>,
    target: NodeID,
    k: nat,
    stage: RouteStage,
    stages: Seq<RouteStage>,
) -> bool {
    &&& stages.len() >= 1
    &&& stages[0] == stage
    &&& is_stage_route(graph, excluded, visited, target, stages)
    &&& stages.len() - 1 <= k
    &&& (stages.len() - 1 == k || stages.last().to_node == target)
}

/// The metrics of the leaf that ends `stages` in a look-ahead of depth `k`:
/// the final heuristic's after `k` hops, the stage's own at the destination.
pub open spec fn leaf_value(
    leaf: spec_fn(RouteStage) -> HeuristicResult,
    k: nat,
    stages: Seq<RouteStage>,
) -> HeuristicResult {
    if stages.len() - 1 == k {
        leaf(stages.last())
    } else {
        HeuristicResult {
            at_time_heuristic: stages.last().at_time,
            hop_count_heuristic: stages.last().hop_count_heuristic,
        }
    }
}

/// `res` is no greater, component by component, than the leaf value of any
/// leaf route from `stage` whose first hop is to one of the receivers `rs[i..]`.
pub open spec fn below_leaves_through(
    res: HeuristicResult,
    leaf: spec_fn(RouteStage) -> HeuristicResult,
    graph: Multigraph,
    excluded: Set<NodeID>,
    visited: Set<NodeID>,
    target: NodeID,
    k: nat,
    stage: RouteStage,
    rs: Seq<Receiver>,
    i: nat,
) -> bool {
    forall|stages: Seq<RouteStage>|
        #[trigger] leaf_route(graph, excluded, visited, target, k, stage, stages) && stages.len() >= 2
            && hop_through(rs, i, stage, stages[1]) ==> res.at_time_heuristic <= leaf_value(
            leaf,
            k,
            stages,
        ).at_time_heuristic && res.hop_count_heuristic <= leaf_value(leaf, k, stages).hop_count_heuristic
}

/// Each component of `res` is that of `best` or the leaf value of some leaf
/// route from `stage` whose first hop is to one of the receivers `rs[i..]`.
pub open spec fn from_leaves_through(
    res: HeuristicResult,
    best: HeuristicResult,
    leaf: spec_fn(RouteStage) -> HeuristicResult,
    graph: Multigraph,
    excluded: Set<NodeID>,
    visited: Set<NodeID>,
    target: NodeID,
    k: nat,
    stage: RouteStage,
    rs: Seq<Receiver>,
    i: nat,
) -> bool {
    &&& (res.at_time_heuristic == best.at_time_heuristic || exists|stages: Seq<RouteStage>|
        #[trigger] leaf_route(graph, excluded, visited, target, k, stage, stages) && stages.len() >= 2
            && hop_through(rs, i, stage, stages[1]) && res.at_time_heuristic == leaf_value(
            leaf,
            k,
            stages,
        ).at_time_heuristic)
    &&& (res.hop_count_heuristic == best.hop_count_heuristic || exists|stages: Seq<RouteStage>|
        #[trigger] leaf_route(graph, excluded, visited, target, k, stage, stages) && stages.len() >= 2
            && hop_through(rs, i, stage, stages[1]) && res.hop_count_heuristic == leaf_value(
            leaf,
            k,
            stages,
        ).hop_count_heuristic)
}

/// `res` is, component by component, the least of `best` and of the leaf
/// values of the leaf routes from `stage`.
pub open spec fn least_over_leaves(
    res: HeuristicResult,
    best: HeuristicResult,
    leaf: spec_fn(RouteStage) -> HeuristicResult,
    graph: Multigraph,
    excluded: Set<NodeID>,
    visited: Set<NodeID>,
    target: NodeID,
    k: nat,
    stage: RouteStage,
) -> bool {
    &&& res.at_time_heuristic <= best.at_time_heuristic
    &&& res.hop_count_heuristic <= best.hop_count_heuristic
    &&& forall|stages: Seq<RouteStage>|
        #[trigger] leaf_route(graph, excluded, visited, target, k, stage, stages)
            ==> res.at_time_heuristic <= leaf_value(leaf, k, stages).at_time_heuristic
            && res.hop_count_heuristic <= leaf_value(leaf, k, stages).hop_count_heuristic
    &&& (res.at_time_heuristic == best.at_time_heuristic || exists|stages: Seq<RouteStage>|
        #[trigger] leaf_route(graph, excluded, visited, target, k, stage, stages)
            && res.at_time_heuristic == leaf_value(leaf, k, stages).at_time_heuristic)
    &&& (res.hop_count_heuristic == best.hop_count_heuristic || exists|stages: Seq<RouteStage>|
        #[trigger] leaf_route(graph, excluded, visited, target, k, stage, stages)
            && res.hop_count_heuristic == leaf_value(leaf, k, stages).hop_count_heuristic)
}

/// Looking `k` hops ahead from `stage` gives, component by component, the
/// least of `best` and of the leaf values over all routes of stages from
/// `stage` of at most `k` hops that enter no node twice and none of `visited`
/// and `excluded`: the final heuristic's metrics after `k` hops, the stage's
/// own on reaching the destination sooner.
pub proof fn look_ahead_is_least_over_leaves(
    leaf: spec_fn(RouteStage) -> HeuristicResult,
    target: NodeID,
    k: nat,
    stage: RouteStage,
    graph: Multigraph,
    excluded: Set<NodeID>,
    visited: Set<NodeID>,
    best: HeuristicResult,
)
    ensures
        least_over_leaves(
            look_ahead(leaf, target, k, stage, graph, excluded, visited, best),
            best,
            leaf,
            graph,
            excluded,
            visited,
            target,
            k,
            stage,
        ),
    decreases k, 2int, 0int,
{
    let res = look_ahead(leaf, target, k, stage, graph, excluded, visited, best);
    let single = seq![stage];
    if k == 0 || stage.to_node == target {
        lemma_single_stage_route(graph, excluded, visited, target, stage);
        assert(leaf_route(graph, excluded, visited, target, k, stage, single));
        assert forall|stages: Seq<RouteStage>|
            #[trigger] leaf_route(graph, excluded, visited, target, k, stage, stages) implies stages
            =~= single by {
            if stages.len() > 1 {
                lemma_stage_route_first_hop(graph, excluded, visited, target, stages);
            }
        }
    } else {
        let entered = visited.insert(stage.to_node);
        let rs = graph.receivers_of(stage.to_node);
        look_ahead_from_is_least_over_leaves(leaf, target, k, stage, graph, excluded, entered, rs, 0, best);
        assert forall|stages: Seq<RouteStage>|
            #[trigger] leaf_route(graph, excluded, visited, target, k, stage, stages) implies leaf_route(
            graph,
            excluded,
            entered,
            target,
            k,
            stage,
            stages,
        ) && stages.len() >= 2 && hop_through(rs, 0, stage, stages[1]) by {
            lemma_stage_route_own_node(graph, excluded, visited, target, stages);
            lemma_stage_route_first_hop(graph, excluded, visited, target, stages);
        }
        assert forall|stages: Seq<RouteStage>|
            #[trigger] leaf_route(graph, excluded, entered, target, k, stage, stages) implies leaf_route(
            graph,
            excluded,
            visited,
            target,
            k,
            stage,
            stages,
        ) by {
            lemma_stage_route_fewer_visited(graph, excluded, entered, visited, target, stages);
        }
    }
}

proof fn look_ahead_from_is_least_over_leaves(
    leaf: spec_fn(RouteStage) -> HeuristicResult,
    target: NodeID,
    k: nat,
    stage: RouteStage,
    graph: Multigraph,
    excluded: Set<NodeID>,
    visited: Set<NodeID>,
    rs: Seq<Receiver>,
    i: nat,
    best: HeuristicResult,
)
    requires
        k > 0,
        stage.to_node != target,
        visited.contains(stage.to_node),
        rs == graph.receivers_of(stage.to_node),
    ensures
        ({
            let res = look_ahead_from(leaf, target, k, stage, graph, excluded, visited, rs, i, best);
            &&& res.at_time_heuristic <= best.at_time_heuristic
            &&& res.hop_count_heuristic <= best.hop_count_heuristic
            &&& below_leaves_through(res, leaf, graph, excluded, visited, target, k, stage, rs, i)
            &&& from_leaves_through(res, best, leaf, graph, excluded, visited, target, k, stage, rs, i)
        }),
    decreases k, 1int, rs.len() - i,
{
    let res = look_ahead_from(leaf, target, k, stage, graph, excluded, visited, rs, i, best);
    if i < rs.len() {
        let r = rs[i as int];
        let next = if visited.contains(r.node) || excluded.contains(r.node) {
            best
        } else {
            match r.first_index_after(stage.at_time) {
                Some(fi) => match hop_result(stage, r.contacts@, fi, r.node) {
                    Some(p) => look_ahead(leaf, target, (k - 1) as nat, p, graph, excluded, visited.insert(r.node), best),
                    None => best,
                },
                None => best,
            }
        };
        look_ahead_from_is_least_over_leaves(leaf, target, k, stage, graph, excluded, visited, rs, i + 1, next);
        assert(res == look_ahead_from(leaf, target, k, stage, graph, excluded, visited, rs, i + 1, next));
        let skip = visited.contains(r.node) || excluded.contains(r.node);
        let hops_here = !skip && r.first_index_after(stage.at_time) is Some && hop_result(
            stage,
            r.contacts@,
            r.first_index_after(stage.at_time)->0,
            r.node,
        ) is Some;
        if hops_here {
            let fi = r.first_index_after(stage.at_time)->0;
            let p = hop_result(stage, r.contacts@, fi, r.node)->0;
            lemma_hop_moves_forward(stage, r.contacts@, fi, r.node);
            lemma_first_hop_here(leaf, target, k, stage, graph, excluded, visited, rs, i, best, p);
        } else {
            lemma_no_hop_here(leaf, target, k, stage, graph, excluded, visited, rs, i, res);
        }
        lemma_split_through(leaf, target, k, stage, graph, excluded, visited, rs, i, res, next, best, hops_here);
    }
}

/// Through the receivers `rs[i..]`: through `rs[i]`, or through `rs[i + 1..]`.
#[verifier::rlimit(50)]
proof fn lemma_split_through(
    leaf: spec_fn(RouteStage) -> HeuristicResult,
    target: NodeID,
    k: nat,
    stage: RouteStage,
    graph: Multigraph,
    excluded: Set<NodeID>,
    visited: Set<NodeID>,
    rs: Seq<Receiver>,
    i: nat,
    res: HeuristicResult,
    next: HeuristicResult,
    best: HeuristicResult,
    hops_here: bool,
)
    requires
        i < rs.len(),
        res.at_time_heuristic <= next.at_time_heuristic,
        res.hop_count_heuristic <= next.hop_count_heuristic,
        below_leaves_through(res, leaf, graph, excluded, visited, target, k, stage, rs, i + 1),
        from_leaves_through(res, next, leaf, graph, excluded, visited, target, k, stage, rs, i + 1),
        next.at_time_heuristic <= best.at_time_heuristic,
        next.hop_count_heuristic <= best.hop_count_heuristic,
        forall|stages: Seq<RouteStage>|
            #[trigger] leaf_route(graph, excluded, visited, target, k, stage, stages) && stages.len() >= 2
                && hop_via(rs[i as int], stage, stages[1]) ==> next.at_time_heuristic <= leaf_value(
                leaf,
                k,
                stages,
            ).at_time_heuristic && next.hop_count_heuristic <= leaf_value(leaf, k, stages).hop_count_heuristic,
        from_leaves_through(next, best, leaf, graph, excluded, visited, target, k, stage, rs, i),
    ensures
        below_leaves_through(res, leaf, graph, excluded, visited, target, k, stage, rs, i),
        from_leaves_through(res, best, leaf, graph, excluded, visited, target, k, stage, rs, i),
{
    assert forall|stages: Seq<RouteStage>|
        #[trigger] leaf_route(graph, excluded, visited, target, k, stage, stages) && stages.len() >= 2
            && hop_through(rs, i, stage, stages[1]) implies res.at_time_heuristic <= leaf_value(
        leaf,
        k,
        stages,
    ).at_time_heuristic && res.hop_count_heuristic <= leaf_value(leaf, k, stages).hop_count_heuristic by {
        let j = choose|j: int| i <= j < rs.len() && #[trigger] hop_via(rs[j], stage, stages[1]);
        if j > i {
            assert(hop_through(rs, i + 1, stage, stages[1]));
        }
    }
    if res.at_time_heuristic != next.at_time_heuristic {
        let stages = choose|stages: Seq<RouteStage>|
            #[trigger] leaf_route(graph, excluded, visited, target, k, stage, stages) && stages.len() >= 2
                && hop_through(rs, i + 1, stage, stages[1]) && res.at_time_heuristic == leaf_value(
                leaf,
                k,
                stages,
            ).at_time_heuristic;
        let j = choose|j: int| i + 1 <= j < rs.len() && #[trigger] hop_via(rs[j], stage, stages[1]);
        assert(hop_through(rs, i, stage, stages[1]));
    }
    if res.hop_count_heuristic != next.hop_count_heuristic {
        let stages = choose|stages: Seq<RouteStage>|
            #[trigger] leaf_route(graph, excluded, visited, target, k, stage, stages) && stages.len() >= 2
                && hop_through(rs, i + 1, stage, stages[1]) && res.hop_count_heuristic == leaf_value(
                leaf,
                k,
                stages,
            ).hop_count_heuristic;
        let j = choose|j: int| i + 1 <= j < rs.len() && #[trigger] hop_via(rs[j], stage, stages[1]);
        assert(hop_through(rs, i, stage, stages[1]));
    }
}

/// No leaf route goes first through `rs[i]` when it is skipped or cannot be reached.
proof fn lemma_no_hop_here(
    leaf: spec_fn(RouteStage) -> HeuristicResult,
    target: NodeID,
    k: nat,
    stage: RouteStage,
    graph: Multigraph,
    excluded: Set<NodeID>,
    visited: Set<NodeID>,
    rs: Seq<Receiver>,
    i: nat,
    res: HeuristicResult,
)
    requires
        i < rs.len(),
        !(!(visited.contains(rs[i as int].node) || excluded.contains(rs[i as int].node))
            && rs[i as int].first_index_after(stage.at_time) is Some && hop_result(
            stage,
            rs[i as int].contacts@,
            rs[i as int].first_index_after(stage.at_time)->0,
            rs[i as int].node,
        ) is Some),
    ensures
        forall|stages: Seq<RouteStage>|
            #[trigger] leaf_route(graph, excluded, visited, target, k, stage, stages) && stages.len() >= 2
                ==> !hop_via(rs[i as int], stage, stages[1]),
{
    let r = rs[i as int];
    assert forall|stages: Seq<RouteStage>|
        #[trigger] leaf_route(graph, excluded, visited, target, k, stage, stages) && stages.len() >= 2
        implies !hop_via(r, stage, stages[1]) by {
        if hop_via(r, stage, stages[1]) {
            lemma_stage_route_first_hop(graph, excluded, visited, target, stages);
            let fi = r.first_index_after(stage.at_time)->0;
            lemma_hop_moves_forward(stage, r.contacts@, fi, r.node);
        }
    }
}

/// The leaf routes through the hop `p` to `rs[i]` are those of the look-ahead from `p`.
#[verifier::rlimit(50)]
proof fn lemma_first_hop_here(
    leaf: spec_fn(RouteStage) -> HeuristicResult,
    target: NodeID,
    k: nat,
    stage: RouteStage,
    graph: Multigraph,
    excluded: Set<NodeID>,
    visited: Set<NodeID>,
    rs: Seq<Receiver>,
    i: nat,
    best: HeuristicResult,
    p: RouteStage,
)
    requires
        k > 0,
        i < rs.len(),
        stage.to_node != target,
        visited.contains(stage.to_node),
        rs == graph.receivers_of(stage.to_node),
        !(visited.contains(rs[i as int].node) || excluded.contains(rs[i as int].node)),
        hop_via(rs[i as int], stage, p),
        p.to_node == rs[i as int].node,
    ensures
        ({
            let next = look_ahead(
                leaf,
                target,
                (k - 1) as nat,
                p,
                graph,
                excluded,
                visited.insert(rs[i as int].node),
                best,
            );
            &&& next.at_time_heuristic <= best.at_time_heuristic
            &&& next.hop_count_heuristic <= best.hop_count_heuristic
            &&& forall|stages: Seq<RouteStage>|
                #[trigger] leaf_route(graph, excluded, visited, target, k, stage, stages) && stages.len()
                    >= 2 && hop_via(rs[i as int], stage, stages[1]) ==> next.at_time_heuristic
                    <= leaf_value(leaf, k, stages).at_time_heuristic && next.hop_count_heuristic
                    <= leaf_value(leaf, k, stages).hop_count_heuristic
            &&& from_leaves_through(next, best, leaf, graph, excluded, visited, target, k, stage, rs, i)
        }),
    decreases k, 0int, 0int,
{
    let r = rs[i as int];
    let v2 = visited.insert(r.node);
    let k1 = (k - 1) as nat;
    let next = look_ahead(leaf, target, k1, p, graph, excluded, v2, best);
    look_ahead_is_least_over_leaves(leaf, target, k1, p, graph, excluded, v2, best);
    assert(hop_through(rs, i, stage, p));
    assert(hop_through(rs, 0, stage, p));
    assert forall|stages: Seq<RouteStage>|
        #[trigger] leaf_route(graph, excluded, visited, target, k, stage, stages) && stages.len() >= 2
            && hop_via(r, stage, stages[1]) implies next.at_time_heuristic <= leaf_value(
        leaf,
        k,
        stages,
    ).at_time_heuristic && next.hop_count_heuristic <= leaf_value(leaf, k, stages).hop_count_heuristic by {
        assert(stages[1] == p);
        lemma_stage_route_rest(graph, excluded, visited, target, stages);
        let q = stages.drop_first();
        assert(q[0] == p);
        assert(q.last() == stages.last());
        assert(stages[0].to_node != target) by {
            lemma_stage_route_first_hop(graph, excluded, visited, target, stages);
        }
        assert(leaf_route(graph, excluded, v2, target, k1, p, q));
        assert(leaf_value(leaf, k, stages) == leaf_value(leaf, k1, q));
    }
    if next.at_time_heuristic != best.at_time_heuristic {
        let q = choose|q: Seq<RouteStage>|
            #[trigger] leaf_route(graph, excluded, v2, target, k1, p, q) && next.at_time_heuristic
                == leaf_value(leaf, k1, q).at_time_heuristic;
        lemma_stage_route_prepend(graph, excluded, visited, target, stage, q);
        let sr = seq![stage] + q;
        assert(sr[1] == p);
        assert(sr.last() == q.last());
        assert(leaf_route(graph, excluded, visited, target, k, stage, sr));
        assert(leaf_value(leaf, k, sr) == leaf_value(leaf, k1, q));
    }
    if next.hop_count_heuristic != best.hop_count_heuristic {
        let q = choose|q: Seq<RouteStage>|
            #[trigger] leaf_route(graph, excluded, v2, target, k1, p, q) && next.hop_count_heuristic
                == leaf_value(leaf, k1, q).hop_count_heuristic;
        lemma_stage_route_prepend(graph, excluded, visited, target, stage, q);
        let sr = seq![stage] + q;
        assert(sr[1] == p);
        assert(sr.last() == q.last());
        assert(leaf_route(graph, excluded, visited, target, k, stage, sr));
        assert(leaf_value(leaf, k, sr) == leaf_value(leaf, k1, q));
    }
}

/// Whether every prediction of `h` that looking `k` hops ahead from `stage` uses is settled.
pub open spec fn la_settled<H: Heuristic>(
    h: H,
    target: NodeID,
    k: nat,
    stage: RouteStage,
    graph: Multigraph,
    excluded: Set<NodeID>,
    visited: Set<NodeID>,
) -> bool
    decreases k, 1int, 0int,
{
    if k == 0 {
        h.settled(stage, graph, excluded)
    } else if stage.to_node == target {
        true
    } else {
        la_settled_from(
            h,
            target,
            k,
            stage,
            graph,
            excluded,
            visited.insert(stage.to_node),
            graph.receivers_of(stage.to_node),
            0,
        )
    }
}

/// Whether every prediction of `h` used through the receivers `rs[i..]` is settled.
pub open spec fn la_settled_from<H: Heuristic>(
    h: H,
    target: NodeID,
    k: nat,
    stage: RouteStage,
    graph: Multigraph,
    excluded: Set<NodeID>,
    visited: Set<NodeID>,
    rs: Seq<Receiver>,
    i: nat,
) -> bool
    decreases k, 0int, rs.len() - i,
{
    if i >= rs.len() || k == 0 {
        true
    } else {
        let r = rs[i as int];
        let here = if visited.contains(r.node) || excluded.contains(r.node) {
            true
        } else {
            match r.first_index_after(stage.at_time) {
                Some(fi) => match hop_result(stage, r.contacts@, fi, r.node) {
                    Some(p) => la_settled(
                        h,
                        target,
                        (k - 1) as nat,
                        p,
                        graph,
                        excluded,
                        visited.insert(r.node),
                    ),
                    None => true,
                },
                None => true,
            }
        };
        here && la_settled_from(h, target, k, stage, graph, excluded, visited, rs, i + 1)
    }
}

/// A look-ahead whose predictions are settled gives the same result from any
/// later state of the final heuristic, where they are still settled.
pub proof fn lemma_look_ahead_stable<H: Heuristic>(
    h1: H,
    h2: H,
    target: NodeID,
    k: nat,
    stage: RouteStage,
    graph: Multigraph,
    excluded: Set<NodeID>,
    visited: Set<NodeID>,
    best: HeuristicResult,
)
    requires
        la_settled(h1, target, k, stage, graph, excluded, visited),
        keeps_settled(h1, h2),
    ensures
        la_settled(h2, target, k, stage, graph, excluded, visited),
        look_ahead(leaf_of(h1, graph, excluded), target, k, stage, graph, excluded, visited, best)
            == look_ahead(leaf_of(h2, graph, excluded), target, k, stage, graph, excluded, visited, best),
    decreases k, 1int, 0int,
{
    if k == 0 {
        assert(h1.settled(stage, graph, excluded));
    } else if stage.to_node != target {
        lemma_look_ahead_from_stable(
            h1,
            h2,
            target,
            k,
            stage,
            graph,
            excluded,
            visited.insert(stage.to_node),
            graph.receivers_of(stage.to_node),
            0,
            best,
        );
    }
}

proof fn lemma_look_ahead_from_stable<H: Heuristic>(
    h1: H,
    h2: H,
    target: NodeID,
    k: nat,
    stage: RouteStage,
    graph: Multigraph,
    excluded: Set<NodeID>,
    visited: Set<NodeID>,
    rs: Seq<Receiver>,
    i: nat,
    best: HeuristicResult,
)
    requires
        la_settled_from(h1, target, k, stage, graph, excluded, visited, rs, i),
        keeps_settled(h1, h2),
    ensures
        la_settled_from(h2, target, k, stage, graph, excluded, visited, rs, i),
        look_ahead_from(leaf_of(h1, graph, excluded), target, k, stage, graph, excluded, visited, rs, i, best)
            == look_ahead_from(leaf_of(h2, graph, excluded), target, k, stage, graph, excluded, visited, rs, i, best),
    decreases k, 0int, rs.len() - i,
{
    if i < rs.len() && k > 0 {
        let r = rs[i as int];
        if visited.contains(r.node) || excluded.contains(r.node) {
            lemma_look_ahead_from_stable(h1, h2, target, k, stage, graph, excluded, visited, rs, i + 1, best);
        } else {
            match r.first_index_after(stage.at_time) {
                Some(fi) => match hop_result(stage, r.contacts@, fi, r.node) {
                    Some(p) => {
                        lemma_look_ahead_stable(
                            h1,
                            h2,
                            target,
                            (k - 1) as nat,
                            p,
                            graph,
                            excluded,
                            visited.insert(r.node),
                            best,
                        );
                        let next = look_ahead(
                            leaf_of(h1, graph, excluded),
                            target,
                            (k - 1) as nat,
                            p,
                            graph,
                            excluded,
                            visited.insert(r.node),
                            best,
                        );
                        lemma_look_ahead_from_stable(
                            h1, h2, target, k, stage, graph, excluded, visited, rs, i + 1, next);
                    },
                    None => {
                        lemma_look_ahead_from_stable(
                            h1, h2, target, k, stage, graph, excluded, visited, rs, i + 1, best);
                    },
                },
                None => {
                    lemma_look_ahead_from_stable(h1, h2, target, k, stage, graph, excluded, visited, rs, i + 1, best);
                },
            }
        }
    }
}

impl<H: Heuristic> KLookAhead<H> {
    /// The destination.
    pub closed spec fn target(&self) -> NodeID {
        self.target
    }

    /// The depth of the look-ahead.
    pub closed spec fn depth(&self) -> nat {
        self.k as nat
    }

    /// The heuristic evaluated at the end of the explored routes.
    pub closed spec fn final_heuristic(&self) -> H {
        self.final_heuristic
    }

    /// The nodes on the route being explored.
    pub closed spec fn visited_nodes(&self) -> Set<NodeID> {
        self.visited@
    }

    /// The best metrics found so far.
    pub closed spec fn best(&self) -> HeuristicResult {
        HeuristicResult {
            at_time_heuristic: self.best_at_time,
            hop_count_heuristic: self.best_hop_count,
        }
    }

    /// Explores the routes of at most `k` hops from `route_stage` and lowers
    /// the best metrics with what it finds there. The nodes it marks visited
    /// on the way are unmarked again, and the stage's own node too.
    pub fn compute_for_k(
        &mut self,
        k: usize,
        route_stage: &RouteStage,
        bundle: &Bundle,
        multigraph: &Multigraph,
        visited: &HashSet<NodeID>,
    )
        requires
            old(self).final_heuristic().inv(),
        ensures
            final(self).target() == old(self).target(),
            final(self).depth() == old(self).depth(),
            final(self).final_heuristic().inv(),
            keeps_settled(old(self).final_heuristic(), final(self).final_heuristic()),
            forall|t: NodeID|
                #[trigger] final(self).final_heuristic().aims_at(t) == old(self).final_heuristic().aims_at(t),
            final(self).visited_nodes() == visited_after(
                old(self).visited_nodes(),
                k as nat,
                route_stage.to_node,
                old(self).target(),
            ),
            la_settled(
                final(self).final_heuristic(),
                old(self).target(),
                k as nat,
                *route_stage,
                *multigraph,
                visited@,
                old(self).visited_nodes(),
            ),
            final(self).best() == look_ahead(
                leaf_of(final(self).final_heuristic(), *multigraph, visited@),
                old(self).target(),
                k as nat,
                *route_stage,
                *multigraph,
                visited@,
                old(self).visited_nodes(),
                old(self).best(),
            ),
            final(self).best().at_time_heuristic <= old(self).best().at_time_heuristic,
            final(self).best().hop_count_heuristic <= old(self).best().hop_count_heuristic,
            final(self).best().at_time_heuristic >= old(self).best().at_time_heuristic
                || final(self).best().at_time_heuristic >= route_stage.at_time,
            k > 0 && route_stage.to_node == old(self).target() ==> final(self).final_heuristic()
                == old(self).final_heuristic(),
        decreases k,
    {
        let ghost fh0 = self.final_heuristic;
        let ghost best0 = self.best();
        let ghost vis0 = self.visited@;
        proof {
            lemma_keeps_settled_refl(fh0);
        }
        if k == 0 {
            let heuristic_result: HeuristicResult = self.final_heuristic.compute_heuristics(
                route_stage,
                bundle,
                multigraph,
                visited,
            );
            self.check_for_best_date(heuristic_result.at_time_heuristic);
            self.check_for_best_hop_count(heuristic_result.hop_count_heuristic);
            return ;
        }
        if route_stage.to_node == self.target {
            self.check_for_best_date(route_stage.at_time);
            self.check_for_best_hop_count(route_stage.hop_count_heuristic);
            return ;
        }
        let tx_node_id: NodeID = route_stage.to_node;
        self.add_node_to_visited(tx_node_id);
        let ghost vis1 = self.visited@;
        let ghost rs = multigraph.receivers_of(tx_node_id);
        if (tx_node_id as usize) < multigraph.senders.len() {
            let sender = &multigraph.senders[tx_node_id as usize];
            let mut i: usize = 0;
            while i < sender.receivers.len()
                invariant
                    sender.receivers@ == rs,
                    rs == multigraph.receivers_of(tx_node_id),
                    tx_node_id == route_stage.to_node,
                    0 < k,
                    i <= rs.len(),
                    self.target == old(self).target(),
                    self.k == old(self).k,
                    self.final_heuristic.inv(),
                    keeps_settled(fh0, self.final_heuristic),
                    forall|t: NodeID| #[trigger] self.final_heuristic.aims_at(t) == fh0.aims_at(t),
                    self.visited@ == vis1,
                    vis1 == vis0.insert(tx_node_id),
                    self.best_at_time <= best0.at_time_heuristic,
                    self.best_hop_count <= best0.hop_count_heuristic,
                    self.best_at_time >= best0.at_time_heuristic || self.best_at_time
                        >= route_stage.at_time,
                    forall|h2: H|
                        #[trigger] keeps_settled(self.final_heuristic, h2) ==> look_ahead_from(
                            leaf_of(h2, *multigraph, visited@),
                            self.target,
                            k as nat,
                            *route_stage,
                            *multigraph,
                            visited@,
                            vis1,
                            rs,
                            0,
                            best0,
                        ) == look_ahead_from(
                            leaf_of(h2, *multigraph, visited@),
                            self.target,
                            k as nat,
                            *route_stage,
                            *multigraph,
                            visited@,
                            vis1,
                            rs,
                            i as nat,
                            self.best(),
                        ) && la_settled_from(
                            h2,
                            self.target,
                            k as nat,
                            *route_stage,
                            *multigraph,
                            visited@,
                            vis1,
                            rs,
                            0,
                        ) == la_settled_from(
                            h2,
                            self.target,
                            k as nat,
                            *route_stage,
                            *multigraph,
                            visited@,
                            vis1,
                            rs,
                            i as nat,
                        ),
                decreases rs.len() - i,
            {
                let receiver = &sender.receivers[i];
                let receiver_id: NodeID = receiver.node;
                let ghost cur = self.best();
                let ghost fha = self.final_heuristic;
                if !(self.contains_node(receiver_id) || visited.contains(&receiver_id)) {
                    self.add_node_to_visited(receiver_id);
                    match receiver.get_first_idx(route_stage.at_time) {
                        Some(first_contact_index) => {
                            match try_make_hop(
                                first_contact_index,
                                route_stage,
                                &receiver.contacts,
                                receiver_id,
                            ) {
                                Some(route_proposition) => {
                                    proof {
                                        lemma_hop_moves_forward(
                                            *route_stage,
                                            receiver.contacts@,
                                            first_contact_index as int,
                                            receiver_id,
                                        );
                                    }
                                    self.compute_for_k(
                                        k - 1,
                                        &route_proposition,
                                        bundle,
                                        multigraph,
                                        visited,
                                    );
                                    proof {
                                        let fhb = self.final_heuristic;
                                        lemma_keeps_settled_trans(fh0, fha, fhb);
                                        assert forall|h2: H|
                                            #[trigger] keeps_settled(fhb, h2) implies look_ahead_from(
                                            leaf_of(h2, *multigraph, visited@),
                                            self.target,
                                            k as nat,
                                            *route_stage,
                                            *multigraph,
                                            visited@,
                                            vis1,
                                            rs,
                                            i as nat,
                                            cur,
                                        ) == look_ahead_from(
                                            leaf_of(h2, *multigraph, visited@),
                                            self.target,
                                            k as nat,
                                            *route_stage,
                                            *multigraph,
                                            visited@,
                                            vis1,
                                            rs,
                                            (i + 1) as nat,
                                            self.best(),
                                        ) && la_settled_from(
                                            h2,
                                            self.target,
                                            k as nat,
                                            *route_stage,
                                            *multigraph,
                                            visited@,
                                            vis1,
                                            rs,
                                            i as nat,
                                        ) == la_settled_from(
                                            h2,
                                            self.target,
                                            k as nat,
                                            *route_stage,
                                            *multigraph,
                                            visited@,
                                            vis1,
                                            rs,
                                            (i + 1) as nat,
                                        ) && keeps_settled(fha, h2) by {
                                            lemma_keeps_settled_trans(fha, fhb, h2);
                                            lemma_look_ahead_stable(
                                                fhb,
                                                h2,
                                                self.target,
                                                (k - 1) as nat,
                                                route_proposition,
                                                *multigraph,
                                                visited@,
                                                vis1.insert(receiver_id),
                                                cur,
                                            );
                                        }
                                    }
                                },
                                None => {},
                            }
                        },
                        None => {},
                    }
                    self.remove_node_from_visited(receiver_id);
                    assert(self.visited@ =~= vis1);
                }
                i = i + 1;
            }
            proof {
                lemma_keeps_settled_refl(self.final_heuristic);
            }
        }
        self.remove_node_from_visited(tx_node_id);
        assert(self.visited@ =~= vis0.remove(tx_node_id));
    }

    /// Lowers the best arrival time to `new_date` if it is earlier.
    pub fn check_for_best_date(&mut self, new_date: Date)
        ensures
            final(self).best() == lower_best(
                old(self).best(),
                new_date,
                old(self).best().hop_count_heuristic,
            ),
            final(self).target() == old(self).target(),
            final(self).depth() == old(self).depth(),
            final(self).final_heuristic() == old(self).final_heuristic(),
            final(self).visited_nodes() == old(self).visited_nodes(),
    {
        if new_date < self.best_at_time {
            self.best_at_time = new_date;
        }
    }

    /// Lowers the best hop count to `new_hop_count` if it is smaller.
    pub fn check_for_best_hop_count(&mut self, new_hop_count: HopCount)
        ensures
            final(self).best() == lower_best(
                old(self).best(),
                old(self).best().at_time_heuristic,
                new_hop_count,
            ),
            final(self).target() == old(self).target(),
            final(self).depth() == old(self).depth(),
            final(self).final_heuristic() == old(self).final_heuristic(),
            final(self).visited_nodes() == old(self).visited_nodes(),
    {
        if new_hop_count < self.best_hop_count {
            self.best_hop_count = new_hop_count;
        }
    }

    /// The best arrival time and hop count found so far.
    pub fn best_found(&self) -> (r: HeuristicResult)
        ensures
            r == self.best(),
    {
        HeuristicResult { at_time_heuristic: self.best_at_time, hop_count_heuristic: self.best_hop_count }
    }

    /// Whether `node` is on the route being explored.
    pub fn contains_node(&self, node: NodeID) -> (b: bool)
        ensures
            b == self.visited_nodes().contains(node),
    {
        self.visited.contains(&node)
    }

    /// Marks `node` as on the route being explored.
    pub fn add_node_to_visited(&mut self, node: NodeID)
        ensures
            final(self).visited_nodes() == old(self).visited_nodes().insert(node),
            final(self).best() == old(self).best(),
            final(self).target() == old(self).target(),
            final(self).depth() == old(self).depth(),
            final(self).final_heuristic() == old(self).final_heuristic(),
    {
        self.visited.insert(node);
    }

    /// Unmarks `node`.
    pub fn remove_node_from_visited(&mut self, node: NodeID)
        ensures
            final(self).visited_nodes() == old(self).visited_nodes().remove(node),
            final(self).best() == old(self).best(),
            final(self).target() == old(self).target(),
            final(self).depth() == old(self).depth(),
            final(self).final_heuristic() == old(self).final_heuristic(),
    {
        self.visited.remove(&node);
    }
}


impl<H: Heuristic> Heuristic for KLookAhead<H> {
    open spec fn inv(&self) -> bool {
        &&& self.visited_nodes() == Set::<NodeID>::empty()
        &&& self.best() == nothing_found()
        &&& self.final_heuristic().inv()
    }

    /// The destination is the look-ahead's and the final heuristic's.
    open spec fn aims_at(&self, target: NodeID) -> bool {
        self.target() == target && self.final_heuristic().aims_at(target)
    }

    /// Every prediction of the final heuristic that the look-ahead uses is settled.
    open spec fn settled(&self, stage: RouteStage, graph: Multigraph, visited: Set<NodeID>) -> bool {
        la_settled(
            self.final_heuristic(),
            self.target(),
            self.depth(),
            stage,
            graph,
            visited,
            self.visited_nodes(),
        )
    }

    open spec fn settled_delay(&self, tx: NodeID, graph: Multigraph, visited: Set<NodeID>) -> bool {
        self.final_heuristic().settled_delay(tx, graph, visited)
    }

    open spec fn predicted(&self, stage: RouteStage, graph: Multigraph, visited: Set<NodeID>) -> HeuristicResult {
        look_ahead(
            leaf_of(self.final_heuristic(), graph, visited),
            self.target(),
            self.depth(),
            stage,
            graph,
            visited,
            self.visited_nodes(),
            self.best(),
        )
    }

    open spec fn predicted_delay(&self, tx: NodeID, graph: Multigraph, visited: Set<NodeID>) -> HeuristicDelayResult {
        self.final_heuristic().predicted_delay(tx, graph, visited)
    }

    /// A look-ahead of one hop, towards node 0 until set up.
    fn new() -> (h: Self)
        ensures
            h.target() == 0,
            h.depth() == 1,
    {
        let h = KLookAhead {
            target: 0,
            k: 1,
            final_heuristic: H::new(),
            visited: HashSet::new(),
            best_at_time: Date::MAX,
            best_hop_count: HopCount::MAX,
        };
        assert(h.visited@ =~= Set::<NodeID>::empty());
        h
    }

    /// The least arrival time and the least hop count found by looking
    /// `depth()` hops ahead of `route_stage`; the running best is reset afterwards.
    fn compute_heuristics(
        &mut self,
        route_stage: &RouteStage,
        bundle: &Bundle,
        multigraph: &Multigraph,
        visited: &HashSet<NodeID>,
    ) -> (r: HeuristicResult)
        ensures
            final(self).target() == old(self).target(),
            final(self).depth() == old(self).depth(),
            keeps_settled(old(self).final_heuristic(), final(self).final_heuristic()),
            r == look_ahead(
                leaf_of(final(self).final_heuristic(), *multigraph, visited@),
                old(self).target(),
                old(self).depth(),
                *route_stage,
                *multigraph,
                visited@,
                Set::<NodeID>::empty(),
                nothing_found(),
            ),
    {
        let ghost old_self = *self;
        self.compute_for_k(self.k, route_stage, bundle, multigraph, visited);
        let result: HeuristicResult = HeuristicResult {
            at_time_heuristic: self.best_at_time,
            hop_count_heuristic: self.best_hop_count,
        };
        self.best_at_time = Date::MAX;
        self.best_hop_count = HopCount::MAX;
        assert(self.visited@ =~= Set::<NodeID>::empty());
        proof {
            self.lemma_settled_kept(old_self);
        }
        result
    }

    /// The final heuristic's prediction of the remaining delay from `tx_node`.
    fn compute_delay_heuristic(
        &mut self,
        tx_node: NodeID,
        bundle: &Bundle,
        multigraph: &Multigraph,
        visited: &HashSet<NodeID>,
    ) -> (r: HeuristicDelayResult)
        ensures
            final(self).target() == old(self).target(),
            final(self).depth() == old(self).depth(),
            final(self).visited_nodes() == old(self).visited_nodes(),
            final(self).best() == old(self).best(),
            keeps_settled(old(self).final_heuristic(), final(self).final_heuristic()),
            r == final(self).final_heuristic().predicted_delay(tx_node, *multigraph, visited@),
    {
        let ghost old_self = *self;
        let r = self.final_heuristic.compute_delay_heuristic(tx_node, bundle, multigraph, visited);
        proof {
            self.lemma_settled_kept(old_self);
        }
        r
    }

    /// Sets the final heuristic up and aims at the first destination of the bundle.
    fn setup(&mut self, bundle: &Bundle)
        ensures
            final(self).target() == bundle.destinations@[0],
            final(self).depth() == old(self).depth(),
            final(self).final_heuristic().aims_at(bundle.destinations@[0]),
    {
        self.final_heuristic.setup(bundle);
        self.target = bundle.destinations[0];
    }
}

impl<H: Heuristic> KLookAhead<H> {
    /// A state with the same look-ahead configuration whose final heuristic
    /// keeps the settled predictions keeps the look-ahead's settled predictions.
    proof fn lemma_settled_kept(&self, before: Self)
        requires
            keeps_settled(before.final_heuristic, self.final_heuristic),
            self.target == before.target,
            self.k == before.k,
            self.visited@ == before.visited@,
            self.best() == before.best(),
        ensures
            forall|s: RouteStage, g: Multigraph, v: Set<NodeID>|
                #[trigger] before.settled(s, g, v) ==> self.settled(s, g, v) && self.predicted(s, g, v)
                    == before.predicted(s, g, v),
            forall|t: NodeID, g: Multigraph, v: Set<NodeID>|
                #[trigger] before.settled_delay(t, g, v) ==> self.settled_delay(t, g, v)
                    && self.predicted_delay(t, g, v) == before.predicted_delay(t, g, v),
    {
        assert forall|s: RouteStage, g: Multigraph, v: Set<NodeID>|
            #[trigger] before.settled(s, g, v) implies self.settled(s, g, v) && self.predicted(s, g, v)
                == before.predicted(s, g, v) by {
            lemma_look_ahead_stable(
                before.final_heuristic,
                self.final_heuristic,
                self.target,
                self.k as nat,
                s,
                g,
                v,
                self.visited@,
                self.best(),
            );
        }
    }
}

} // verus!
