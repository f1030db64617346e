use std::collections::HashSet;

use lib::heuristic::k_look_ahead::KLookAhead;
use lib::heuristic::k_look_ahead_min::KLookAheadMin;
use lib::heuristic::owlt::Owlt;
use lib::heuristic::owlt_curr::OwltCurr;
use lib::heuristic::zero::Zero;
use lib::heuristic::{Heuristic, HeuristicDelayResult, HeuristicResult};
use lib::multigraph::{Contact, DistanceSample, Multigraph, Receiver, Sender};
use lib::route_stage::RouteStage;
use lib::types::Bundle;

fn stage_at(node: u16, at: u64, hops: u16) -> RouteStage {
    RouteStage {
        to_node: node,
        at_time: at,
        hop_count: hops,
        expiration: 1000,
        at_time_heuristic: at,
        hop_count_heuristic: hops,
        cumulative_distance: 0,
        via_contact_start: None,
    }
}

fn bundle_to(dest: u16) -> Bundle {
    Bundle { source: 0, destinations: vec![dest], expiration: 10_000 }
}

fn receiver(node: u16, contacts: Vec<(u64, u64, u64)>) -> Receiver {
    Receiver {
        node,
        contacts: contacts.into_iter().map(|(start, end, delay)| Contact { start, end, delay }).collect(),
    }
}

fn no_distances() -> Vec<Vec<Vec<DistanceSample>>> {
    vec![]
}

/// Node 0 reaches 1, 2 and 3; node 3 is the destination.
fn star_graph() -> Multigraph {
    Multigraph {
        senders: vec![
            Sender {
                receivers: vec![
                    receiver(1, vec![(0, 100, 5)]),
                    receiver(2, vec![(20, 30, 1)]),
                    receiver(3, vec![(50, 60, 2)]),
                ],
            },
            Sender { receivers: vec![] },
            Sender { receivers: vec![] },
            Sender { receivers: vec![] },
        ],
        minimal_delays: vec![
            vec![0, 5, 1, 7],
            vec![5, 0, 9, 100],
            vec![1, 9, 0, 3],
            vec![7, 100, 3, 0],
        ],
        distances: no_distances(),
    }
}

#[test]
fn zero_predicts_current_metrics() {
    let mut h = Zero::new();
    h.setup(&bundle_to(3));
    let g = star_graph();
    let r = h.compute_heuristics(&stage_at(1, 42, 3), &bundle_to(3), &g, &HashSet::new());
    assert_eq!(r, HeuristicResult { at_time_heuristic: 42, hop_count_heuristic: 3 });
    let d = h.compute_delay_heuristic(2, &bundle_to(3), &g, &HashSet::new());
    assert_eq!(d, HeuristicDelayResult { heuristic_delay: 0, heuristic_remaining_hop_count: 0 });
}

#[test]
fn owlt_adds_minimal_delay_and_a_hop() {
    let mut h = Owlt::new();
    h.setup(&bundle_to(3));
    let g = star_graph();
    let r = h.compute_heuristics(&stage_at(2, 10, 1), &bundle_to(3), &g, &HashSet::new());
    assert_eq!(r, HeuristicResult { at_time_heuristic: 13, hop_count_heuristic: 2 });
    let at_target = h.compute_heuristics(&stage_at(3, 10, 1), &bundle_to(3), &g, &HashSet::new());
    assert_eq!(at_target, HeuristicResult { at_time_heuristic: 10, hop_count_heuristic: 1 });
    let d = h.compute_delay_heuristic(1, &bundle_to(3), &g, &HashSet::new());
    assert_eq!(d, HeuristicDelayResult { heuristic_delay: 100, heuristic_remaining_hop_count: 1 });
    let d3 = h.compute_delay_heuristic(3, &bundle_to(3), &g, &HashSet::new());
    assert_eq!(d3, HeuristicDelayResult { heuristic_delay: 0, heuristic_remaining_hop_count: 0 });
}

#[test]
fn owlt_unknown_target_saturates() {
    let mut h = Owlt::new();
    h.setup(&bundle_to(9));
    let g = star_graph();
    let r = h.compute_heuristics(&stage_at(2, 10, u16::MAX), &bundle_to(9), &g, &HashSet::new());
    assert_eq!(r, HeuristicResult { at_time_heuristic: u64::MAX, hop_count_heuristic: u16::MAX });
}

#[test]
fn owlt_curr_predicts_time_and_distance() {
    let mut h = OwltCurr::new();
    h.setup(&bundle_to(1));
    let g = Multigraph {
        senders: vec![Sender { receivers: vec![] }, Sender { receivers: vec![] }],
        minimal_delays: vec![vec![0, 4], vec![4, 0]],
        distances: vec![vec![
            vec![],
            vec![DistanceSample { from: 0, distance: 30 }, DistanceSample { from: 100, distance: 80 }],
        ]],
    };
    let mut s = stage_at(0, 50, 2);
    s.cumulative_distance = 5;
    s.via_contact_start = Some(120);
    let r = h.compute_heuristics(&s, &bundle_to(1), &g, &HashSet::new());
    assert_eq!(r, HeuristicResult { at_time_heuristic: 54, hop_count_heuristic: 3 });
    assert_eq!(h.compute_distance_heuristic(&s, &g), 85);
    s.via_contact_start = Some(99);
    assert_eq!(h.compute_distance_heuristic(&s, &g), 35);
}

#[test]
fn k_look_ahead_with_zero_takes_best_neighbour() {
    let mut h: KLookAhead<Zero> = KLookAhead::new();
    h.setup(&bundle_to(3));
    let g = star_graph();
    let r = h.compute_heuristics(&stage_at(0, 10, 0), &bundle_to(3), &g, &HashSet::new());
    assert_eq!(r, HeuristicResult { at_time_heuristic: 15, hop_count_heuristic: 1 });
}

#[test]
fn k_look_ahead_with_owlt_mins_each_metric() {
    let mut h: KLookAhead<Owlt> = KLookAhead::new();
    h.setup(&bundle_to(3));
    let g = star_graph();
    let r = h.compute_heuristics(&stage_at(0, 10, 0), &bundle_to(3), &g, &HashSet::new());
    // Through 1: 15 + 100, 2 hops; through 2: 21 + 3, 2 hops; through 3: 52 + 0, 1 hop.
    assert_eq!(r, HeuristicResult { at_time_heuristic: 24, hop_count_heuristic: 1 });
    // The same question gets the same answer.
    let again = h.compute_heuristics(&stage_at(0, 10, 0), &bundle_to(3), &g, &HashSet::new());
    assert_eq!(again, r);
}

#[test]
fn k_look_ahead_avoids_visited_nodes() {
    let mut h: KLookAhead<Owlt> = KLookAhead::new();
    h.setup(&bundle_to(3));
    let g = star_graph();
    let mut visited = HashSet::new();
    visited.insert(2u16);
    let r = h.compute_heuristics(&stage_at(0, 10, 0), &bundle_to(3), &g, &visited);
    assert_eq!(r, HeuristicResult { at_time_heuristic: 52, hop_count_heuristic: 1 });
}

#[test]
fn k_look_ahead_at_target_and_dead_end() {
    let mut h: KLookAhead<Owlt> = KLookAhead::new();
    h.setup(&bundle_to(3));
    let g = star_graph();
    let mut s = stage_at(3, 10, 4);
    s.hop_count_heuristic = 6;
    let r = h.compute_heuristics(&s, &bundle_to(3), &g, &HashSet::new());
    assert_eq!(r, HeuristicResult { at_time_heuristic: 10, hop_count_heuristic: 6 });
    // Node 1 has no receiver: nothing is found.
    let dead = h.compute_heuristics(&stage_at(1, 10, 0), &bundle_to(3), &g, &HashSet::new());
    assert_eq!(dead, HeuristicResult { at_time_heuristic: u64::MAX, hop_count_heuristic: u16::MAX });
}

#[test]
fn k_look_ahead_delay_is_final_heuristic() {
    let mut h: KLookAhead<Owlt> = KLookAhead::new();
    h.setup(&bundle_to(3));
    let g = star_graph();
    let d = h.compute_delay_heuristic(2, &bundle_to(3), &g, &HashSet::new());
    assert_eq!(d, HeuristicDelayResult { heuristic_delay: 3, heuristic_remaining_hop_count: 1 });
}

/// 0 reaches 1 and 2, both reach 3, the destination.
fn diamond_graph() -> Multigraph {
    Multigraph {
        senders: vec![
            Sender { receivers: vec![receiver(1, vec![]), receiver(2, vec![])] },
            Sender { receivers: vec![receiver(3, vec![])] },
            Sender { receivers: vec![receiver(3, vec![])] },
            Sender { receivers: vec![] },
        ],
        minimal_delays: vec![
            vec![0, 5, 1, 7],
            vec![5, 0, 9, 2],
            vec![1, 9, 0, 10],
            vec![7, 2, 10, 0],
        ],
        distances: no_distances(),
    }
}

#[test]
fn k_look_ahead_min_lowest_delay() {
    let mut h: KLookAheadMin<Owlt> = KLookAheadMin::new();
    h.setup(&bundle_to(3));
    let g = diamond_graph();
    let d = h.compute_delay_heuristic(0, &bundle_to(3), &g, &HashSet::new());
    // Through 1: 2 + 5 = 7 in 2 hops; through 2: 10 + 1 = 11 in 2 hops.
    assert_eq!(d, HeuristicDelayResult { heuristic_delay: 7, heuristic_remaining_hop_count: 2 });
    let r = h.compute_heuristics(&stage_at(0, 100, 1), &bundle_to(3), &g, &HashSet::new());
    assert_eq!(r, HeuristicResult { at_time_heuristic: 107, hop_count_heuristic: 3 });
    let r1 = h.compute_heuristics(&stage_at(1, 100, 1), &bundle_to(3), &g, &HashSet::new());
    assert_eq!(r1, HeuristicResult { at_time_heuristic: 102, hop_count_heuristic: 2 });
    let at_target = h.compute_heuristics(&stage_at(3, 100, 1), &bundle_to(3), &g, &HashSet::new());
    assert_eq!(at_target, HeuristicResult { at_time_heuristic: 100, hop_count_heuristic: 1 });
}

#[test]
fn k_look_ahead_min_prefers_fewer_hops_on_equal_delays() {
    let g = Multigraph {
        senders: vec![
            Sender { receivers: vec![receiver(1, vec![]), receiver(2, vec![])] },
            Sender { receivers: vec![receiver(2, vec![])] },
            Sender { receivers: vec![] },
        ],
        minimal_delays: vec![vec![0, 1, 4], vec![1, 0, 3], vec![4, 3, 0]],
        distances: no_distances(),
    };
    let mut h: KLookAheadMin<Owlt> = KLookAheadMin::new();
    h.setup(&bundle_to(2));
    let d = h.compute_delay_heuristic(0, &bundle_to(2), &g, &HashSet::new());
    // Through 1: 3 + 1 = 4 in 2 hops; directly: 0 + 4 = 4 in 1 hop.
    assert_eq!(d, HeuristicDelayResult { heuristic_delay: 4, heuristic_remaining_hop_count: 1 });
}

#[test]
fn k_look_ahead_min_uses_final_heuristic_at_depth_zero() {
    // A chain 0 -> 1 -> 2 -> 3 -> 4, destination 4: depth 3 from node 0 ends at node 3.
    let g = Multigraph {
        senders: vec![
            Sender { receivers: vec![receiver(1, vec![])] },
            Sender { receivers: vec![receiver(2, vec![])] },
            Sender { receivers: vec![receiver(3, vec![])] },
            Sender { receivers: vec![receiver(4, vec![])] },
            Sender { receivers: vec![] },
        ],
        minimal_delays: vec![
            vec![0, 1, 0, 0, 0],
            vec![0, 0, 2, 0, 0],
            vec![0, 0, 0, 3, 0],
            vec![0, 0, 0, 0, 40],
            vec![0, 0, 0, 0, 0],
        ],
        distances: no_distances(),
    };
    let mut h: KLookAheadMin<Owlt> = KLookAheadMin::new();
    h.setup(&bundle_to(4));
    let d = h.compute_delay_heuristic(0, &bundle_to(4), &g, &HashSet::new());
    assert_eq!(d, HeuristicDelayResult { heuristic_delay: 46, heuristic_remaining_hop_count: 4 });
    let mut z: KLookAheadMin<Zero> = KLookAheadMin::new();
    z.setup(&bundle_to(4));
    let dz = z.compute_delay_heuristic(0, &bundle_to(4), &g, &HashSet::new());
    assert_eq!(dz, HeuristicDelayResult { heuristic_delay: 6, heuristic_remaining_hop_count: 3 });
}

#[test]
fn k_look_ahead_min_recomputes_for_other_visited_nodes() {
    let mut h: KLookAheadMin<Owlt> = KLookAheadMin::new();
    h.setup(&bundle_to(3));
    let g = diamond_graph();
    let mut visited = HashSet::new();
    visited.insert(1u16);
    let first = h.compute_delay_heuristic(0, &bundle_to(3), &g, &visited);
    assert_eq!(first, HeuristicDelayResult { heuristic_delay: 11, heuristic_remaining_hop_count: 2 });
    // Without the visited node the route through 1 counts again.
    let second = h.compute_delay_heuristic(0, &bundle_to(3), &g, &HashSet::new());
    assert_eq!(second, HeuristicDelayResult { heuristic_delay: 7, heuristic_remaining_hop_count: 2 });
}

#[test]
fn k_look_ahead_min_records_route_nodes() {
    let mut h: KLookAheadMin<Owlt> = KLookAheadMin::new();
    let r = HeuristicDelayResult { heuristic_delay: 8, heuristic_remaining_hop_count: 2 };
    h.add_to_table(5, 1, vec![1, 5], r);
    assert_eq!(h.get_from_table(5, 1), Some(&r));
    assert_eq!(h.recorded_for(5, 1, &vec![1, 5]), Some(&r));
    assert_eq!(h.recorded_for(5, 1, &vec![5]), None);
    assert_eq!(h.recorded_for(5, 2, &vec![1, 5]), None);
    h.setup(&bundle_to(3));
    assert_eq!(h.get_from_table(5, 1), None);
}

#[test]
fn k_look_ahead_min_unreachable_destination() {
    let mut h: KLookAheadMin<Owlt> = KLookAheadMin::new();
    h.setup(&bundle_to(3));
    let g = diamond_graph();
    let r = h.compute_heuristics(&stage_at(3, 5, 0), &bundle_to(3), &g, &HashSet::new());
    assert_eq!(r.at_time_heuristic, 5);
    let dead_end = Multigraph {
        senders: vec![Sender { receivers: vec![] }, Sender { receivers: vec![] }],
        minimal_delays: vec![],
        distances: no_distances(),
    };
    let mut m: KLookAheadMin<Owlt> = KLookAheadMin::new();
    m.setup(&bundle_to(1));
    let r0 = m.compute_heuristics(&stage_at(0, 5, 0), &bundle_to(1), &dead_end, &HashSet::new());
    assert_eq!(r0, HeuristicResult { at_time_heuristic: u64::MAX, hop_count_heuristic: u16::MAX });
}

#[test]
fn k_look_ahead_over_memoised_final_heuristic() {
    let mut h: KLookAhead<KLookAheadMin<Owlt>> = KLookAhead::new();
    h.setup(&bundle_to(3));
    let g = star_graph();
    // Leaves: node 1 at 15, node 2 at 21, node 3 at 52, each after 1 hop. Nodes 1
    // and 2 have no receivers, so the memoised final heuristic finds no route
    // from them; node 3 is the destination.
    let r = h.compute_heuristics(&stage_at(0, 10, 0), &bundle_to(3), &g, &HashSet::new());
    assert_eq!(r, HeuristicResult { at_time_heuristic: 52, hop_count_heuristic: 1 });
    let again = h.compute_heuristics(&stage_at(0, 10, 0), &bundle_to(3), &g, &HashSet::new());
    assert_eq!(again, r);
}

#[test]
fn look_ahead_from_node_outside_graph() {
    let mut h: KLookAhead<Owlt> = KLookAhead::new();
    h.setup(&bundle_to(3));
    let g = star_graph();
    let r = h.compute_heuristics(&stage_at(9, 10, 0), &bundle_to(3), &g, &HashSet::new());
    assert_eq!(r, HeuristicResult { at_time_heuristic: u64::MAX, hop_count_heuristic: u16::MAX });
    let mut m: KLookAheadMin<Owlt> = KLookAheadMin::new();
    m.setup(&bundle_to(3));
    let d = m.compute_delay_heuristic(9, &bundle_to(3), &g, &HashSet::new());
    assert_eq!(d, HeuristicDelayResult { heuristic_delay: u64::MAX, heuristic_remaining_hop_count: u16::MAX });
}

/// 0 reaches 1, 1 reaches 2, 2 reaches 3, the destination.
fn chain_graph() -> Multigraph {
    Multigraph {
        senders: vec![
            Sender { receivers: vec![receiver(1, vec![(0, 100, 2)])] },
            Sender { receivers: vec![receiver(2, vec![(0, 100, 3)])] },
            Sender { receivers: vec![receiver(3, vec![(0, 100, 4)])] },
            Sender { receivers: vec![] },
        ],
        minimal_delays: vec![
            vec![0, 2, 5, 9],
            vec![2, 0, 3, 7],
            vec![5, 3, 0, 4],
            vec![9, 7, 4, 0],
        ],
        distances: no_distances(),
    }
}

#[test]
fn look_ahead_beyond_all_nodes_ignores_final_heuristic() {
    let g = chain_graph();
    let start = stage_at(0, 10, 0);
    let mut z: KLookAhead<Zero> = KLookAhead::new();
    z.setup(&bundle_to(3));
    let mut o: KLookAhead<Owlt> = KLookAhead::new();
    o.setup(&bundle_to(3));
    // Two hops deep, the final heuristics decide at node 2.
    z.compute_for_k(2, &start, &bundle_to(3), &g, &HashSet::new());
    o.compute_for_k(2, &start, &bundle_to(3), &g, &HashSet::new());
    assert_eq!(z.best_found(), HeuristicResult { at_time_heuristic: 15, hop_count_heuristic: 2 });
    assert_eq!(o.best_found(), HeuristicResult { at_time_heuristic: 19, hop_count_heuristic: 3 });
    // Deeper than the graph has nodes, only the route to the destination counts.
    let mut z5: KLookAhead<Zero> = KLookAhead::new();
    z5.setup(&bundle_to(3));
    let mut o5: KLookAhead<Owlt> = KLookAhead::new();
    o5.setup(&bundle_to(3));
    z5.compute_for_k(5, &start, &bundle_to(3), &g, &HashSet::new());
    o5.compute_for_k(5, &start, &bundle_to(3), &g, &HashSet::new());
    assert_eq!(z5.best_found(), HeuristicResult { at_time_heuristic: 19, hop_count_heuristic: 3 });
    assert_eq!(o5.best_found(), z5.best_found());
}

#[test]
fn k_look_ahead_min_finds_least_route_at_large_depth() {
    // 0 reaches 1 and 2; 1 reaches 3 and the destination 4; 2 reaches 3; 3 reaches 1 and 4.
    let m = u64::MAX;
    let g = Multigraph {
        senders: vec![
            Sender { receivers: vec![receiver(1, vec![]), receiver(2, vec![])] },
            Sender { receivers: vec![receiver(3, vec![]), receiver(4, vec![])] },
            Sender { receivers: vec![receiver(3, vec![])] },
            Sender { receivers: vec![receiver(1, vec![]), receiver(4, vec![])] },
            Sender { receivers: vec![] },
        ],
        minimal_delays: vec![
            vec![0, 100, 1, m, m],
            vec![m, 0, m, 100, 1],
            vec![m, m, 0, 1, m],
            vec![m, 1, m, 0, 1000],
            vec![m, m, m, m, 0],
        ],
        distances: no_distances(),
    };
    let mut h: KLookAheadMin<Owlt> = KLookAheadMin::new();
    h.setup(&bundle_to(4));
    h.compute_for_k(4, 0, &bundle_to(4), &g, &HashSet::new());
    // The least route is 0 -> 2 -> 3 -> 1 -> 4, of delay 4 and 4 hops; node 1
    // is entered again after node 3 on it, though it was entered first on
    // the route 0 -> 1 -> 3.
    assert_eq!(
        h.get_from_table(0, 4),
        Some(&HeuristicDelayResult { heuristic_delay: 4, heuristic_remaining_hop_count: 4 })
    );
    let d = h.compute_delay_heuristic(0, &bundle_to(4), &g, &HashSet::new());
    // At the heuristic's own depth (3) the same route is found: after three
    // hops, the final heuristic at node 1 adds its minimal delay (1) and a hop.
    assert_eq!(d, HeuristicDelayResult { heuristic_delay: 4, heuristic_remaining_hop_count: 4 });
}

#[test]
fn k_look_ahead_min_beyond_all_nodes_ignores_final_heuristic() {
    let g = chain_graph();
    let mut o: KLookAheadMin<Owlt> = KLookAheadMin::new();
    o.setup(&bundle_to(3));
    let mut z: KLookAheadMin<Zero> = KLookAheadMin::new();
    z.setup(&bundle_to(3));
    // Two hops deep, the final heuristics decide at node 2.
    o.compute_for_k(2, 0, &bundle_to(3), &g, &HashSet::new());
    z.compute_for_k(2, 0, &bundle_to(3), &g, &HashSet::new());
    assert_eq!(
        o.get_from_table(0, 2),
        Some(&HeuristicDelayResult { heuristic_delay: 9, heuristic_remaining_hop_count: 3 })
    );
    assert_eq!(
        z.get_from_table(0, 2),
        Some(&HeuristicDelayResult { heuristic_delay: 5, heuristic_remaining_hop_count: 2 })
    );
    // Deeper than the graph has nodes, nothing is predicted at depth 0.
    let mut o5: KLookAheadMin<Owlt> = KLookAheadMin::new();
    o5.setup(&bundle_to(3));
    let mut z5: KLookAheadMin<Zero> = KLookAheadMin::new();
    z5.setup(&bundle_to(3));
    o5.compute_for_k(5, 0, &bundle_to(3), &g, &HashSet::new());
    z5.compute_for_k(5, 0, &bundle_to(3), &g, &HashSet::new());
    let expected = HeuristicDelayResult { heuristic_delay: 9, heuristic_remaining_hop_count: 3 };
    assert_eq!(o5.get_from_table(0, 5), Some(&expected));
    assert_eq!(z5.get_from_table(0, 5), Some(&expected));
    for n in 0..4u16 {
        assert_eq!(o5.get_from_table(n, 0), None);
        assert_eq!(z5.get_from_table(n, 0), None);
    }
}
