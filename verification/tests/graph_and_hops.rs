use lib::multigraph::{Contact, DistanceSample, Multigraph, Receiver, Sender};
use lib::pathfinding::try_make_hop;
use lib::route_stage::RouteStage;

fn stage_at(node: u16, at: u64, hops: u16, expiration: u64) -> RouteStage {
    RouteStage {
        to_node: node,
        at_time: at,
        hop_count: hops,
        expiration,
        at_time_heuristic: at,
        hop_count_heuristic: hops,
        cumulative_distance: 4,
        via_contact_start: None,
    }
}

fn contact(start: u64, end: u64, delay: u64) -> Contact {
    Contact { start, end, delay }
}

#[test]
fn hop_takes_earliest_arrival() {
    let contacts = vec![contact(0, 10, 5), contact(2, 50, 1), contact(20, 40, 0)];
    let s = stage_at(0, 5, 3, 45);
    let p = try_make_hop(0, &s, &contacts, 7).unwrap();
    assert_eq!(p.to_node, 7);
    assert_eq!(p.at_time, 6);
    assert_eq!(p.hop_count, 4);
    assert_eq!(p.expiration, 45);
    assert_eq!(p.at_time_heuristic, 6);
    assert_eq!(p.hop_count_heuristic, 4);
    assert_eq!(p.cumulative_distance, 4);
    assert_eq!(p.via_contact_start, Some(2));
}

#[test]
fn hop_waits_for_contact_start_and_bounds_expiration() {
    let contacts = vec![contact(20, 40, 3)];
    let s = stage_at(0, 5, 0, 100);
    let p = try_make_hop(0, &s, &contacts, 1).unwrap();
    assert_eq!(p.at_time, 23);
    assert_eq!(p.expiration, 40);
}

#[test]
fn hop_prefers_first_contact_on_ties() {
    let contacts = vec![contact(0, 10, 5), contact(0, 20, 5)];
    let s = stage_at(0, 1, 0, 100);
    let p = try_make_hop(0, &s, &contacts, 1).unwrap();
    assert_eq!(p.via_contact_start, Some(0));
    assert_eq!(p.expiration, 10);
}

#[test]
fn hop_skips_closed_and_earlier_contacts() {
    let contacts = vec![contact(0, 100, 1), contact(0, 5, 1), contact(30, 31, 2)];
    let s = stage_at(0, 10, 0, 100);
    // Starting at index 1: contact 1 is closed at time 10, contact 2 is usable.
    let p = try_make_hop(1, &s, &contacts, 1).unwrap();
    assert_eq!(p.at_time, 32);
    assert!(try_make_hop(1, &stage_at(0, 31, 0, 100), &contacts, 1).is_none());
    assert!(try_make_hop(5, &s, &contacts, 1).is_none());
    assert!(try_make_hop(0, &s, &vec![], 1).is_none());
}

#[test]
fn hop_arrival_saturates() {
    let contacts = vec![contact(0, u64::MAX, u64::MAX)];
    let s = stage_at(0, 3, u16::MAX, 100);
    let p = try_make_hop(0, &s, &contacts, 1).unwrap();
    assert_eq!(p.at_time, u64::MAX);
    assert_eq!(p.hop_count, u16::MAX);
}

#[test]
fn first_contact_index_after_time() {
    let r = Receiver { node: 1, contacts: vec![contact(0, 10, 1), contact(5, 20, 1), contact(30, 40, 1)] };
    assert_eq!(r.get_first_idx(0), Some(0));
    assert_eq!(r.get_first_idx(10), Some(1));
    assert_eq!(r.get_first_idx(25), Some(2));
    assert_eq!(r.get_first_idx(40), None);
}

fn small_graph() -> Multigraph {
    Multigraph {
        senders: vec![Sender { receivers: vec![] }, Sender { receivers: vec![] }],
        minimal_delays: vec![vec![0, 7], vec![7]],
        distances: vec![vec![
            vec![],
            vec![DistanceSample { from: 10, distance: 100 }, DistanceSample { from: 20, distance: 50 }],
        ]],
    }
}

#[test]
fn minimal_delay_lookup() {
    let g = small_graph();
    assert_eq!(g.get_minimal_delay_between_sender_and_target(0, 1), 7);
    assert_eq!(g.get_minimal_delay_between_sender_and_target(0, 0), 0);
    assert_eq!(g.get_minimal_delay_between_sender_and_target(1, 1), u64::MAX);
    assert_eq!(g.get_minimal_delay_between_sender_and_target(5, 0), u64::MAX);
}

#[test]
fn distance_at_time_lookup() {
    let g = small_graph();
    assert_eq!(g.get_distance_between_sender_and_target_at_time(0, 1, 5), 0);
    assert_eq!(g.get_distance_between_sender_and_target_at_time(0, 1, 10), 100);
    assert_eq!(g.get_distance_between_sender_and_target_at_time(0, 1, 19), 100);
    assert_eq!(g.get_distance_between_sender_and_target_at_time(0, 1, 25), 50);
    assert_eq!(g.get_distance_between_sender_and_target_at_time(0, 0, 25), 0);
    assert_eq!(g.get_distance_between_sender_and_target_at_time(1, 0, 25), 0);
}
