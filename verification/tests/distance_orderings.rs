use std::cmp::Ordering;

use lib::distance::geographical_distance::GeoDistance;
use lib::distance::heuristic_sabr::HeuristicSabr;
use lib::route_stage::RouteStage;

fn stage(distance: u64, at: u64, hops: u16, expiration: u64) -> RouteStage {
    RouteStage {
        to_node: 0,
        at_time: at,
        hop_count: hops,
        expiration,
        at_time_heuristic: at,
        hop_count_heuristic: hops,
        cumulative_distance: distance,
        via_contact_start: None,
    }
}

#[test]
fn geo_distance_decides_first() {
    let a = stage(10, 100, 9, 0);
    let b = stage(5, 1, 1, 1000);
    assert_eq!(GeoDistance::cmp(&a, &b), Ordering::Greater);
    assert_eq!(GeoDistance::cmp(&b, &a), Ordering::Less);
}

#[test]
fn geo_ties_broken_by_time_hops_then_expiration() {
    assert_eq!(GeoDistance::cmp(&stage(5, 20, 1, 7), &stage(5, 10, 9, 7)), Ordering::Greater);
    assert_eq!(GeoDistance::cmp(&stage(5, 10, 1, 7), &stage(5, 10, 2, 7)), Ordering::Less);
    // A lower expiration ranks greater.
    assert_eq!(GeoDistance::cmp(&stage(5, 10, 1, 3), &stage(5, 10, 1, 7)), Ordering::Greater);
    assert_eq!(GeoDistance::cmp(&stage(5, 10, 1, 9), &stage(5, 10, 1, 7)), Ordering::Less);
    assert_eq!(GeoDistance::cmp(&stage(5, 10, 1, 7), &stage(5, 10, 1, 7)), Ordering::Equal);
}

#[test]
fn geo_eq_agrees_with_cmp() {
    let a = stage(5, 10, 1, 7);
    let mut b = a;
    b.to_node = 3;
    b.at_time_heuristic = 99;
    assert!(GeoDistance::eq(&a, &b));
    assert_eq!(GeoDistance::cmp(&a, &b), Ordering::Equal);
    let c = stage(5, 11, 1, 7);
    assert!(!GeoDistance::eq(&a, &c));
    assert_ne!(GeoDistance::cmp(&a, &c), Ordering::Equal);
}

#[test]
fn geo_eq_ignores_distance() {
    let a = stage(5, 10, 1, 7);
    let d = stage(6, 10, 1, 7);
    assert!(GeoDistance::eq(&a, &d));
    assert_eq!(GeoDistance::cmp(&a, &d), Ordering::Less);
}

#[test]
fn geo_retain_and_prune() {
    let prop = stage(0, 10, 2, 0);
    let known = stage(0, 12, 3, 0);
    assert!(GeoDistance::can_retain(&prop, &known));
    assert!(!GeoDistance::can_retain(&known, &prop));
    assert!(GeoDistance::must_prune(&prop, &known));
    assert!(!GeoDistance::must_prune(&known, &prop));
    assert!(GeoDistance::must_prune(&prop, &prop));
    let later_fewer_hops = stage(0, 20, 1, 0);
    assert!(!GeoDistance::must_prune(&later_fewer_hops, &known));
}

#[test]
fn sabr_compares_predicted_metrics() {
    let mut a = stage(0, 0, 0, 50);
    let mut b = stage(0, 0, 0, 50);
    a.at_time_heuristic = 30;
    b.at_time_heuristic = 20;
    assert_eq!(HeuristicSabr::cmp(&a, &b), Ordering::Greater);
    b.at_time_heuristic = 30;
    a.hop_count_heuristic = 2;
    b.hop_count_heuristic = 4;
    assert_eq!(HeuristicSabr::cmp(&a, &b), Ordering::Less);
    b.hop_count_heuristic = 2;
    b.expiration = 60;
    assert_eq!(HeuristicSabr::cmp(&a, &b), Ordering::Greater);
    b.expiration = 50;
    // The actual metrics do not count.
    b.at_time = 1000;
    b.cumulative_distance = 1000;
    assert_eq!(HeuristicSabr::cmp(&a, &b), Ordering::Equal);
    assert!(HeuristicSabr::eq(&a, &b));
}

#[test]
fn sabr_cmp_is_antisymmetric_on_examples() {
    let stages = [stage(0, 1, 2, 3), stage(0, 1, 2, 4), stage(0, 2, 1, 3), stage(0, 1, 1, 3)];
    for a in stages.iter() {
        for b in stages.iter() {
            assert_eq!(HeuristicSabr::cmp(a, b), HeuristicSabr::cmp(b, a).reverse());
            assert_eq!(GeoDistance::cmp(a, b), GeoDistance::cmp(b, a).reverse());
            assert_eq!(HeuristicSabr::eq(a, b), HeuristicSabr::cmp(a, b) == Ordering::Equal);
        }
    }
}

#[test]
fn sabr_retain_and_prune() {
    let mut prop = stage(0, 0, 0, 0);
    let mut known = stage(0, 0, 0, 0);
    prop.at_time_heuristic = 10;
    prop.hop_count_heuristic = 1;
    known.at_time_heuristic = 10;
    known.hop_count_heuristic = 2;
    assert!(HeuristicSabr::can_retain(&prop, &known));
    assert!(HeuristicSabr::must_prune(&prop, &known));
    assert!(!HeuristicSabr::must_prune(&known, &prop));
    known.at_time_heuristic = 9;
    assert!(!HeuristicSabr::must_prune(&prop, &known));
}
