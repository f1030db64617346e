use vstd::prelude::*;
use std::cmp::Ordering;
use crate::route_stage::RouteStage;

verus! {

/// Ordering of route stages for greedy path finding in networks where the
/// geographical distance matters: by distance covered, then arrival time, then
/// hop count, then expiration (a later expiration ranks lower).
pub struct GeoDistance {}

/// The order that `GeoDistance::cmp` computes.
pub open spec fn geo_order(first: RouteStage, second: RouteStage) -> Ordering {
    if first.cumulative_distance > second.cumulative_distance {
        Ordering::Greater
    } else if first.cumulative_distance < second.cumulative_distance {
        Ordering::Less
    } else if first.at_time > second.at_time {
        Ordering::Greater
    } else if first.at_time < second.at_time {
        Ordering::Less
    } else if first.hop_count > second.hop_count {
        Ordering::Greater
    } else if first.hop_count < second.hop_count {
        Ordering::Less
    } else if first.expiration < second.expiration {
        Ordering::Greater
    } else if first.expiration > second.expiration {
        Ordering::Less
    } else {
        Ordering::Equal
    }
}

/// The equality that `GeoDistance::eq` computes: arrival time, hop count and
/// expiration agree (the distance is not compared).
pub open spec fn geo_same(first: RouteStage, second: RouteStage) -> bool {
    &&& first.at_time == second.at_time
    &&& first.hop_count == second.hop_count
    &&& first.expiration == second.expiration
}

/// A proposed stage prunes a known one when it arrives no later with no more hops.
pub open spec fn geo_prunes(prop: RouteStage, known: RouteStage) -> bool {
    prop.at_time <= known.at_time && prop.hop_count <= known.hop_count
}

/// The opposite of an ordering.
pub open spec fn flipped(o: Ordering) -> Ordering {
    match o {
        Ordering::Less => Ordering::Greater,
        Ordering::Equal => Ordering::Equal,
        Ordering::Greater => Ordering::Less,
    }
}

impl GeoDistance {
    /// Compares two stages: the one with the greater distance is greater; on
    /// equal distances the later arrival is greater, then the higher hop count,
    /// then the lower expiration. Stages equal on all four criteria are `Equal`.
    pub fn cmp(first: &RouteStage, second: &RouteStage) -> (o: Ordering)
        ensures
            o == geo_order(*first, *second),
            first.cumulative_distance != second.cumulative_distance ==> o == (if first.cumulative_distance
                > second.cumulative_distance {
                Ordering::Greater
            } else {
                Ordering::Less
            }),
            first.cumulative_distance == second.cumulative_distance && first.at_time != second.at_time
                ==> o == (if first.at_time > second.at_time {
                Ordering::Greater
            } else {
                Ordering::Less
            }),
            first.cumulative_distance == second.cumulative_distance && first.at_time == second.at_time
                && first.hop_count != second.hop_count ==> o == (if first.hop_count > second.hop_count {
                Ordering::Greater
            } else {
                Ordering::Less
            }),
            first.cumulative_distance == second.cumulative_distance && first.at_time == second.at_time
                && first.hop_count == second.hop_count && first.expiration != second.expiration ==> o
                == (if first.expiration < second.expiration {
                Ordering::Greater
            } else {
                Ordering::Less
            }),
            first.cumulative_distance == second.cumulative_distance && first.at_time == second.at_time
                && first.hop_count == second.hop_count && first.expiration == second.expiration ==> o
                == Ordering::Equal,
    {
        if first.cumulative_distance > second.cumulative_distance {
            return Ordering::Greater;
        } else if first.cumulative_distance < second.cumulative_distance {
            return Ordering::Less;
        } else if first.at_time > second.at_time {
            return Ordering::Greater;
        } else if first.at_time < second.at_time {
            return Ordering::Less;
        } else if first.hop_count > second.hop_count {
            return Ordering::Greater;
        } else if first.hop_count < second.hop_count {
            return Ordering::Less;
        } else if first.expiration < second.expiration {
            return Ordering::Greater;
        } else if first.expiration > second.expiration {
            return Ordering::Less;
        }
        Ordering::Equal
    }

    /// Whether two stages agree on arrival time, hop count and expiration.
    pub fn eq(first: &RouteStage, second: &RouteStage) -> (b: bool)
        ensures
            b == geo_same(*first, *second),
            b == (first.at_time == second.at_time && first.hop_count == second.hop_count
                && first.expiration == second.expiration),
    {
        first.at_time == second.at_time && first.hop_count == second.hop_count && first.expiration == second.expiration
    }

    /// A proposed stage may be kept beside a known one when it has fewer hops.
    pub fn can_retain(prop: &RouteStage, known: &RouteStage) -> (b: bool)
        ensures
            b == (prop.hop_count < known.hop_count),
    {
        prop.hop_count < known.hop_count
    }

    /// A known stage must be pruned by a proposed one that arrives no later and
    /// with no more hops (expiration is not considered).
    pub fn must_prune(prop: &RouteStage, known: &RouteStage) -> (b: bool)
        ensures
            b == geo_prunes(*prop, *known),
            b ==> prop.at_time <= known.at_time && prop.hop_count <= known.hop_count,
            prop.at_time <= known.at_time && prop.hop_count <= known.hop_count ==> b,
    {
        prop.at_time <= known.at_time && prop.hop_count <= known.hop_count
    }
}

/// `cmp` answers `Equal` exactly when `eq` holds and the distances agree; so
/// `Equal` implies `eq`.
pub proof fn geo_eq_iff_cmp_equal(first: RouteStage, second: RouteStage)
    ensures
        (geo_same(first, second) && first.cumulative_distance == second.cumulative_distance)
            <==> geo_order(first, second) == Ordering::Equal,
        geo_order(first, second) == Ordering::Equal ==> geo_same(first, second),
{
}

/// Swapping the two stages flips the answer of `cmp`.
pub proof fn geo_cmp_antisymmetric(first: RouteStage, second: RouteStage)
    ensures
        geo_order(second, first) == flipped(geo_order(first, second)),
{
}

/// `cmp` is transitive: a stage below a second one that is below or equal to a
/// third is below the third, and equality is transitive too.
pub proof fn geo_cmp_transitive(a: RouteStage, b: RouteStage, c: RouteStage)
    ensures
        geo_order(a, b) == Ordering::Less && geo_order(b, c) != Ordering::Greater ==> geo_order(a, c)
            == Ordering::Less,
        geo_order(a, b) != Ordering::Greater && geo_order(b, c) == Ordering::Less ==> geo_order(a, c)
            == Ordering::Less,
        geo_order(a, b) == Ordering::Equal && geo_order(b, c) == Ordering::Equal ==> geo_order(a, c)
            == Ordering::Equal,
{
}

/// The distance decides first: of two stages with different distances, the
/// one with the greater distance is greater, whatever the other criteria.
/// Only on equal distances does the arrival time decide, then the hop count,
/// then the expiration (the later expiration is smaller); stages equal on all
/// four criteria are equal.
pub proof fn geo_cmp_lexicographic(first: RouteStage, second: RouteStage)
    ensures
        first.cumulative_distance > second.cumulative_distance ==> geo_order(first, second)
            == Ordering::Greater,
        first.cumulative_distance < second.cumulative_distance ==> geo_order(first, second)
            == Ordering::Less,
        first.cumulative_distance == second.cumulative_distance && first.at_time > second.at_time
            ==> geo_order(first, second) == Ordering::Greater,
        first.cumulative_distance == second.cumulative_distance && first.at_time < second.at_time
            ==> geo_order(first, second) == Ordering::Less,
        first.cumulative_distance == second.cumulative_distance && first.at_time == second.at_time
            && first.hop_count > second.hop_count ==> geo_order(first, second) == Ordering::Greater,
        first.cumulative_distance == second.cumulative_distance && first.at_time == second.at_time
            && first.hop_count < second.hop_count ==> geo_order(first, second) == Ordering::Less,
        first.cumulative_distance == second.cumulative_distance && first.at_time == second.at_time
            && first.hop_count == second.hop_count && first.expiration < second.expiration
            ==> geo_order(first, second) == Ordering::Greater,
        first.cumulative_distance == second.cumulative_distance && first.at_time == second.at_time
            && first.hop_count == second.hop_count && first.expiration > second.expiration
            ==> geo_order(first, second) == Ordering::Less,
        first.cumulative_distance == second.cumulative_distance && first.at_time == second.at_time
            && first.hop_count == second.hop_count && first.expiration == second.expiration
            ==> geo_order(first, second) == Ordering::Equal,
{
}

/// Changing only the arrival time, hop count or expiration of a stage never
/// moves it across another stage of different distance.
pub proof fn geo_cmp_distance_dominates(first: RouteStage, second: RouteStage, other: RouteStage)
    requires
        first.cumulative_distance != second.cumulative_distance,
        other.cumulative_distance == first.cumulative_distance,
    ensures
        geo_order(other, second) == geo_order(first, second),
{
}

/// A known stage is pruned only by a proposed stage that arrives no later and
/// has no more hops, and always by such a stage: a stage with fewer hops is
/// never pruned by one with more.
pub proof fn geo_must_prune_needs_both(prop: RouteStage, known: RouteStage)
    ensures
        geo_prunes(prop, known) <==> (prop.at_time <= known.at_time && prop.hop_count
            <= known.hop_count),
        known.hop_count < prop.hop_count ==> !geo_prunes(prop, known),
        known.at_time < prop.at_time ==> !geo_prunes(prop, known),
{
}

/// Pruning is a preorder: every stage prunes itself, and pruning chains.
pub proof fn geo_must_prune_preorder(a: RouteStage, b: RouteStage, c: RouteStage)
    ensures
        geo_prunes(a, a),
        geo_prunes(a, b) && geo_prunes(b, c) ==> geo_prunes(a, c),
{
}

} // verus!
