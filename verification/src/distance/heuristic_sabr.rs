use vstd::prelude::*;
use std::cmp::Ordering;
use crate::distance::geographical_distance::flipped;
use crate::route_stage::RouteStage;

verus! {

/// Ordering of route stages by the standard SABR tie-break rules applied to
/// the predicted metrics of A*: predicted arrival time, then predicted hop
/// count, then expiration (a later expiration ranks lower). The expiration is
/// the route's own, as no heuristic predicts it.
pub struct HeuristicSabr {}

/// The order that `HeuristicSabr::cmp` computes.
pub open spec fn sabr_order(first: RouteStage, second: RouteStage) -> Ordering {
    if first.at_time_heuristic > second.at_time_heuristic {
        Ordering::Greater
    } else if first.at_time_heuristic < second.at_time_heuristic {
        Ordering::Less
    } else if first.hop_count_heuristic > second.hop_count_heuristic {
        Ordering::Greater
    } else if first.hop_count_heuristic < second.hop_count_heuristic {
        Ordering::Less
    } else if first.expiration < second.expiration {
        Ordering::Greater
    } else if first.expiration > second.expiration {
        Ordering::Less
    } else {
        Ordering::Equal
    }
}

/// The equality that `HeuristicSabr::eq` computes.
pub open spec fn sabr_same(first: RouteStage, second: RouteStage) -> bool {
    &&& first.at_time_heuristic == second.at_time_heuristic
    &&& first.hop_count_heuristic == second.hop_count_heuristic
    &&& first.expiration == second.expiration
}

/// A proposed stage prunes a known one when it is predicted to arrive no later
/// with no more hops.
pub open spec fn sabr_prunes(prop: RouteStage, known: RouteStage) -> bool {
    prop.at_time_heuristic <= known.at_time_heuristic && prop.hop_count_heuristic
        <= known.hop_count_heuristic
}

impl HeuristicSabr {
    /// Compares two stages: the later predicted arrival is greater; on equal
    /// predicted arrivals the higher predicted hop count, then the lower
    /// expiration. Stages equal on all three criteria are `Equal`.
    pub fn cmp(first: &RouteStage, second: &RouteStage) -> (o: Ordering)
        ensures
            o == sabr_order(*first, *second),
            first.at_time_heuristic != second.at_time_heuristic ==> o == (if first.at_time_heuristic
                > second.at_time_heuristic {
                Ordering::Greater
            } else {
                Ordering::Less
            }),
            first.at_time_heuristic == second.at_time_heuristic && first.hop_count_heuristic
                != second.hop_count_heuristic ==> o == (if first.hop_count_heuristic
                > second.hop_count_heuristic {
                Ordering::Greater
            } else {
                Ordering::Less
            }),
            first.at_time_heuristic == second.at_time_heuristic && first.hop_count_heuristic
                == second.hop_count_heuristic && first.expiration != second.expiration ==> o == (
            if first.expiration < second.expiration {
                Ordering::Greater
            } else {
                Ordering::Less
            }),
            first.at_time_heuristic == second.at_time_heuristic && first.hop_count_heuristic
                == second.hop_count_heuristic && first.expiration == second.expiration ==> o
                == Ordering::Equal,
    {
        if first.at_time_heuristic > second.at_time_heuristic {
            return Ordering::Greater;
        } else if first.at_time_heuristic < second.at_time_heuristic {
            return Ordering::Less;
        } else if first.hop_count_heuristic > second.hop_count_heuristic {
            return Ordering::Greater;
        } else if first.hop_count_heuristic < second.hop_count_heuristic {
            return Ordering::Less;
        } else if first.expiration < second.expiration {
            return Ordering::Greater;
        } else if first.expiration > second.expiration {
            return Ordering::Less;
        }
        Ordering::Equal
    }

    /// Whether two stages agree on predicted arrival, predicted hop count and expiration.
    pub fn eq(first: &RouteStage, second: &RouteStage) -> (b: bool)
        ensures
            b == sabr_same(*first, *second),
            b == (first.at_time_heuristic == second.at_time_heuristic && first.hop_count_heuristic
                == second.hop_count_heuristic && first.expiration == second.expiration),
    {
        first.at_time_heuristic == second.at_time_heuristic && first.hop_count_heuristic
            == second.hop_count_heuristic && first.expiration == second.expiration
    }

    /// A proposed stage may be kept beside a known one when it is predicted to
    /// need fewer hops.
    pub fn can_retain(prop: &RouteStage, known: &RouteStage) -> (b: bool)
        ensures
            b == (prop.hop_count_heuristic < known.hop_count_heuristic),
    {
        prop.hop_count_heuristic < known.hop_count_heuristic
    }

    /// A known stage must be pruned by a proposed one predicted to arrive no
    /// later with no more hops (expiration is not considered).
    pub fn must_prune(prop: &RouteStage, known: &RouteStage) -> (b: bool)
        ensures
            b == sabr_prunes(*prop, *known),
            b ==> prop.at_time_heuristic <= known.at_time_heuristic && prop.hop_count_heuristic
                <= known.hop_count_heuristic,
            prop.at_time_heuristic <= known.at_time_heuristic && prop.hop_count_heuristic
                <= known.hop_count_heuristic ==> b,
    {
        prop.at_time_heuristic <= known.at_time_heuristic && prop.hop_count_heuristic
            <= known.hop_count_heuristic
    }
}

/// `eq` holds exactly when `cmp` answers `Equal`.
pub proof fn sabr_eq_iff_cmp_equal(first: RouteStage, second: RouteStage)
    ensures
        sabr_same(first, second) <==> sabr_order(first, second) == Ordering::Equal,
{
}

/// Swapping the two stages flips the answer of `cmp`.
pub proof fn sabr_cmp_antisymmetric(first: RouteStage, second: RouteStage)
    ensures
        sabr_order(second, first) == flipped(sabr_order(first, second)),
{
}

/// `cmp` is transitive: a stage below a second one that is below or equal to a
/// third is below the third, and equality is transitive too.
pub proof fn sabr_cmp_transitive(a: RouteStage, b: RouteStage, c: RouteStage)
    ensures
        sabr_order(a, b) == Ordering::Less && sabr_order(b, c) != Ordering::Greater ==> sabr_order(
            a,
            c,
        ) == Ordering::Less,
        sabr_order(a, b) != Ordering::Greater && sabr_order(b, c) == Ordering::Less ==> sabr_order(
            a,
            c,
        ) == Ordering::Less,
        sabr_order(a, b) == Ordering::Equal && sabr_order(b, c) == Ordering::Equal ==> sabr_order(
            a,
            c,
        ) == Ordering::Equal,
{
}

/// The predicted arrival decides first: of two stages with different
/// predicted arrivals, the later one is greater, whatever the hop counts and
/// expirations. Only on equal predicted arrivals does the predicted hop count
/// decide, then the expiration (the later expiration is smaller); stages equal
/// on all three criteria are equal.
pub proof fn sabr_cmp_lexicographic(first: RouteStage, second: RouteStage)
    ensures
        first.at_time_heuristic > second.at_time_heuristic ==> sabr_order(first, second)
            == Ordering::Greater,
        first.at_time_heuristic < second.at_time_heuristic ==> sabr_order(first, second)
            == Ordering::Less,
        first.at_time_heuristic == second.at_time_heuristic && first.hop_count_heuristic
            > second.hop_count_heuristic ==> sabr_order(first, second) == Ordering::Greater,
        first.at_time_heuristic == second.at_time_heuristic && first.hop_count_heuristic
            < second.hop_count_heuristic ==> sabr_order(first, second) == Ordering::Less,
        first.at_time_heuristic == second.at_time_heuristic && first.hop_count_heuristic
            == second.hop_count_heuristic && first.expiration < second.expiration ==> sabr_order(
            first,
            second,
        ) == Ordering::Greater,
        first.at_time_heuristic == second.at_time_heuristic && first.hop_count_heuristic
            == second.hop_count_heuristic && first.expiration > second.expiration ==> sabr_order(
            first,
            second,
        ) == Ordering::Less,
        first.at_time_heuristic == second.at_time_heuristic && first.hop_count_heuristic
            == second.hop_count_heuristic && first.expiration == second.expiration ==> sabr_order(
            first,
            second,
        ) == Ordering::Equal,
{
}

/// Changing only the predicted hop count or the expiration of a stage never
/// moves it across another stage with a different predicted arrival.
pub proof fn sabr_cmp_arrival_dominates(first: RouteStage, second: RouteStage, other: RouteStage)
    requires
        first.at_time_heuristic != second.at_time_heuristic,
        other.at_time_heuristic == first.at_time_heuristic,
    ensures
        sabr_order(other, second) == sabr_order(first, second),
{
}

/// A known stage is pruned only by a proposed stage predicted to arrive no
/// later with no more hops, and always by such a stage.
pub proof fn sabr_must_prune_needs_both(prop: RouteStage, known: RouteStage)
    ensures
        sabr_prunes(prop, known) <==> (prop.at_time_heuristic <= known.at_time_heuristic
            && prop.hop_count_heuristic <= known.hop_count_heuristic),
        known.hop_count_heuristic < prop.hop_count_heuristic ==> !sabr_prunes(prop, known),
        known.at_time_heuristic < prop.at_time_heuristic ==> !sabr_prunes(prop, known),
{
}

/// Pruning is a preorder: every stage prunes itself, and pruning chains.
pub proof fn sabr_must_prune_preorder(a: RouteStage, b: RouteStage, c: RouteStage)
    ensures
        sabr_prunes(a, a),
        sabr_prunes(a, b) && sabr_prunes(b, c) ==> sabr_prunes(a, c),
{
}

} // verus!
