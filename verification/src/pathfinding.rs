//! Extending a route stage by one hop over the contacts towards a receiver.
use vstd::prelude::*;
use crate::multigraph::Contact;
use crate::route_stage::RouteStage;
use crate::types::{Date, HopCount, NodeID};

verus! {

/// The time at which a transmission over `c` can begin for a bundle present at `at`.
pub open spec fn departure(at: Date, c: Contact) -> Date {
    if at < c.start {
        c.start
    } else {
        at
    }
}

/// Whether a bundle present at `at` can still be sent over `c`.
pub open spec fn usable(at: Date, c: Contact) -> bool {
    departure(at, c) < c.end
}

/// The arrival time at the receiver of a transmission over `c` for a bundle present at `at`.
pub open spec fn arrival(at: Date, c: Contact) -> Date {
    departure(at, c).saturating_add(c.delay)
}

/// Among the contacts of `cs` with an index in `[lo, hi)`, the first usable
/// one with the earliest arrival.
pub open spec fn best_contact(at: Date, cs: Seq<Contact>, lo: int, hi: int) -> Option<int>
    decreases hi - lo,
{
    if hi <= lo {
        None
    } else {
        let b = best_contact(at, cs, lo, hi - 1);
        if usable(at, cs[hi - 1]) && (b is None || arrival(at, cs[hi - 1]) < arrival(
            at,
            cs[b->0],
        )) {
            Some(hi - 1)
        } else {
            b
        }
    }
}

/// The stage reached at `receiver` from `stage` over the contact `c`.
pub open spec fn hop_over(stage: RouteStage, c: Contact, receiver: NodeID) -> RouteStage {
    let at: Date = arrival(stage.at_time, c);
    let hops: HopCount = stage.hop_count.saturating_add(1);
    RouteStage {
        to_node: receiver,
        at_time: at,
        hop_count: hops,
        expiration: if c.end < stage.expiration {
            c.end
        } else {
            stage.expiration
        },
        at_time_heuristic: at,
        hop_count_heuristic: hops,
        cumulative_distance: stage.cumulative_distance,
        via_contact_start: Some(c.start),
    }
}

/// The hop from `stage` to `receiver` over the best contact of `cs` from index `first` on.
pub open spec fn hop_result(stage: RouteStage, cs: Seq<Contact>, first: int, receiver: NodeID) -> Option<
    RouteStage,
> {
    match best_contact(stage.at_time, cs, first, cs.len() as int) {
        Some(i) => Some(hop_over(stage, cs[i], receiver)),
        None => None,
    }
}

/// A hop never arrives before the stage it starts from, and counts one hop more
/// (saturating at `HopCount::MAX`).
pub proof fn lemma_hop_moves_forward(stage: RouteStage, cs: Seq<Contact>, first: int, receiver: NodeID)
    ensures
        hop_result(stage, cs, first, receiver) matches Some(p) ==> {
            &&& p.at_time >= stage.at_time
            &&& p.to_node == receiver
            &&& p.hop_count >= stage.hop_count
            &&& p.expiration <= stage.expiration
        },
{
}

/// The contact that `best_contact` picks is usable, has the earliest arrival
/// among the usable contacts of the range, and comes first among those with
/// that arrival; none is picked when no contact of the range is usable.
proof fn lemma_best_contact_is_earliest(at: Date, cs: Seq<Contact>, lo: int, hi: int)
    requires
        0 <= lo,
        hi <= cs.len(),
    ensures
        best_contact(at, cs, lo, hi) matches Some(i) ==> {
            &&& lo <= i < hi
            &&& usable(at, cs[i])
            &&& forall|j: int| lo <= j < hi && usable(at, cs[j]) ==> arrival(at, cs[i]) <= arrival(at, #[trigger] cs[j])
            &&& forall|j: int| lo <= j < i && usable(at, cs[j]) ==> arrival(at, cs[i]) < arrival(at, #[trigger] cs[j])
        },
        best_contact(at, cs, lo, hi) is None ==> forall|j: int| lo <= j < hi ==> !usable(at, #[trigger] cs[j]),
    decreases hi - lo,
{
    if hi > lo {
        lemma_best_contact_is_earliest(at, cs, lo, hi - 1);
    }
}

/// A hop leaves over a contact of the range that is still open when the bundle
/// can leave (at the later of its arrival and the contact's start), arrives
/// after that contact's delay (saturating), and no usable contact of the range
/// arrives earlier, nor as early from a lower index. The new stage is at the
/// receiver, counts one hop more, expires with the earlier of the stage's and
/// the contact's end, keeps the distance covered and records the contact's
/// start. When no contact of the range is open in time, there is no hop.
pub proof fn hop_takes_earliest_arrival(stage: RouteStage, cs: Seq<Contact>, first: int, receiver: NodeID)
    requires
        0 <= first,
    ensures
        hop_result(stage, cs, first, receiver) matches Some(p) ==> exists|i: int|
            {
                let dep_i: Date = if stage.at_time < cs[i].start { cs[i].start } else { stage.at_time };
                &&& first <= i < cs.len()
                &&& dep_i < cs[i].end
                &&& p.at_time == dep_i.saturating_add(cs[i].delay)
                &&& p.to_node == receiver
                &&& p.hop_count == stage.hop_count.saturating_add(1)
                &&& p.at_time_heuristic == p.at_time
                &&& p.hop_count_heuristic == p.hop_count
                &&& p.cumulative_distance == stage.cumulative_distance
                &&& p.via_contact_start == Some(#[trigger] cs[i].start)
                &&& p.expiration == (if cs[i].end < stage.expiration { cs[i].end } else { stage.expiration })
                &&& forall|j: int|
                    #![trigger cs[j]]
                    {
                        let dep_j: Date = if stage.at_time < cs[j].start { cs[j].start } else { stage.at_time };
                        first <= j < cs.len() && dep_j < cs[j].end ==> p.at_time <= dep_j.saturating_add(
                            cs[j].delay,
                        ) && (j < i ==> p.at_time < dep_j.saturating_add(cs[j].delay))
                    }
            },
        hop_result(stage, cs, first, receiver) is None ==> forall|j: int|
            first <= j < cs.len() ==> !((if stage.at_time < cs[j].start {
                cs[j].start
            } else {
                stage.at_time
            }) < #[trigger] cs[j].end),
{
    lemma_best_contact_is_earliest(stage.at_time, cs, first, cs.len() as int);
    if let Some(i) = best_contact(stage.at_time, cs, first, cs.len() as int) {
        assert(cs[i].start == cs[i].start);
    }
}

/// Tries to extend `route_stage` by one hop to `receiver`, over the contacts of
/// `contacts` from index `first_contact_index` on. Among the contacts that are
/// still open when the bundle can leave, it takes the one with the earliest
/// arrival (the first such contact on ties). Returns `None` when no contact is
/// usable.
pub fn try_make_hop(
    first_contact_index: usize,
    route_stage: &RouteStage,
    contacts: &Vec<Contact>,
    receiver: NodeID,
) -> (r: Option<RouteStage>)
    ensures
        r == hop_result(*route_stage, contacts@, first_contact_index as int, receiver),
{
    let at: Date = route_stage.at_time;
    let mut best: Option<usize> = None;
    let mut best_arrival: Date = 0;
    let mut i: usize = first_contact_index;
    if i > contacts.len() {
        proof {
            assert(best_contact(at, contacts@, first_contact_index as int, contacts@.len() as int)
                is None);
        }
        return None;
    }
    while i < contacts.len()
        invariant
            first_contact_index <= i <= contacts@.len(),
            at == route_stage.at_time,
            best matches Some(b) ==> best_contact(
                at,
                contacts@,
                first_contact_index as int,
                i as int,
            ) == Some(b as int) && (b as int) < contacts@.len() && best_arrival == arrival(
                at,
                contacts@[b as int],
            ),
            best is None ==> best_contact(at, contacts@, first_contact_index as int, i as int) is None,
        decreases contacts@.len() - i,
    {
        let c = contacts[i];
        let dep: Date = if at < c.start {
            c.start
        } else {
            at
        };
        if dep < c.end {
            let arr: Date = dep.saturating_add(c.delay);
            match best {
                None => {
                    best = Some(i);
                    best_arrival = arr;
                },
                Some(_) => {
                    if arr < best_arrival {
                        best = Some(i);
                        best_arrival = arr;
                    }
                },
            }
        }
        i = i + 1;
    }
    match best {
        None => None,
        Some(b) => {
            let c = contacts[b];
            let dep: Date = if at < c.start {
                c.start
            } else {
                at
            };
            let arr: Date = dep.saturating_add(c.delay);
            let hops: HopCount = route_stage.hop_count.saturating_add(1);
            Some(
                RouteStage {
                    to_node: receiver,
                    at_time: arr,
                    hop_count: hops,
                    expiration: if c.end < route_stage.expiration {
                        c.end
                    } else {
                        route_stage.expiration
                    },
                    at_time_heuristic: arr,
                    hop_count_heuristic: hops,
                    cumulative_distance: route_stage.cumulative_distance,
                    via_contact_start: Some(c.start),
                },
            )
        },
    }
}

} // verus!
