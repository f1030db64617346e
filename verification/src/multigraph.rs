//! The contact multigraph: for every sending node, the receivers it can reach
//! and the contacts towards each of them, with the tables that the heuristics
//! consult.
use vstd::prelude::*;
use crate::types::{Date, Duration, GeographicalDistance, NodeID};

verus! {

/// A contact: a window `[start, end)` during which a transmission towards the
/// receiver can begin, and the delay of such a transmission.
#[derive(Clone, Copy, Debug, PartialEq, Eq)]
pub struct Contact {
    pub start: Date,
    pub end: Date,
    pub delay: Duration,
}

/// A receiver of a sender, with the contacts from the sender towards it.
pub struct Receiver {
    pub node: NodeID,
    pub contacts: Vec<Contact>,
}

/// A sending node and its receivers.
pub struct Sender {
    pub receivers: Vec<Receiver>,
}

/// From time `from` on, the geographical distance between two nodes is `distance`.
#[derive(Clone, Copy, Debug, PartialEq, Eq)]
pub struct DistanceSample {
    pub from: Date,
    pub distance: GeographicalDistance,
}

/// The contact multigraph. Node `n` is described by `senders[n]`.
pub struct Multigraph {
    pub senders: Vec<Sender>,
    /// `minimal_delays[s][t]`: the minimal delay to go from node `s` to node `t`.
    pub minimal_delays: Vec<Vec<Duration>>,
    /// `distances[s][t]`: the geographical distance between `s` and `t` over time.
    pub distances: Vec<Vec<Vec<DistanceSample>>>,
}

impl Multigraph {
    /// The receivers of node `tx`; a node outside the graph has none.
    pub open spec fn receivers_of(&self, tx: NodeID) -> Seq<Receiver> {
        if (tx as int) < self.senders@.len() {
            self.senders@[tx as int].receivers@
        } else {
            Seq::empty()
        }
    }

    /// The minimal delay from `tx` to `target`; pairs outside the table are unreachable.
    pub open spec fn minimal_delay(&self, tx: NodeID, target: NodeID) -> Duration {
        if (tx as int) < self.minimal_delays@.len() && (target as int)
            < self.minimal_delays@[tx as int]@.len() {
            self.minimal_delays@[tx as int]@[target as int]
        } else {
            Duration::MAX
        }
    }

    /// Returns the minimal delay to go from `tx` to `target`, or `Duration::MAX`
    /// when the table holds no entry for the pair.
    pub fn get_minimal_delay_between_sender_and_target(&self, tx: NodeID, target: NodeID) -> (d:
        Duration)
        ensures
            d == self.minimal_delay(tx, target),
            (tx as int) < self.minimal_delays@.len() && (target as int) < self.minimal_delays@[tx as int]@.len() ==> d == self.minimal_delays@[tx as int]@[target as int],
            !((tx as int) < self.minimal_delays@.len() && (target as int) < self.minimal_delays@[tx as int]@.len()) ==> d == Duration::MAX,
    {
        let t: usize = tx as usize;
        if t < self.minimal_delays.len() {
            let row = &self.minimal_delays[t];
            let g: usize = target as usize;
            if g < row.len() {
                return row[g];
            }
        }
        Duration::MAX
    }

    /// The distance between `tx` and `target` at time `at`: the distance of the
    /// last sample of the pair whose `from` is at or before `at`, or 0 if there
    /// is none.
    pub open spec fn distance_at(&self, tx: NodeID, target: NodeID, at: Date) -> GeographicalDistance {
        if (tx as int) < self.distances@.len() && (target as int) < self.distances@[tx as int]@.len() {
            last_distance_at(self.distances@[tx as int]@[target as int]@, at)
        } else {
            0
        }
    }

    /// Returns the geographical distance between `tx` and `target` at time `at`.
    pub fn get_distance_between_sender_and_target_at_time(
        &self,
        tx: NodeID,
        target: NodeID,
        at: Date,
    ) -> (d: GeographicalDistance)
        ensures
            d == self.distance_at(tx, target, at),
            (tx as int) < self.distances@.len() && (target as int) < self.distances@[tx as int]@.len()
                ==> d == last_distance_at(self.distances@[tx as int]@[target as int]@, at),
            !((tx as int) < self.distances@.len() && (target as int) < self.distances@[tx as int]@.len())
                ==> d == 0,
    {
        let t: usize = tx as usize;
        if t < self.distances.len() {
            let row = &self.distances[t];
            let g: usize = target as usize;
            if g < row.len() {
                let samples = &row[g];
                let mut d: GeographicalDistance = 0;
                let mut i: usize = 0;
                while i < samples.len()
                    invariant
                        i <= samples@.len(),
                        d == last_distance_at(samples@.take(i as int), at),
                    decreases samples@.len() - i,
                {
                    assert(samples@.take(i + 1).drop_last() =~= samples@.take(i as int));
                    if samples[i].from <= at {
                        d = samples[i].distance;
                    }
                    i = i + 1;
                }
                assert(samples@.take(samples@.len() as int) =~= samples@);
                return d;
            }
        }
        0
    }
}

/// The distance of the last sample in `samples` whose `from` is at or before `at`, or 0.
pub open spec fn last_distance_at(samples: Seq<DistanceSample>, at: Date) -> GeographicalDistance
    decreases samples.len(),
{
    if samples.len() == 0 {
        0
    } else if samples.last().from <= at {
        samples.last().distance
    } else {
        last_distance_at(samples.drop_last(), at)
    }
}

/// The distance in force at `at` is that of the last sample (by position)
/// that starts at or before `at`; it is 0 when every sample starts later.
pub proof fn lemma_last_distance_at_is_last_sample(samples: Seq<DistanceSample>, at: Date)
    ensures
        (exists|i: int|
            0 <= i < samples.len() && samples[i].from <= at && #[trigger] samples[i].distance
                == last_distance_at(samples, at) && forall|j: int|
                i < j < samples.len() ==> #[trigger] samples[j].from > at) || (last_distance_at(
            samples,
            at,
        ) == 0 && forall|j: int| 0 <= j < samples.len() ==> #[trigger] samples[j].from > at),
    decreases samples.len(),
{
    if samples.len() > 0 {
        let rest = samples.drop_last();
        lemma_last_distance_at_is_last_sample(rest, at);
        let n = samples.len() - 1;
        if samples[n].from <= at {
            assert(samples[n].distance == last_distance_at(samples, at));
        } else if last_distance_at(rest, at) == 0 && forall|j: int| 0 <= j < rest.len() ==> #[trigger] rest[j].from > at {
            assert forall|j: int| 0 <= j < samples.len() implies #[trigger] samples[j].from > at by {
                if j < n {
                    assert(rest[j] == samples[j]);
                }
            }
        } else {
            let i = choose|i: int|
                0 <= i < rest.len() && rest[i].from <= at && #[trigger] rest[i].distance
                    == last_distance_at(rest, at) && forall|j: int|
                    i < j < rest.len() ==> #[trigger] rest[j].from > at;
            assert(rest[i] == samples[i]);
            assert(samples[i].distance == last_distance_at(samples, at));
            assert forall|j: int| i < j < samples.len() implies #[trigger] samples[j].from > at by {
                if j < n {
                    assert(rest[j] == samples[j]);
                }
            }
        }
    }
}

impl Receiver {
    /// The index of the first contact that ends after `at`, if any.
    pub open spec fn first_index_after(&self, at: Date) -> Option<int> {
        first_contact_after(self.contacts@, at)
    }

    /// Returns the index of the first contact whose end lies after `at_time`,
    /// that is the first contact that can still be used at `at_time`.
    pub fn get_first_idx(&self, at_time: Date) -> (r: Option<usize>)
        ensures
            r matches Some(i) ==> self.first_index_after(at_time) == Some(i as int),
            r is None ==> self.first_index_after(at_time) is None,
    {
        let mut i: usize = 0;
        while i < self.contacts.len()
            invariant
                i <= self.contacts@.len(),
                forall|j: int| 0 <= j < i ==> self.contacts@[j].end <= at_time,
            decreases self.contacts@.len() - i,
        {
            if self.contacts[i].end > at_time {
                proof {
                    lemma_first_contact_after(self.contacts@, at_time, i as int);
                }
                return Some(i);
            }
            i = i + 1;
        }
        proof {
            lemma_first_contact_none(self.contacts@, at_time);
        }
        None
    }
}

/// The first index of `contacts` whose contact ends after `at`.
pub open spec fn first_contact_after(contacts: Seq<Contact>, at: Date) -> Option<int> {
    if exists|i: int| 0 <= i < contacts.len() && contacts[i].end > at {
        Some(
            choose|i: int|
                0 <= i < contacts.len() && contacts[i].end > at && forall|j: int|
                    0 <= j < i ==> contacts[j].end <= at,
        )
    } else {
        None
    }
}

proof fn lemma_first_contact_after(contacts: Seq<Contact>, at: Date, i: int)
    requires
        0 <= i < contacts.len(),
        contacts[i].end > at,
        forall|j: int| 0 <= j < i ==> contacts[j].end <= at,
    ensures
        first_contact_after(contacts, at) == Some(i),
{
    let c = choose|k: int|
        0 <= k < contacts.len() && contacts[k].end > at && forall|j: int|
            0 <= j < k ==> contacts[j].end <= at;
    assert(0 <= c < contacts.len() && contacts[c].end > at && forall|j: int|
        0 <= j < c ==> contacts[j].end <= at);
    if c < i {
        assert(contacts[c].end <= at);
    }
    if c > i {
        assert(contacts[i].end <= at);
    }
}

proof fn lemma_first_contact_none(contacts: Seq<Contact>, at: Date)
    requires
        forall|j: int| 0 <= j < contacts.len() ==> contacts[j].end <= at,
    ensures
        first_contact_after(contacts, at) is None,
{
}

} // verus!
