//! Appending an event: the checks that admit it and the metadata computed
//! for it, once, from the graph as it stands.

use vstd::prelude::*;
use crate::digest_set::{ascending, put, union};
use crate::error::Error;
use crate::event::{Event, PackedEvent};
use crate::hash::Digest;
use crate::metadata::{absent, merged, spec_absent, spec_merged};
use crate::parsec::Parsec;
use crate::peer_manager::spec_is_super_majority;
use crate::tally::count_below;

verus! {

/// The number of events that carry a vote for `payload`.
pub open spec fn spec_vote_count(events: Seq<Event>, payload: u64) -> nat {
    count_below(events.len(), |i: int| events[i].packed.spec_vote() == Some(payload))
}

impl Parsec {
    /// Why an event that the graph does not hold yet is refused, or `None`
    /// where it is admitted.
    ///
    /// An event without a self-parent must have no other parent either and
    /// must open its creator's chain. Any other event must name parents that
    /// the graph holds, and its self-parent must be the latest event of its
    /// creator. The creator must be a member.
    pub open spec fn spec_refusal(&self, packed: PackedEvent) -> Option<Error> {
        let c = self.peer_manager.spec_slot_of(packed.creator);
        match packed.self_parent {
            None => if packed.other_parent.is_some() {
                Some(Error::InvalidEvent)
            } else if !self.peer_manager.has_peer(packed.creator) {
                Some(Error::UnknownPeer)
            } else if self.peer_manager.chains[c].len() != 0 {
                Some(Error::InvalidEvent)
            } else {
                None
            },
            Some(hs) => if !self.graph.contains(hs) {
                Some(Error::UnknownParent)
            } else if packed.other_parent matches Some(ho) && !self.graph.contains(ho) {
                Some(Error::UnknownParent)
            } else if !self.peer_manager.has_peer(packed.creator) {
                Some(Error::UnknownPeer)
            } else if self.peer_manager.chains[c].len() == 0 || self.peer_manager.chains[c]@.last()
                != hs {
                Some(Error::InvalidEvent)
            } else {
                None
            },
        }
    }

    /// The index of an admitted event: one more than its self-parent's, or 0
    /// where it has none.
    pub open spec fn spec_index(&self, packed: PackedEvent) -> int {
        match packed.self_parent {
            None => 0,
            Some(hs) => self.graph.events[self.graph.position(hs)].index + 1,
        }
    }

    /// The last ancestors of an admitted event with the given index whose
    /// creator has the slot `c`: slot by slot the greater entry of its
    /// parents, and its own index at `c`.
    pub open spec fn spec_last_ancestors(&self, packed: PackedEvent, c: int, index: u64) -> Seq<
        Option<u64>,
    > {
        match packed.self_parent {
            None => spec_absent(self.peers() as nat).update(c, Some(index)),
            Some(hs) => {
                let own = self.graph.events[self.graph.position(hs)].last_ancestors@;
                match packed.other_parent {
                    None => own.update(c, Some(index)),
                    Some(ho) => spec_merged(
                        own,
                        self.graph.events[self.graph.position(ho)].last_ancestors@,
                    ).update(c, Some(index)),
                }
            },
        }
    }

    /// Checks whether an event that the graph does not hold yet is admitted,
    /// and returns the slot of its creator.
    pub fn check(&self, packed: &PackedEvent) -> (res: Result<usize, Error>)
        requires
            self.wf(),
        ensures
            match res {
                Ok(c) => self.spec_refusal(*packed).is_none() && c
                    == self.peer_manager.spec_slot_of(packed.creator) && c
                    < self.peer_manager.ids.len() && self.peer_manager.ids[c as int]
                    == packed.creator,
                Err(e) => self.spec_refusal(*packed) == Some(e),
            },
    {
        match packed.self_parent {
            None => {
                if packed.other_parent.is_some() {
                    return Err(Error::InvalidEvent);
                }
                match self.peer_manager.slot_of(packed.creator) {
                    None => Err(Error::UnknownPeer),
                    Some(c) => {
                        if self.peer_manager.chains[c].len() != 0 {
                            Err(Error::InvalidEvent)
                        } else {
                            Ok(c)
                        }
                    },
                }
            },
            Some(hs) => {
                if !self.graph.contains_hash(hs) {
                    return Err(Error::UnknownParent);
                }
                if let Some(ho) = packed.other_parent {
                    if !self.graph.contains_hash(ho) {
                        return Err(Error::UnknownParent);
                    }
                }
                match self.peer_manager.slot_of(packed.creator) {
                    None => Err(Error::UnknownPeer),
                    Some(c) => {
                        let n = self.peer_manager.chains[c].len();
                        if n == 0 || self.peer_manager.chains[c][n - 1] != hs {
                            Err(Error::InvalidEvent)
                        } else {
                            Ok(c)
                        }
                    },
                }
            },
        }
    }

    /// The self-parent of an admitted event stands last on its creator's
    /// chain, so the event's index is the length of that chain.
    pub proof fn lemma_index_is_chain_length(&self, packed: PackedEvent)
        requires
            self.wf(),
            self.spec_refusal(packed).is_none(),
        ensures
            self.spec_index(packed) == self.peer_manager.chains[self.peer_manager.spec_slot_of(
                packed.creator,
            )].len(),
            packed.self_parent matches Some(hs) ==> self.graph.events[self.graph.position(
                hs,
            )].packed.creator == packed.creator,
    {
        let c = self.peer_manager.spec_slot_of(packed.creator);
        if let Some(hs) = packed.self_parent {
            let k = self.peer_manager.chains[c].len() - 1;
            assert(self.chain_wf(c, k));
            let i = choose|i: int|
                0 <= i < self.graph.events.len() && #[trigger] self.is_chain_event(i, c, k);
            self.graph.lemma_position(i);
        }
    }

    /// Sets the index of the staged event.
    pub fn set_index(&self, event: &mut Event)
        requires
            self.wf(),
            self.spec_refusal(old(event).packed).is_none(),
        ensures
            final(event).index == self.spec_index(old(event).packed),
            *final(event) == (Event { index: final(event).index, ..*old(event) }),
    {
        proof {
            self.lemma_index_is_chain_length(event.packed);
        }
        match event.packed.self_parent {
            None => {
                event.index = 0;
            },
            Some(hs) => {
                match self.graph.get(hs) {
                    Some(parent) => {
                        proof {
                            assert(self.event_wf(self.graph.position(hs)));
                        }
                        event.index = parent.index + 1;
                    },
                    None => {
                        proof {
                            assert(false);
                        }
                    },
                }
            },
        }
    }

    /// Sets the last ancestors of the staged event, whose index is set.
    pub fn set_last_ancestors(&self, event: &mut Event)
        requires
            self.wf(),
            self.spec_refusal(old(event).packed).is_none(),
        ensures
            final(event).last_ancestors@ == self.spec_last_ancestors(
                old(event).packed,
                self.peer_manager.spec_slot_of(old(event).packed.creator),
                old(event).index,
            ),
            *final(event) == (Event {
                last_ancestors: final(event).last_ancestors,
                ..*old(event)
            }),
    {
        let c = match self.peer_manager.slot_of(event.packed.creator) {
            Some(c) => c,
            None => {
                proof {
                    assert(false);
                }
                0
            },
        };
        let mut out: Vec<Option<u64>> = match event.packed.self_parent {
            None => absent(self.peer_manager.ids.len()),
            Some(hs) => {
                let own = match self.graph.find(hs) {
                    Some(at) => at,
                    None => {
                        proof {
                            assert(false);
                        }
                        0
                    },
                };
                proof {
                    assert(self.event_wf(own as int));
                }
                match event.packed.other_parent {
                    None => self.graph.events[own].last_ancestors.clone(),
                    Some(ho) => {
                        let other = match self.graph.find(ho) {
                            Some(at) => at,
                            None => {
                                proof {
                                    assert(false);
                                }
                                0
                            },
                        };
                        proof {
                            assert(self.event_wf(other as int));
                        }
                        merged(
                            &self.graph.events[own].last_ancestors,
                            &self.graph.events[other].last_ancestors,
                        )
                    },
                }
            },
        };
        out[c] = Some(event.index);
        event.last_ancestors = out;
    }

    /// The self-parent of the event holds meta-votes already: the agreements
    /// of the current round of decisions are under way on this chain.
    pub open spec fn spec_in_round(&self, packed: PackedEvent) -> bool {
        packed.self_parent matches Some(hs) && self.graph.contains(hs)
            && self.meta_votes[self.graph.position(hs)].is_some()
    }

    /// With this event the votes for its payload become a super-majority.
    pub open spec fn spec_makes_valid(&self, packed: PackedEvent) -> bool {
        packed.spec_vote() matches Some(v) && spec_is_super_majority(
            spec_vote_count(self.graph.events@, v) + 1,
            self.peers() as nat,
        )
    }

    /// An admitted event with the hash `hash` carries the valid block of the
    /// event `h`: unless its chain is in a round of decisions already, it
    /// carries what its parents carry, and itself where it makes a block valid.
    pub open spec fn spec_carries(&self, packed: PackedEvent, hash: Digest, h: Digest) -> bool {
        &&& !self.spec_in_round(packed)
        &&& {
            ||| packed.self_parent matches Some(hs) && self.graph.events[self.graph.position(
                hs,
            )].valid_blocks_carried@.contains(h)
            ||| packed.other_parent matches Some(ho) && self.graph.events[self.graph.position(
                ho,
            )].valid_blocks_carried@.contains(h)
            ||| self.spec_makes_valid(packed) && h == hash
        }
    }

    /// The number of events that carry a vote for `payload`.
    pub fn count_votes(&self, payload: u64) -> (count: usize)
        ensures
            count == spec_vote_count(self.graph.events@, payload),
            count <= self.graph.events.len(),
    {
        let mut count: usize = 0;
        let mut i: usize = 0;
        while i < self.graph.events.len()
            invariant
                i <= self.graph.events.len(),
                count <= i,
                count == count_below(
                    i as nat,
                    |j: int| self.graph.events@[j].packed.spec_vote() == Some(payload),
                ),
            decreases self.graph.events.len() - i,
        {
            match self.graph.events[i].packed.payload {
                crate::event::Payload::Vote(v) => {
                    if v == payload {
                        count += 1;
                    }
                },
                _ => {},
            }
            i += 1;
        }
        count
    }

    /// Tells whether the event at `at` holds meta-votes.
    pub fn has_meta_votes(&self, at: usize) -> (yes: bool)
        requires
            at < self.meta_votes.len(),
        ensures
            yes == self.meta_votes[at as int].is_some(),
    {
        self.meta_votes[at].is_some()
    }

    /// Sets the valid blocks that the staged event carries.
    pub fn set_valid_blocks_carried(&self, event: &mut Event)
        requires
            self.wf(),
            self.spec_refusal(old(event).packed).is_none(),
        ensures
            ascending(final(event).valid_blocks_carried@),
            forall|h: Digest|
                final(event).valid_blocks_carried@.contains(h) <==> self.spec_carries(
                    old(event).packed,
                    old(event).hash,
                    h,
                ),
            *final(event) == (Event {
                valid_blocks_carried: final(event).valid_blocks_carried,
                ..*old(event)
            }),
    {
        let mut carried: Vec<Digest> = Vec::new();
        let sp = match event.packed.self_parent {
            Some(hs) => self.graph.find(hs),
            None => None,
        };
        let op = match event.packed.other_parent {
            Some(ho) => self.graph.find(ho),
            None => None,
        };
        let in_round = match sp {
            Some(at) => self.has_meta_votes(at),
            None => false,
        };
        if !in_round {
            if let Some(at) = sp {
                proof {
                    assert(self.event_wf(at as int));
                }
                carried = self.graph.events[at].valid_blocks_carried.clone();
            }
            if let Some(at) = op {
                proof {
                    assert(self.event_wf(at as int));
                }
                carried = union(&carried, &self.graph.events[at].valid_blocks_carried);
            }
            if let Some(v) = event.packed.vote() {
                let count = self.count_votes(v);
                if 3 * (count as u128 + 1) > 2 * (self.peer_manager.ids.len() as u128) {
                    put(&mut carried, event.hash);
                }
            }
        }
        event.valid_blocks_carried = carried;
    }

    /// The event at `j` gains a first descendant at slot `c` from an event
    /// with the last ancestors `la`: it is among those ancestors, going by its
    /// creator's entry, and no descendant is noted on it for `c` yet.
    pub open spec fn spec_touched(&self, la: Seq<Option<u64>>, c: int, j: int) -> bool {
        &&& la[self.slot(j)] matches Some(a) && self.graph.events[j].index <= a
        &&& self.graph.events[j].first_descendants[c].is_none()
    }

    /// In a well-formed driver two events of one creator with one index are one event.
    pub proof fn lemma_chain_event_unique(&self, at: int, j: int, p: int, k: int)
        requires
            self.wf(),
            0 <= at < self.graph.events.len(),
            0 <= j < self.graph.events.len(),
            0 <= p < self.peers(),
            self.is_chain_event(at, p, k),
            self.slot(j) == p,
            self.graph.events[j].index == k,
        ensures
            at == j,
            self.slot(at) == p,
    {
        assert(self.event_wf(j));
        assert(self.graph.events[j].hash == self.graph.events[at].hash);
        if at < j {
            assert(self.graph.events[at].hash != self.graph.events[j].hash);
        }
        if j < at {
            assert(self.graph.events[j].hash != self.graph.events[at].hash);
        }
        self.peer_manager.lemma_slot_unique(p);
    }

    /// The places of the events that gain a first descendant at slot `c`
    /// from an event with the last ancestors `la`: on each chain, from the
    /// last ancestor down to the first event on which one is noted already.
    pub fn first_descendant_sites(&self, la: &Vec<Option<u64>>, c: usize) -> (sites: Vec<usize>)
        requires
            self.wf(),
            la.len() == self.peer_manager.ids.len(),
            c < self.peer_manager.ids.len(),
            forall|p: int|
                0 <= p < la.len() && p != c ==> (#[trigger] la[p] matches Some(a) ==> a
                    < self.peer_manager.chains[p].len()),
        ensures
            forall|j: usize|
                j < self.graph.events.len() ==> (sites@.contains(j) <==> self.spec_touched(
                    la@,
                    c as int,
                    j as int,
                )),
            forall|t: int| 0 <= t < sites.len() ==> sites[t] < self.graph.events.len(),
    {
        let mut sites: Vec<usize> = Vec::new();
        let n = self.peer_manager.ids.len();
        let mut p: usize = 0;
        proof {
            assert forall|j: int| 0 <= j < self.graph.events.len() implies 0 <= #[trigger] self.slot(
                j,
            ) by {
                assert(self.event_wf(j));
            }
        }
        while p < n
            invariant
                self.wf(),
                n == self.peer_manager.ids.len(),
                la.len() == n,
                c < n,
                p <= n,
                forall|q: int|
                    0 <= q < la.len() && q != c ==> (#[trigger] la[q] matches Some(a) ==> a
                        < self.peer_manager.chains[q].len()),
                forall|t: int| 0 <= t < sites.len() ==> sites[t] < self.graph.events.len(),
                forall|j: usize|
                    j < self.graph.events.len() ==> (sites@.contains(j) <==> (self.spec_touched(
                        la@,
                        c as int,
                        j as int,
                    ) && self.slot(j as int) < p)),
            decreases n - p,
        {
            let mut next: usize = 0;
            let mut more: bool = false;
            if p != c {
                if let Some(a) = la[p] {
                    next = a as usize + 1;
                    more = true;
                }
            }
            proof {
                // An event of the creator `c` notes itself as its first descendant.
                assert forall|j: int|
                    0 <= j < self.graph.events.len() && self.slot(j) == c implies !self.spec_touched(
                    la@,
                    c as int,
                    j,
                ) by {
                    assert(self.event_wf(j));
                }
                assert forall|j: int|
                    0 <= j < self.graph.events.len() implies 0 <= #[trigger] self.slot(j) < n by {
                    assert(self.event_wf(j));
                }
            }
            while next > 0 && more
                invariant
                    self.wf(),
                    n == self.peer_manager.ids.len(),
                    la.len() == n,
                    c < n,
                    p < n,
                    next > 0 ==> (p != c && la[p as int].is_some() && next <= la[p as int].unwrap()
                        + 1),
                    p != c && la[p as int].is_some() ==> la[p as int].unwrap()
                        < self.peer_manager.chains[p as int].len(),
                    forall|t: int| 0 <= t < sites.len() ==> sites[t] < self.graph.events.len(),
                    forall|j: usize|
                        j < self.graph.events.len() ==> (sites@.contains(j) <==> (
                        self.spec_touched(la@, c as int, j as int) && (self.slot(j as int) < p || (
                        self.slot(j as int) == p && self.graph.events[j as int].index >= next)))),
                    !more ==> forall|j: int|
                        0 <= j < self.graph.events.len() && self.slot(j) == p
                            && self.graph.events[j].index < next ==> !self.spec_touched(
                            la@,
                            c as int,
                            j,
                        ),
                decreases next + if more {
                    1int
                } else {
                    0int
                },
            {
                let k: usize = next - 1;
                let at = self.chain_event(p, k);
                let ghost before = sites@;
                proof {
                    self.peer_manager.lemma_slot_unique(p as int);
                    assert(self.slot(at as int) == p);
                    assert(self.event_wf(at as int));
                }
                if self.graph.events[at].first_descendants[c].is_none() {
                    sites.push(at);
                    next = k;
                    proof {
                        assert(sites@ == before.push(at));
                        assert(self.spec_touched(la@, c as int, at as int));
                        assert forall|j: usize| j < self.graph.events.len() implies (
                        sites@.contains(j) <==> (self.spec_touched(la@, c as int, j as int) && (
                        self.slot(j as int) < p || (self.slot(j as int) == p
                            && self.graph.events[j as int].index >= k)))) by {
                            if sites@.contains(j) {
                                let t = choose|t: int| 0 <= t < sites@.len() && sites@[t] == j;
                                if t < before.len() {
                                    assert(before[t] == j);
                                    assert(before.contains(j));
                                }
                            }
                            if before.contains(j) {
                                let t = choose|t: int| 0 <= t < before.len() && before[t] == j;
                                assert(sites@[t] == j);
                            }
                            if j == at {
                                assert(sites@[before.len() as int] == j);
                            }
                            if self.slot(j as int) == p && self.graph.events[j as int].index == k {
                                self.lemma_chain_event_unique(
                                    at as int,
                                    j as int,
                                    p as int,
                                    k as int,
                                );
                            }
                        }
                    }
                } else {
                    more = false;
                    proof {
                        assert forall|j: int|
                            0 <= j < self.graph.events.len() && self.slot(j) == p
                                && self.graph.events[j].index < next implies !self.spec_touched(
                            la@,
                            c as int,
                            j,
                        ) by {
                            assert(self.event_wf(j));
                            assert(self.graph.events[j].packed.creator
                                == self.graph.events[at as int].packed.creator);
                            assert(self.graph.events[at as int].first_descendants[c as int].is_some());
                            assert(self.graph.events[j].first_descendants[c as int].is_some());
                        }
                    }
                }
            }
            proof {
                assert forall|j: usize| j < self.graph.events.len() implies (sites@.contains(j)
                    <==> (self.spec_touched(la@, c as int, j as int) && self.slot(j as int) < p
                    + 1)) by {
                    if self.slot(j as int) == p && self.spec_touched(la@, c as int, j as int) {
                        assert(p != c);
                        assert(la[p as int].is_some());
                    }
                }
            }
            p += 1;
        }
        proof {
            assert forall|j: usize| j < self.graph.events.len() implies (sites@.contains(j)
                <==> self.spec_touched(la@, c as int, j as int)) by {
                assert(self.event_wf(j as int));
            }
        }
        sites
    }
}

} // verus!
