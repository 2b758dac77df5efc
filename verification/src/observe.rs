//! Observations: which peers' latest events strongly see the oldest valid
//! block that they carry.

use vstd::prelude::*;
use crate::digest_set::{ascending, union};
use crate::event::Event;
use crate::hash::Digest;
use crate::metadata::{spec_strongly_sees, strongly_sees};
use crate::parsec::Parsec;

verus! {

impl Parsec {
    /// `self` differs from `pre` in the state of the agreements at most: the
    /// observations, the meta-votes, the round hashes and the blocks may be
    /// others, and events may carry fewer valid blocks.
    pub open spec fn same_but_consensus(&self, pre: Parsec) -> bool {
        &&& self.peer_manager == pre.peer_manager
        &&& self.responsiveness_threshold == pre.responsiveness_threshold
        &&& self.graph.events.len() == pre.graph.events.len()
        &&& forall|j: int|
            0 <= j < pre.graph.events.len() ==> {
                let e = #[trigger] self.graph.events[j];
                &&& e == (Event {
                    observations: e.observations,
                    valid_blocks_carried: e.valid_blocks_carried,
                    ..pre.graph.events[j]
                })
                &&& e.observations.len() == pre.peers()
                &&& ascending(e.valid_blocks_carried@)
                &&& forall|h: Digest|
                    e.valid_blocks_carried@.contains(h)
                        ==> pre.graph.events[j].valid_blocks_carried@.contains(h)
            }
        &&& self.meta_votes.len() == pre.meta_votes.len()
        &&& forall|i: int|
            0 <= i < self.meta_votes.len() ==> (#[trigger] self.meta_votes[i] matches Some(v)
                ==> v.len() == pre.peers())
        &&& self.round_hashes_wf()
    }

    /// A change to the state of the agreements keeps the driver's invariant.
    pub proof fn lemma_consensus_keeps_invariant(&self, pre: Parsec)
        requires
            pre.wf(),
            self.same_but_consensus(pre),
        ensures
            self.wf(),
            forall|h: Digest| self.graph.contains(h) == pre.graph.contains(h),
            forall|h: Digest|
                pre.graph.contains(h) ==> self.graph.position(h) == pre.graph.position(h),
    {
        assert forall|i: int| 0 <= i < self.graph.events.len() implies (
        #[trigger] self.graph.events[i]).topological_index == i && self.graph.parents_known(
            self.graph.events[i].packed,
            i,
        ) by {
            assert(pre.graph.events[i].topological_index == i);
            assert(pre.graph.parents_known(pre.graph.events[i].packed, i));
            if let Some(h) = self.graph.events[i].packed.self_parent {
                let j = choose|j: int|
                    0 <= j < i && j < pre.graph.events.len() && pre.graph.events[j].hash == h;
                assert(self.graph.events[j].hash == h);
            }
            if let Some(h) = self.graph.events[i].packed.other_parent {
                let j = choose|j: int|
                    0 <= j < i && j < pre.graph.events.len() && pre.graph.events[j].hash == h;
                assert(self.graph.events[j].hash == h);
            }
        }
        assert forall|i: int, j: int| 0 <= i < j < self.graph.events.len() implies self.graph.events[i].hash
            != self.graph.events[j].hash by {
            assert(pre.graph.events[i].hash != pre.graph.events[j].hash);
            assert(self.graph.events[i].hash == pre.graph.events[i].hash);
            assert(self.graph.events[j].hash == pre.graph.events[j].hash);
        }
        assert forall|h: Digest| self.graph.contains(h) == pre.graph.contains(h) by {
            if self.graph.contains(h) {
                let j = choose|j: int|
                    0 <= j < self.graph.spec_len() && j < self.graph.events.len()
                        && self.graph.events[j].hash == h;
                assert(pre.graph.events[j].hash == h);
            }
            if pre.graph.contains(h) {
                let j = choose|j: int|
                    0 <= j < pre.graph.spec_len() && j < pre.graph.events.len()
                        && pre.graph.events[j].hash == h;
                assert(self.graph.events[j].hash == h);
            }
        }
        assert forall|h: Digest| pre.graph.contains(h) implies self.graph.position(h)
            == pre.graph.position(h) by {
            let j = pre.graph.position(h);
            assert(0 <= j < pre.graph.events.len() && pre.graph.events[j].hash == h) by {
                let w = choose|w: int|
                    0 <= w < pre.graph.spec_len() && w < pre.graph.events.len()
                        && pre.graph.events[w].hash == h;
            }
            assert(self.graph.events[j].hash == h);
            self.graph.lemma_position(j);
        }
        assert forall|i: int| 0 <= i < self.graph.events.len() implies #[trigger] self.event_wf(
            i,
        ) by {
            assert(pre.event_wf(i));
            let e = self.graph.events[i];
            assert forall|k: int| 0 <= k < e.valid_blocks_carried.len() implies self.graph.contains(
                #[trigger] e.valid_blocks_carried[k],
            ) by {
                let h = e.valid_blocks_carried[k];
                assert(e.valid_blocks_carried@.contains(h));
                let old_set = pre.graph.events[i].valid_blocks_carried;
                let t = choose|t: int| 0 <= t < old_set@.len() && old_set@[t] == h;
                assert(pre.graph.contains(old_set[t]));
            }
        }
        assert forall|p: int, k: int|
            0 <= p < self.peers() && 0 <= k < self.peer_manager.chains[p].len()
                implies #[trigger] self.chain_wf(p, k) by {
            assert(pre.chain_wf(p, k));
            let i = choose|i: int|
                0 <= i < pre.graph.events.len() && #[trigger] pre.is_chain_event(i, p, k);
            assert(self.graph.events[i].hash == pre.graph.events[i].hash);
            assert(self.is_chain_event(i, p, k));
        }
        assert(self.parents_precede()) by {
            assert forall|m: int, e: int| #[trigger] self.graph.is_parent(m, e) implies self.precedes(
                m,
                e,
            ) by {
                assert(self.graph.events[m].hash == pre.graph.events[m].hash);
                assert(self.graph.events[e].packed == pre.graph.events[e].packed);
                assert(pre.graph.is_parent(m, e));
                assert(pre.precedes(m, e));
                assert(self.graph.events[m].last_ancestors == pre.graph.events[m].last_ancestors);
                assert(self.graph.events[e].last_ancestors == pre.graph.events[e].last_ancestors);
            }
        }
        assert(self.descendants_noted()) by {
            assert forall|f: int, e: int| #[trigger] self.graph.is_ancestor(f, e) implies (
            self.graph.events[f].first_descendants[self.slot(e)] matches Some(d) && d
                <= self.graph.events[e].index) by {
                assert forall|j: int| 0 <= j <= e implies (#[trigger] self.graph.events[j]).hash
                    == pre.graph.events[j].hash && self.graph.events[j].packed
                    == pre.graph.events[j].packed by {}
                self.graph.lemma_same_ancestry(&pre.graph, f, e);
                assert(pre.graph.is_ancestor(f, e));
                assert(self.graph.events[f].first_descendants
                    == pre.graph.events[f].first_descendants);
                assert(self.graph.events[e].packed == pre.graph.events[e].packed);
            }
        }
        assert(self.descendants_bounded()) by {
            assert forall|j: int, q: int|
                0 <= j < self.graph.events.len() && 0 <= q < self.peers() implies (
            #[trigger] self.graph.events[j].first_descendants[q] matches Some(d) ==> d
                < self.peer_manager.chains[q].len()) by {
                assert(self.graph.events[j].first_descendants
                    == pre.graph.events[j].first_descendants);
                assert(pre.graph.events[j].first_descendants[q] matches Some(d) ==> d
                    < pre.peer_manager.chains[q].len());
            }
        }
        assert(self.names_ancestors()) by {
            assert forall|e: int, p: int|
                0 <= e < self.graph.events.len() && 0 <= p < self.peers() implies (
            #[trigger] self.graph.events[e].last_ancestors[p] matches Some(a) ==> exists|z: int|
                #[trigger] self.is_chain_event(z, p, a as int) && self.graph.is_ancestor(z, e)) by {
                assert(self.graph.events[e].last_ancestors == pre.graph.events[e].last_ancestors);
                if let Some(a) = pre.graph.events[e].last_ancestors[p] {
                    let z = choose|z: int|
                        #[trigger] pre.is_chain_event(z, p, a as int) && pre.graph.is_ancestor(z, e);
                    assert forall|j: int| 0 <= j <= e implies (
                    #[trigger] self.graph.events[j]).hash == pre.graph.events[j].hash
                        && self.graph.events[j].packed == pre.graph.events[j].packed by {}
                    self.graph.lemma_same_ancestry(&pre.graph, z, e);
                    assert(self.graph.events[z].hash == pre.graph.events[z].hash);
                    assert(self.is_chain_event(z, p, a as int));
                }
            }
        }
        assert(self.names_descendants()) by {
            assert forall|f: int, q: int|
                0 <= f < self.graph.events.len() && 0 <= q < self.peers() implies (
            #[trigger] self.graph.events[f].first_descendants[q] matches Some(d) ==> exists|z: int|
                #[trigger] self.is_chain_event(z, q, d as int) && self.graph.is_ancestor(f, z)) by {
                assert(self.graph.events[f].first_descendants
                    == pre.graph.events[f].first_descendants);
                if let Some(d) = pre.graph.events[f].first_descendants[q] {
                    let z = choose|z: int|
                        #[trigger] pre.is_chain_event(z, q, d as int) && pre.graph.is_ancestor(f, z);
                    assert forall|j: int| 0 <= j <= z implies (
                    #[trigger] self.graph.events[j]).hash == pre.graph.events[j].hash
                        && self.graph.events[j].packed == pre.graph.events[j].packed by {}
                    self.graph.lemma_same_ancestry(&pre.graph, f, z);
                    assert(self.graph.events[z].hash == pre.graph.events[z].hash);
                    assert(self.is_chain_event(z, q, d as int));
                }
            }
        }
        assert(self.carries_votes()) by {
            assert forall|e: int, k: int|
                0 <= e < self.graph.events.len() && 0 <= k
                    < self.graph.events[e].valid_blocks_carried.len() implies #[trigger] self.has_vote_ancestor(
                e,
                self.graph.events[e].valid_blocks_carried[k],
            ) by {
                let h = self.graph.events[e].valid_blocks_carried[k];
                assert(self.graph.events[e].valid_blocks_carried@.contains(h));
                let before = pre.graph.events[e].valid_blocks_carried;
                assert(before@.contains(h));
                let t = choose|t: int| 0 <= t < before@.len() && before@[t] == h;
                assert(pre.has_vote_ancestor(e, before[t]));
                let z = choose|z: int| #[trigger] pre.is_vote_ancestor(z, e, before[t]);
                assert forall|j: int| 0 <= j <= e implies (#[trigger] self.graph.events[j]).hash
                    == pre.graph.events[j].hash && self.graph.events[j].packed
                    == pre.graph.events[j].packed by {}
                self.graph.lemma_same_ancestry(&pre.graph, z, e);
                assert(self.graph.events[z].hash == pre.graph.events[z].hash);
                assert(self.graph.events[z].packed == pre.graph.events[z].packed);
                assert(self.is_vote_ancestor(z, e, h));
            }
        }
        assert(self.descendants_monotone()) by {
            assert forall|i: int, j: int, q: int|
                0 <= i < self.graph.events.len() && 0 <= j < self.graph.events.len() && 0 <= q
                    < self.peers() && self.graph.events[i].packed.creator
                    == self.graph.events[j].packed.creator && self.graph.events[i].index
                    <= self.graph.events[j].index
                    && (#[trigger] self.graph.events[j].first_descendants[q]).is_some() implies (
            #[trigger] self.graph.events[i].first_descendants[q]).is_some() by {
                assert(self.graph.events[i].first_descendants
                    == pre.graph.events[i].first_descendants);
                assert(self.graph.events[j].first_descendants
                    == pre.graph.events[j].first_descendants);
                assert(pre.graph.events[j].first_descendants[q].is_some());
                assert(pre.graph.events[i].first_descendants[q].is_some());
            }
        }
    }

    /// The event with index `k` on the chain of slot `p` carries the valid
    /// block of the event with the hash `h`.
    pub open spec fn spec_carried_at(&self, p: int, k: int, h: Digest) -> bool {
        self.graph.events[self.graph.position(
            self.peer_manager.chains[p][k],
        )].valid_blocks_carried@.contains(h)
    }

    /// One of the first `upto` events on the chain of slot `p` carries the
    /// valid block of the event with the hash `h`.
    pub open spec fn spec_chain_carries_below(&self, p: int, h: Digest, upto: int) -> bool {
        exists|k: int|
            0 <= k < upto && k < self.peer_manager.chains[p].len() && #[trigger] self.spec_carried_at(
                p,
                k,
                h,
            )
    }

    /// The chain of slot `p` carries the valid block of the event with the
    /// hash `h`: one of the peer's events does. An event whose self-parent
    /// holds meta-votes carries none, so what the peer carries is read off
    /// its whole chain, not off its latest event.
    pub open spec fn spec_chain_carries(&self, p: int, h: Digest) -> bool {
        self.spec_chain_carries_below(p, h, self.peer_manager.chains[p].len() as int)
    }

    /// The event at `r` is the oldest of those whose valid block the chain
    /// of slot `p` carries: it is one of them, none of them has a lesser
    /// index, and of those with the same index none has a lesser hash.
    pub open spec fn spec_is_oldest(&self, p: int, r: int) -> bool {
        &&& 0 <= r < self.graph.events.len()
        &&& self.spec_chain_carries(p, self.graph.events[r].hash)
        &&& forall|h: Digest| #[trigger]
            self.spec_chain_carries(p, h) ==> {
                let e = self.graph.events[self.graph.position(h)];
                self.graph.events[r].index < e.index || (self.graph.events[r].index == e.index
                    && self.graph.events[r].hash <= h)
            }
    }

    /// The place of the oldest event whose valid block the chain of slot
    /// `p` carries, if it carries any.
    pub open spec fn spec_oldest(&self, p: int) -> Option<usize> {
        if exists|r: usize| self.spec_is_oldest(p, r as int) {
            Some(choose|r: usize| self.spec_is_oldest(p, r as int))
        } else {
            None
        }
    }

    /// The peer at slot `p` observes a valid block: its latest event
    /// strongly sees the oldest event whose valid block its chain carries.
    pub open spec fn spec_observes(&self, p: int) -> bool {
        let chain = self.peer_manager.chains[p]@;
        match self.spec_oldest(p) {
            Some(r) => chain.len() > 0 && spec_strongly_sees(
                self.graph.events[self.graph.position(chain.last())].last_ancestors@,
                self.graph.events[r as int].first_descendants@,
                self.peers() as nat,
            ),
            None => false,
        }
    }

    /// The oldest of the events whose valid block a chain carries is one event only.
    pub proof fn lemma_oldest_unique(&self, p: int, r: int, s: int)
        requires
            self.wf(),
            self.spec_is_oldest(p, r),
            self.spec_is_oldest(p, s),
        ensures
            r == s,
    {
        let hr = self.graph.events[r].hash;
        let hs = self.graph.events[s].hash;
        self.graph.lemma_position(r);
        self.graph.lemma_position(s);
        assert(self.spec_chain_carries(p, hr));
        assert(self.spec_chain_carries(p, hs));
        assert(hr == hs);
        if r < s {
            assert(self.graph.events[r].hash != self.graph.events[s].hash);
        }
        if s < r {
            assert(self.graph.events[s].hash != self.graph.events[r].hash);
        }
    }

    /// The hashes of the events whose valid block the chain of slot `p`
    /// carries, ascending.
    pub fn chain_carried(&self, p: usize) -> (carried: Vec<Digest>)
        requires
            self.wf(),
            p < self.peer_manager.ids.len(),
        ensures
            ascending(carried@),
            forall|h: Digest| carried@.contains(h) <==> self.spec_chain_carries(p as int, h),
            forall|k: int| 0 <= k < carried.len() ==> self.graph.contains(#[trigger] carried[k]),
    {
        let mut carried: Vec<Digest> = Vec::new();
        let len = self.peer_manager.chains[p].len();
        let mut k: usize = 0;
        while k < len
            invariant
                self.wf(),
                p < self.peer_manager.ids.len(),
                len == self.peer_manager.chains[p as int].len(),
                k <= len,
                ascending(carried@),
                forall|h: Digest|
                    carried@.contains(h) <==> self.spec_chain_carries_below(p as int, h, k as int),
                forall|i: int| 0 <= i < carried.len() ==> self.graph.contains(#[trigger] carried[i]),
            decreases len - k,
        {
            let at = self.chain_event(p, k);
            let ghost before = carried@;
            proof {
                self.graph.lemma_position(at as int);
                assert(self.event_wf(at as int));
            }
            carried = union(&carried, &self.graph.events[at].valid_blocks_carried);
            proof {
                let here = self.graph.events[at as int].valid_blocks_carried@;
                assert forall|h: Digest| carried@.contains(h) <==> self.spec_chain_carries_below(
                    p as int,
                    h,
                    k + 1,
                ) by {
                    if self.spec_chain_carries_below(p as int, h, k + 1) {
                        let w = choose|w: int|
                            0 <= w < k + 1 && w < self.peer_manager.chains[p as int].len()
                                && #[trigger] self.spec_carried_at(p as int, w, h);
                        if w < k {
                            assert(self.spec_chain_carries_below(p as int, h, k as int));
                        }
                    }
                    if before.contains(h) {
                        assert(self.spec_chain_carries_below(p as int, h, k as int));
                        let w = choose|w: int|
                            0 <= w < k && w < self.peer_manager.chains[p as int].len()
                                && #[trigger] self.spec_carried_at(p as int, w, h);
                        assert(self.spec_carried_at(p as int, w, h));
                    }
                    if here.contains(h) {
                        assert(self.spec_carried_at(p as int, k as int, h));
                    }
                }
                assert forall|i: int| 0 <= i < carried.len() implies self.graph.contains(
                    #[trigger] carried[i],
                ) by {
                    let h = carried[i];
                    assert(carried@.contains(h));
                    if before.contains(h) {
                        let t = choose|t: int| 0 <= t < before.len() && before[t] == h;
                        assert(self.graph.contains(before[t]));
                    } else {
                        let t = choose|t: int| 0 <= t < here.len() && here[t] == h;
                        assert(self.graph.contains(
                            self.graph.events[at as int].valid_blocks_carried[t],
                        ));
                    }
                }
            }
            k += 1;
        }
        carried
    }

    /// The place of the oldest event whose valid block the chain of the
    /// peer at slot `p` carries: the one with the least index, and among
    /// several the one with the least hash. `None` where it carries none.
    pub fn oldest_event_with_valid_block(&self, p: usize) -> (found: Option<usize>)
        requires
            self.wf(),
            p < self.peer_manager.ids.len(),
        ensures
            found == self.spec_oldest(p as int),
            found matches Some(r) ==> r < self.graph.events.len() && self.spec_is_oldest(
                p as int,
                r as int,
            ),
    {
        let carried = self.chain_carried(p);
        if carried.len() == 0 {
            proof {
                assert forall|r: usize| !self.spec_is_oldest(p as int, r as int) by {
                    if self.spec_is_oldest(p as int, r as int) {
                        assert(carried@.contains(self.graph.events[r as int].hash));
                    }
                }
            }
            return None;
        }
        let mut best: usize = match self.graph.find(carried[0]) {
            Some(at) => at,
            None => {
                proof {
                    assert(self.graph.contains(carried[0]));
                    assert(false);
                }
                0
            },
        };
        let mut k: usize = 1;
        proof {
            assert(self.graph.contains(carried[0]));
        }
        while k < carried.len()
            invariant
                self.wf(),
                ascending(carried@),
                forall|i: int| 0 <= i < carried.len() ==> self.graph.contains(#[trigger] carried[i]),
                1 <= k <= carried.len(),
                best < self.graph.events.len(),
                exists|i: int| 0 <= i < k && #[trigger] carried[i] == self.graph.events[best as int].hash,
                forall|i: int|
                    0 <= i < k ==> {
                        let e = self.graph.events[self.graph.position(#[trigger] carried[i])];
                        self.graph.events[best as int].index < e.index || (
                        self.graph.events[best as int].index == e.index
                            && self.graph.events[best as int].hash <= carried[i])
                    },
            decreases carried.len() - k,
        {
            proof {
                assert(self.graph.contains(carried[k as int]));
            }
            let at = match self.graph.find(carried[k]) {
                Some(at) => at,
                None => {
                    proof {
                        assert(false);
                    }
                    0
                },
            };
            let ghost before = best;
            let ghost kb = choose|i: int|
                0 <= i < k && #[trigger] carried[i] == self.graph.events[before as int].hash;
            if self.graph.events[at].index < self.graph.events[best].index {
                best = at;
            }
            proof {
                // The hashes ascend, so what stands at `k` is greater than all before it.
                assert(carried[kb] < carried[k as int]);
                if best == at {
                    assert(carried[k as int] == self.graph.events[best as int].hash);
                } else {
                    assert(carried[kb] == self.graph.events[best as int].hash);
                }
            }
            k += 1;
        }
        proof {
            let i = choose|i: int|
                0 <= i < k && #[trigger] carried[i] == self.graph.events[best as int].hash;
            assert(carried@.contains(carried[i]));
            assert forall|h: Digest| #[trigger] self.spec_chain_carries(p as int, h) implies {
                let e = self.graph.events[self.graph.position(h)];
                self.graph.events[best as int].index < e.index || (
                self.graph.events[best as int].index == e.index
                    && self.graph.events[best as int].hash <= h)
            } by {
                assert(carried@.contains(h));
                let t = choose|t: int| 0 <= t < carried@.len() && carried@[t] == h;
                assert(carried[t] == h);
            }
            assert(self.spec_is_oldest(p as int, best as int));
            assert forall|r: usize| self.spec_is_oldest(p as int, r as int) implies r == best by {
                self.lemma_oldest_unique(p as int, r as int, best as int);
            }
        }
        Some(best)
    }

    /// Tells whether the event at `x` strongly sees the event at `y`: a
    /// super-majority of the peers have an event that is a descendant of the
    /// one and an ancestor of the other.
    pub fn does_strongly_see(&self, x: usize, y: usize) -> (yes: bool)
        requires
            self.wf(),
            x < self.graph.events.len(),
            y < self.graph.events.len(),
        ensures
            yes == spec_strongly_sees(
                self.graph.events[x as int].last_ancestors@,
                self.graph.events[y as int].first_descendants@,
                self.peers() as nat,
            ),
    {
        proof {
            assert(self.event_wf(x as int));
            assert(self.event_wf(y as int));
        }
        strongly_sees(
            &self.graph.events[x].last_ancestors,
            &self.graph.events[y].first_descendants,
            self.peer_manager.len(),
        )
    }

    /// Tells whether the peer at slot `p` observes a valid block: its latest
    /// event strongly sees the oldest event whose valid block its chain carries.
    pub fn observes(&self, p: usize) -> (yes: bool)
        requires
            self.wf(),
            p < self.peer_manager.ids.len(),
        ensures
            yes == self.spec_observes(p as int),
    {
        let oldest = match self.oldest_event_with_valid_block(p) {
            Some(r) => r,
            None => {
                return false;
            },
        };
        let latest = match self.last_event(p) {
            Some(at) => at,
            None => {
                return false;
            },
        };
        proof {
            self.graph.lemma_position(latest as int);
        }
        self.does_strongly_see(latest, oldest)
    }

    /// By slot: whether the peer observes a valid block.
    pub open spec fn spec_observations(&self) -> Seq<bool> {
        Seq::new(self.peers() as nat, |p: int| self.spec_observes(p))
    }

    /// Tells whether the self-parent of the event at `at` holds meta-votes.
    pub fn in_round(&self, at: usize) -> (yes: bool)
        requires
            self.wf(),
            at < self.graph.events.len(),
        ensures
            yes == self.spec_in_round(self.graph.events[at as int].packed),
    {
        match self.graph.events[at].packed.self_parent {
            Some(hs) => match self.graph.find(hs) {
                Some(parent) => self.meta_votes[parent].is_some(),
                None => false,
            },
            None => false,
        }
    }

    /// Sets the observations of the event at `at` to the peers that observe
    /// a valid block in the graph as it stands. An event whose self-parent
    /// holds meta-votes keeps its observations.
    pub fn set_observations(&mut self, at: usize)
        requires
            old(self).wf(),
            at < old(self).graph.events.len(),
        ensures
            final(self).wf(),
            *final(self) == (Parsec { graph: final(self).graph, ..*old(self) }),
            final(self).graph.events.len() == old(self).graph.events.len(),
            forall|j: int|
                0 <= j < old(self).graph.events.len() && j != at
                    ==> #[trigger] final(self).graph.events[j] == old(self).graph.events[j],
            final(self).graph.events[at as int] == (Event {
                observations: final(self).graph.events[at as int].observations,
                ..old(self).graph.events[at as int]
            }),
            final(self).graph.events[at as int].observations@ == if old(self).spec_in_round(
                old(self).graph.events[at as int].packed,
            ) {
                old(self).graph.events[at as int].observations@
            } else {
                old(self).spec_observations()
            },
    {
        if self.in_round(at) {
            return ;
        }
        let n = self.peer_manager.len();
        let mut seen: Vec<bool> = Vec::new();
        let mut p: usize = 0;
        while p < n
            invariant
                self.wf(),
                n == self.peer_manager.ids.len(),
                p <= n,
                seen.len() == p,
                forall|q: int| 0 <= q < p ==> seen[q] == self.spec_observes(q),
            decreases n - p,
        {
            let yes = self.observes(p);
            seen.push(yes);
            p += 1;
        }
        proof {
            assert(seen@ =~= self.spec_observations());
        }
        self.graph.events[at].observations = seen;
        proof {
            assert forall|j: int| 0 <= j < old(self).graph.events.len() implies {
                let e = #[trigger] self.graph.events[j];
                &&& e == (Event {
                    observations: e.observations,
                    valid_blocks_carried: e.valid_blocks_carried,
                    ..old(self).graph.events[j]
                })
                &&& e.observations.len() == old(self).peers()
                &&& ascending(e.valid_blocks_carried@)
                &&& forall|h: Digest|
                    e.valid_blocks_carried@.contains(h) ==> old(
                        self,
                    ).graph.events[j].valid_blocks_carried@.contains(h)
            } by {
                assert(old(self).event_wf(j));
            }
            assert(self.round_hashes_wf());
            self.lemma_consensus_keeps_invariant(*old(self));
        }
    }
}

} // verus!
