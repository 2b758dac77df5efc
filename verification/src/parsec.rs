//! The protocol driver: the state that one peer keeps, and what holds of it
//! between any two operations.

use vstd::prelude::*;
use crate::block::Block;
use crate::digest_set::ascending;
use crate::graph::Graph;
use crate::meta_vote::MetaVote;
use crate::peer_manager::PeerManager;
use crate::round_hash::{spec_round_hash, RoundHash};

verus! {

/// One peer's view of the network: the members, the gossip graph, the state
/// of the agreements that run on it, and the blocks decided but not yet
/// handed out.
pub struct Parsec {
    /// The members and, for each, the chain of its events.
    pub peer_manager: PeerManager,
    /// The events, in the order in which they were added.
    pub graph: Graph,
    /// The blocks decided and not yet polled, oldest first.
    pub consensused_blocks: Vec<Block>,
    /// By topological index: the meta-votes of that event, one per slot, or
    /// `None` where the event holds none.
    pub meta_votes: Vec<Option<Vec<MetaVote>>>,
    /// By slot: the round hashes of that peer, the one for round `r` at `r`.
    pub round_hashes: Vec<Vec<RoundHash>>,
    /// The number of response events to wait for a leader's value.
    pub responsiveness_threshold: usize,
}

impl Parsec {
    /// The number of peers.
    pub open spec fn peers(&self) -> int {
        self.peer_manager.ids.len() as int
    }

    /// The slot of the creator of the event at `i`.
    pub open spec fn slot(&self, i: int) -> int {
        self.peer_manager.spec_slot_of(self.graph.events[i].packed.creator)
    }

    /// The event at `i` is the one with index `k` on the chain of slot `p`.
    pub open spec fn is_chain_event(&self, i: int, p: int, k: int) -> bool {
        &&& self.graph.events[i].hash == self.peer_manager.chains[p][k]
        &&& self.graph.events[i].packed.creator == self.peer_manager.ids[p]
        &&& self.graph.events[i].index == k
    }

    /// What holds of the event at `i`: its creator is a member and its
    /// metadata fits the creator's chain.
    pub open spec fn event_wf(&self, i: int) -> bool {
        let e = self.graph.events[i];
        let c = self.slot(i);
        let chain = self.peer_manager.chains[c];
        &&& self.peer_manager.has_peer(e.packed.creator)
        &&& e.hash == e.packed.spec_hash()
        &&& e.last_ancestors.len() == self.peers()
        &&& e.first_descendants.len() == self.peers()
        &&& e.observations.len() == self.peers()
        &&& e.index < chain.len()
        &&& chain[e.index as int] == e.hash
        &&& e.last_ancestors[c] == Some(e.index)
        &&& e.first_descendants[c] == Some(e.index)
        &&& match e.packed.self_parent {
            None => e.index == 0,
            Some(h) => e.index > 0 && chain[e.index - 1] == h,
        }
        &&& forall|p: int|
            0 <= p < self.peers() ==> (#[trigger] e.last_ancestors[p] matches Some(a) ==> a
                < self.peer_manager.chains[p].len())
        &&& ascending(e.valid_blocks_carried@)
        &&& forall|k: int|
            0 <= k < e.valid_blocks_carried.len() ==> self.graph.contains(
                #[trigger] e.valid_blocks_carried[k],
            )
    }

    /// The entry `k` of the chain of slot `p` names an event of the graph
    /// that this peer created with this index.
    pub open spec fn chain_wf(&self, p: int, k: int) -> bool {
        exists|i: int| 0 <= i < self.graph.events.len() && #[trigger] self.is_chain_event(i, p, k)
    }

    /// Along a creator's chain, a first descendant noted on an event is
    /// noted on every earlier event too.
    pub open spec fn descendants_monotone(&self) -> bool {
        forall|i: int, j: int, q: int|
            0 <= i < self.graph.events.len() && 0 <= j < self.graph.events.len() && 0 <= q
                < self.peers() && self.graph.events[i].packed.creator
                == self.graph.events[j].packed.creator && self.graph.events[i].index
                <= self.graph.events[j].index
                && (#[trigger] self.graph.events[j].first_descendants[q]).is_some()
                ==> (#[trigger] self.graph.events[i].first_descendants[q]).is_some()
    }

    /// `self` holds the events of `pre`, each at its place, with the same
    /// hash and the same immutable part.
    pub open spec fn keeps_graph(&self, pre: Parsec) -> bool {
        &&& self.graph.events.len() == pre.graph.events.len()
        &&& forall|j: int|
            0 <= j < pre.graph.events.len() ==> (#[trigger] self.graph.events[j]).hash
                == pre.graph.events[j].hash && self.graph.events[j].packed
                == pre.graph.events[j].packed
    }

    /// The last ancestors of the event at `later` are, slot by slot, no
    /// earlier than those of the event at `earlier`.
    pub open spec fn precedes(&self, earlier: int, later: int) -> bool {
        forall|p: int|
            0 <= p < self.peers() ==> (
            #[trigger] self.graph.events[earlier].last_ancestors[p] matches Some(a) ==> (
            self.graph.events[later].last_ancestors[p] matches Some(b) && a <= b))
    }

    /// The last ancestors of an event are no earlier than those of its parents.
    pub open spec fn parents_precede(&self) -> bool {
        forall|m: int, e: int| #[trigger] self.graph.is_parent(m, e) ==> self.precedes(m, e)
    }

    /// On every ancestor of an event a first descendant is noted at the
    /// slot of the event's creator, and it is no later than the event.
    pub open spec fn descendants_noted(&self) -> bool {
        forall|f: int, e: int| #[trigger]
            self.graph.is_ancestor(f, e) ==> (
            self.graph.events[f].first_descendants[self.slot(e)] matches Some(d) && d
                <= self.graph.events[e].index)
    }

    /// Every first descendant noted lies on its creator's chain.
    pub open spec fn descendants_bounded(&self) -> bool {
        forall|j: int, q: int|
            0 <= j < self.graph.events.len() && 0 <= q < self.peers() ==> (
            #[trigger] self.graph.events[j].first_descendants[q] matches Some(d) ==> d
                < self.peer_manager.chains[q].len())
    }

    /// The members, the graph, and each event and each chain entry by
    /// itself are well formed.
    pub open spec fn chains_ok(&self) -> bool {
        &&& self.peer_manager.wf()
        &&& self.graph.wf()
        &&& forall|i: int| 0 <= i < self.graph.events.len() ==> #[trigger] self.event_wf(i)
        &&& forall|p: int, k: int|
            0 <= p < self.peers() && 0 <= k < self.peer_manager.chains[p].len()
                ==> #[trigger] self.chain_wf(p, k)
    }

    /// Where an event names a last ancestor for a peer, that event of the
    /// peer is among its ancestors.
    pub open spec fn names_ancestors(&self) -> bool {
        forall|e: int, p: int|
            0 <= e < self.graph.events.len() && 0 <= p < self.peers() ==> (
            #[trigger] self.graph.events[e].last_ancestors[p] matches Some(a) ==> exists|z: int|
                #[trigger] self.is_chain_event(z, p, a as int) && self.graph.is_ancestor(z, e))
    }

    /// Where a first descendant is noted on an event for a peer, that event
    /// of the peer has the event among its ancestors.
    pub open spec fn names_descendants(&self) -> bool {
        forall|f: int, q: int|
            0 <= f < self.graph.events.len() && 0 <= q < self.peers() ==> (
            #[trigger] self.graph.events[f].first_descendants[q] matches Some(d) ==> exists|z: int|
                #[trigger] self.is_chain_event(z, q, d as int) && self.graph.is_ancestor(f, z))
    }

    /// The event at `z` has the hash `h`, carries a vote, and is the event
    /// at `e` or one of its ancestors.
    pub open spec fn is_vote_ancestor(&self, z: int, e: int, h: u64) -> bool {
        &&& self.graph.is_ancestor(z, e)
        &&& self.graph.events[z].hash == h
        &&& self.graph.events[z].packed.spec_vote().is_some()
    }

    /// The event with the hash `h` carries a vote and is the event at `e`
    /// or one of its ancestors.
    pub open spec fn has_vote_ancestor(&self, e: int, h: u64) -> bool {
        exists|z: int| #[trigger] self.is_vote_ancestor(z, e, h)
    }

    /// The valid blocks that an event carries are those of votes among its
    /// ancestors.
    pub open spec fn carries_votes(&self) -> bool {
        forall|e: int, k: int|
            0 <= e < self.graph.events.len() && 0 <= k
                < self.graph.events[e].valid_blocks_carried.len() ==> #[trigger] self.has_vote_ancestor(
                e,
                self.graph.events[e].valid_blocks_carried[k],
            )
    }

    /// The round hashes kept are those that the peers' ids determine.
    pub open spec fn round_hashes_wf(&self) -> bool {
        &&& self.round_hashes.len() == self.peers()
        &&& forall|p: int, r: int|
            0 <= p < self.peers() && 0 <= r < self.round_hashes[p].len() ==> (
            #[trigger] self.round_hashes[p][r]).value == spec_round_hash(
                self.peer_manager.ids[p],
                r as nat,
            )
    }

    /// The invariant of the driver.
    pub open spec fn wf(&self) -> bool {
        &&& self.peer_manager.wf()
        &&& self.graph.wf()
        &&& self.meta_votes.len() == self.graph.events.len()
        &&& forall|i: int| 0 <= i < self.graph.events.len() ==> #[trigger] self.event_wf(i)
        &&& forall|i: int|
            0 <= i < self.meta_votes.len() ==> (#[trigger] self.meta_votes[i] matches Some(v)
                ==> v.len() == self.peers())
        &&& forall|p: int, k: int|
            0 <= p < self.peers() && 0 <= k < self.peer_manager.chains[p].len()
                ==> #[trigger] self.chain_wf(p, k)
        &&& self.descendants_monotone()
        &&& self.parents_precede()
        &&& self.descendants_noted()
        &&& self.descendants_bounded()
        &&& self.names_ancestors()
        &&& self.names_descendants()
        &&& self.carries_votes()
        &&& self.round_hashes_wf()
    }

    /// The last ancestors of an event are no earlier than those of any of
    /// its ancestors.
    pub proof fn lemma_ancestors_precede(&self, a: int, e: int)
        requires
            self.parents_precede(),
            self.graph.is_ancestor(a, e),
        ensures
            self.precedes(a, e),
        decreases e - a,
    {
        if a != e {
            let k = choose|k: int|
                a < k <= e && #[trigger] self.graph.is_parent(a, k) && self.graph.is_ancestor(k, e);
            self.lemma_ancestors_precede(k, e);
            assert(self.precedes(a, k));
            assert(self.precedes(k, e));
            assert forall|p: int| 0 <= p < self.peers() implies (
            #[trigger] self.graph.events[a].last_ancestors[p] matches Some(x) ==> (
            self.graph.events[e].last_ancestors[p] matches Some(y) && x <= y)) by {
                if let Some(x) = self.graph.events[a].last_ancestors[p] {
                    assert(self.graph.events[k].last_ancestors[p].is_some());
                }
            }
        }
    }

    /// Of two events of one creator, the one with the lesser index is an
    /// ancestor of the other.
    pub proof fn lemma_chain_is_ancestry(&self, i: int, j: int)
        requires
            self.chains_ok(),
            0 <= i < self.graph.events.len(),
            0 <= j < self.graph.events.len(),
            self.graph.events[i].packed.creator == self.graph.events[j].packed.creator,
            self.graph.events[i].index <= self.graph.events[j].index,
        ensures
            self.graph.is_ancestor(i, j),
        decreases self.graph.events[j].index - self.graph.events[i].index,
    {
        assert(self.event_wf(i));
        assert(self.event_wf(j));
        let c = self.slot(j);
        assert(0 <= c < self.peers());
        if self.graph.events[i].index == self.graph.events[j].index {
            assert(self.graph.events[i].hash == self.graph.events[j].hash);
            if i < j {
                assert(self.graph.events[i].hash != self.graph.events[j].hash);
            }
            if j < i {
                assert(self.graph.events[j].hash != self.graph.events[i].hash);
            }
            assert(self.graph.is_ancestor(i, i));
        } else {
            let k = self.graph.events[j].index - 1;
            let h = self.graph.events[j].packed.self_parent.unwrap();
            assert(self.chain_wf(c, k));
            let parent = choose|z: int|
                0 <= z < self.graph.events.len() && #[trigger] self.is_chain_event(z, c, k);
            assert(self.graph.parents_known(self.graph.events[j].packed, j));
            let w = choose|w: int|
                0 <= w < j && w < self.graph.events.len() && self.graph.events[w].hash == h;
            if w < parent {
                assert(self.graph.events[w].hash != self.graph.events[parent].hash);
            }
            if parent < w {
                assert(self.graph.events[parent].hash != self.graph.events[w].hash);
            }
            assert(self.graph.is_parent(parent, j));
            self.peer_manager.lemma_slot_unique(c);
            self.lemma_chain_is_ancestry(i, parent);
            self.graph.lemma_parent_extends(i, parent, j);
        }
    }

    /// The place in the graph of the event with index `k` on the chain of slot `p`.
    pub fn chain_event(&self, p: usize, k: usize) -> (at: usize)
        requires
            self.wf(),
            p < self.peer_manager.ids.len(),
            k < self.peer_manager.chains[p as int].len(),
        ensures
            at < self.graph.events.len(),
            self.is_chain_event(at as int, p as int, k as int),
    {
        proof {
            assert(self.chain_wf(p as int, k as int));
            let i = choose|i: int|
                0 <= i < self.graph.events.len() && #[trigger] self.is_chain_event(
                    i,
                    p as int,
                    k as int,
                );
            self.graph.lemma_position(i);
        }
        match self.graph.find(self.peer_manager.chains[p][k]) {
            Some(at) => at,
            None => {
                proof {
                    assert(false);
                }
                0
            },
        }
    }

    /// The slot of the creator of the event at `i`.
    pub fn slot_of_event(&self, i: usize) -> (c: usize)
        requires
            self.wf(),
            i < self.graph.events.len(),
        ensures
            c == self.slot(i as int),
            c < self.peer_manager.ids.len(),
            self.peer_manager.ids[c as int] == self.graph.events[i as int].packed.creator,
    {
        proof {
            assert(self.event_wf(i as int));
        }
        match self.peer_manager.slot_of(self.graph.events[i].packed.creator) {
            Some(c) => c,
            None => {
                proof {
                    assert(false);
                }
                0
            },
        }
    }

    /// The place in the graph of the latest event that the peer at slot `p`
    /// created, or `None` where it has created none.
    pub fn last_event(&self, p: usize) -> (at: Option<usize>)
        requires
            self.wf(),
            p < self.peer_manager.ids.len(),
        ensures
            match at {
                Some(i) => i < self.graph.events.len() && self.peer_manager.chains[p as int].len()
                    > 0 && self.is_chain_event(
                    i as int,
                    p as int,
                    self.peer_manager.chains[p as int].len() - 1,
                ),
                None => self.peer_manager.chains[p as int].len() == 0,
            },
    {
        let n = self.peer_manager.chains[p].len();
        if n == 0 {
            None
        } else {
            Some(self.chain_event(p, n - 1))
        }
    }
}

} // verus!
