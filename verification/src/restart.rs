//! After a block: what of the state of the agreements is cleared, and from
//! which event the derivation is run again.

use vstd::prelude::*;
use crate::digest_set::ascending;
use crate::event::Event;
use crate::hash::Digest;
use crate::metadata::{nobody, spec_nobody};
use crate::parsec::Parsec;
use crate::progress::spec_carried_total;

verus! {

impl Parsec {
    /// `self` is `pre` after the observations of the event at `at` have been set.
    pub open spec fn observed(&self, pre: Parsec, at: int) -> bool {
        &&& *self == (Parsec { graph: self.graph, ..pre })
        &&& self.graph.events.len() == pre.graph.events.len()
        &&& forall|j: int|
            0 <= j < pre.graph.events.len() && j != at ==> #[trigger] self.graph.events[j]
                == pre.graph.events[j]
        &&& self.graph.events[at] == (Event {
            observations: self.graph.events[at].observations,
            ..pre.graph.events[at]
        })
        &&& self.graph.events[at].observations@ == if pre.spec_in_round(
            pre.graph.events[at].packed,
        ) {
            pre.graph.events[at].observations@
        } else {
            pre.spec_observations()
        }
    }

    /// `self` is `pre` after the meta-votes of the event at `at` have been set.
    pub open spec fn voted(&self, pre: Parsec, at: int) -> bool {
        &&& *self == (Parsec {
            meta_votes: self.meta_votes,
            round_hashes: self.round_hashes,
            ..pre
        })
        &&& self.meta_votes@ == pre.meta_votes@.update(at, self.meta_votes[at])
        &&& pre.spec_meta_votes_of(
            at,
            match self.meta_votes[at] {
                Some(vs) => Some(vs@),
                None => None,
            },
        )
        &&& self.round_hashes.len() == pre.round_hashes.len()
        &&& forall|p: int|
            0 <= p < pre.peers() ==> (#[trigger] self.round_hashes[p]).len()
                == match self.meta_votes[at] {
                Some(vs) => if pre.round_hashes[p].len() > vs[p].round {
                    pre.round_hashes[p].len() as int
                } else {
                    vs[p].round + 1
                },
                None => pre.round_hashes[p].len() as int,
            }
    }

    /// `self` is `pre` after the event at `at` has been processed: its
    /// observations set, then its meta-votes.
    pub open spec fn derived(&self, pre: Parsec, at: int) -> bool {
        exists|mid: Parsec| #[trigger] mid.observed(pre, at) && mid.wf() && self.voted(mid, at)
    }

    /// `self` is `pre` after the events at the places from `from` up to,
    /// but without, `to` have been processed, in this order.
    pub open spec fn replayed(&self, pre: Parsec, from: int, to: int) -> bool
        decreases to - from,
    {
        if to <= from {
            *self == pre
        } else {
            exists|mid: Parsec|
                mid.replayed(pre, from, to - 1) && mid.wf() && #[trigger] self.derived(mid, to - 1)
        }
    }

    /// Processes the event at `at`: sets its observations, then its meta-votes.
    pub fn derive(&mut self, at: usize)
        requires
            old(self).wf(),
            at < old(self).graph.events.len(),
        ensures
            final(self).wf(),
            final(self).derived(*old(self), at as int),
            final(self).keeps_graph(*old(self)),
            final(self).carries_as(*old(self)),
            final(self).peer_manager == old(self).peer_manager,
            final(self).consensused_blocks == old(self).consensused_blocks,
    {
        self.set_observations(at);
        let ghost mid = *self;
        self.set_meta_votes(at);
        proof {
            assert(mid.observed(*old(self), at as int));
            assert(self.voted(mid, at as int));
        }
    }

    /// The event with the hash `h` votes for `payload`, so that its valid
    /// block is retired once `payload` is decided.
    pub open spec fn spec_retires(&self, h: Digest, payload: u64) -> bool {
        self.graph.events[self.graph.position(h)].packed.spec_vote() == Some(payload)
    }

    /// `kept` are, ascending, the valid blocks that the event at `j` still
    /// carries once `payload` is decided: those it carries now but for the
    /// blocks of events that vote for `payload`.
    pub open spec fn spec_retained(&self, j: int, payload: u64, kept: Seq<Digest>) -> bool {
        &&& ascending(kept)
        &&& forall|h: Digest|
            kept.contains(h) <==> (self.graph.events[j].valid_blocks_carried@.contains(h)
                && !self.spec_retires(h, payload))
    }

    /// `self` is `pre` after the state of the agreements has been cleared
    /// for a block with `payload`: no event holds meta-votes or
    /// observations, no round hash is kept, and no event carries the valid
    /// block of an event that votes for `payload`.
    pub open spec fn cleared(&self, pre: Parsec, payload: u64) -> bool {
        &&& self.peer_manager == pre.peer_manager
        &&& self.responsiveness_threshold == pre.responsiveness_threshold
        &&& self.consensused_blocks == pre.consensused_blocks
        &&& self.graph.events.len() == pre.graph.events.len()
        &&& forall|j: int|
            0 <= j < pre.graph.events.len() ==> {
                let e = #[trigger] self.graph.events[j];
                &&& e == (Event {
                    observations: e.observations,
                    valid_blocks_carried: e.valid_blocks_carried,
                    ..pre.graph.events[j]
                })
                &&& e.observations@ == spec_nobody(pre.peers() as nat)
                &&& pre.spec_retained(j, payload, e.valid_blocks_carried@)
            }
        &&& self.meta_votes.len() == pre.meta_votes.len()
        &&& forall|i: int| 0 <= i < self.meta_votes.len() ==> (#[trigger] self.meta_votes[i]).is_none()
        &&& self.round_hashes.len() == pre.round_hashes.len()
        &&& forall|p: int|
            0 <= p < self.round_hashes.len() ==> (#[trigger] self.round_hashes[p]).len() == 0
    }

    /// The valid blocks that the event at `j` still carries once `payload`
    /// is decided.
    pub fn retained(&self, j: usize, payload: u64) -> (kept: Vec<Digest>)
        requires
            self.wf(),
            j < self.graph.events.len(),
        ensures
            self.spec_retained(j as int, payload, kept@),
    {
        let carried = &self.graph.events[j].valid_blocks_carried;
        let mut kept: Vec<Digest> = Vec::new();
        let mut k: usize = 0;
        proof {
            assert(self.event_wf(j as int));
        }
        while k < carried.len()
            invariant
                self.wf(),
                j < self.graph.events.len(),
                *carried == self.graph.events[j as int].valid_blocks_carried,
                self.event_wf(j as int),
                k <= carried.len(),
                ascending(kept@),
                forall|i: int, m: int|
                    0 <= i < kept.len() && k <= m < carried.len() ==> kept[i] < carried[m],
                forall|h: Digest|
                    kept@.contains(h) <==> (carried@.take(k as int).contains(h)
                        && !self.spec_retires(h, payload)),
            decreases carried.len() - k,
        {
            let h = carried[k];
            let ghost before = kept@;
            let ghost shorter = carried@.take(k as int);
            let ghost longer = carried@.take(k + 1);
            proof {
                assert(self.graph.contains(carried[k as int]));
            }
            let retire = match self.graph.find(h) {
                Some(at) => match self.graph.events[at].packed.vote() {
                    Some(v) => v == payload,
                    None => false,
                },
                None => false,
            };
            if !retire {
                kept.push(h);
            }
            proof {
                assert(longer == shorter.push(h));
                assert forall|x: Digest| kept@.contains(x) <==> (longer.contains(x)
                    && !self.spec_retires(x, payload)) by {
                    if kept@.contains(x) {
                        let t = choose|t: int| 0 <= t < kept@.len() && kept@[t] == x;
                        if t < before.len() {
                            assert(before[t] == x);
                            assert(before.contains(x));
                            let u = choose|u: int| 0 <= u < shorter.len() && shorter[u] == x;
                            assert(longer[u] == x);
                        } else {
                            assert(longer[k as int] == x);
                        }
                    }
                    if longer.contains(x) && !self.spec_retires(x, payload) {
                        let u = choose|u: int| 0 <= u < longer.len() && longer[u] == x;
                        if u < k {
                            assert(shorter[u] == x);
                            assert(shorter.contains(x));
                            assert(before.contains(x));
                            let t = choose|t: int| 0 <= t < before.len() && before[t] == x;
                            assert(kept@[t] == x);
                        } else {
                            assert(x == h);
                            assert(kept@[before.len() as int] == x);
                        }
                    }
                }
            }
            k += 1;
        }
        proof {
            assert(carried@.take(k as int) =~= carried@);
        }
        kept
    }

    /// Clears the state of the agreements for a block with `payload`.
    pub fn clear_consensus_data(&mut self, payload: u64)
        requires
            old(self).wf(),
        ensures
            final(self).wf(),
            final(self).cleared(*old(self), payload),
    {
        let n = self.peer_manager.len();
        let len = self.graph.events.len();
        let mut kept: Vec<Vec<Digest>> = Vec::new();
        let mut j: usize = 0;
        while j < len
            invariant
                self.wf(),
                len == self.graph.events.len(),
                j <= len,
                kept.len() == j,
                forall|i: int| 0 <= i < j ==> self.spec_retained(i, payload, (#[trigger] kept[i])@),
            decreases len - j,
        {
            let one = self.retained(j, payload);
            kept.push(one);
            j += 1;
        }
        j = 0;
        while j < len
            invariant
                old(self).wf(),
                n == old(self).peer_manager.ids.len(),
                len == old(self).graph.events.len(),
                len == self.graph.events.len(),
                j <= len,
                kept.len() == len,
                *self == (Parsec { graph: self.graph, ..*old(self) }),
                forall|i: int|
                    0 <= i < len ==> old(self).spec_retained(i, payload, (#[trigger] kept[i])@),
                forall|i: int| j <= i < len ==> #[trigger] self.graph.events[i] == old(
                    self,
                ).graph.events[i],
                forall|i: int|
                    0 <= i < j ==> {
                        let e = #[trigger] self.graph.events[i];
                        &&& e == (Event {
                            observations: e.observations,
                            valid_blocks_carried: e.valid_blocks_carried,
                            ..old(self).graph.events[i]
                        })
                        &&& e.observations@ == spec_nobody(n as nat)
                        &&& e.valid_blocks_carried@ == kept[i]@
                    },
            decreases len - j,
        {
            let ghost before = *self;
            self.graph.events[j].valid_blocks_carried = kept[j].clone();
            self.graph.events[j].observations = nobody(n);
            proof {
                assert forall|i: int| j + 1 <= i < len implies #[trigger] self.graph.events[i]
                    == old(self).graph.events[i] by {
                    assert(self.graph.events[i] == before.graph.events[i]);
                }
                assert forall|i: int| 0 <= i < j + 1 implies {
                    let e = #[trigger] self.graph.events[i];
                    &&& e == (Event {
                        observations: e.observations,
                        valid_blocks_carried: e.valid_blocks_carried,
                        ..old(self).graph.events[i]
                    })
                    &&& e.observations@ == spec_nobody(n as nat)
                    &&& e.valid_blocks_carried@ == kept[i]@
                } by {
                    if i < j {
                        assert(self.graph.events[i] == before.graph.events[i]);
                    } else {
                        assert(before.graph.events[i] == old(self).graph.events[i]);
                    }
                }
            }
            j += 1;
        }
        let ghost assigned = *self;
        let mut i: usize = 0;
        while i < self.meta_votes.len()
            invariant
                *self == (Parsec { meta_votes: self.meta_votes, ..assigned }),
                self.meta_votes.len() == assigned.meta_votes.len(),
                i <= self.meta_votes.len(),
                forall|k: int| 0 <= k < i ==> (#[trigger] self.meta_votes[k]).is_none(),
            decreases self.meta_votes.len() - i,
        {
            self.meta_votes[i] = None;
            i += 1;
        }
        let ghost silenced = *self;
        let mut p: usize = 0;
        while p < self.round_hashes.len()
            invariant
                *self == (Parsec { round_hashes: self.round_hashes, ..silenced }),
                self.round_hashes.len() == silenced.round_hashes.len(),
                p <= self.round_hashes.len(),
                forall|q: int| 0 <= q < p ==> (#[trigger] self.round_hashes[q]).len() == 0,
            decreases self.round_hashes.len() - p,
        {
            self.round_hashes[p] = Vec::new();
            p += 1;
        }
        proof {
            assert(self.graph == assigned.graph);
            assert forall|j: int| 0 <= j < old(self).graph.events.len() implies {
                let e = #[trigger] self.graph.events[j];
                &&& e == (Event {
                    observations: e.observations,
                    valid_blocks_carried: e.valid_blocks_carried,
                    ..old(self).graph.events[j]
                })
                &&& e.observations@ == spec_nobody(old(self).peers() as nat)
                &&& old(self).spec_retained(j, payload, e.valid_blocks_carried@)
            } by {
                assert(old(self).spec_retained(j, payload, kept[j]@));
            }
            assert(self.cleared(*old(self), payload));
            assert(self.round_hashes_wf());
            assert forall|j: int| 0 <= j < old(self).graph.events.len() implies {
                let e = #[trigger] self.graph.events[j];
                e.observations.len() == old(self).peers()
            } by {
                assert(self.graph.events[j].observations@ == spec_nobody(n as nat));
            }
            self.lemma_consensus_keeps_invariant(*old(self));
        }
    }

    /// `self` is `pre` after the event at `at` has been processed and the
    /// blocks that were then due have been concluded.
    pub open spec fn processed(&self, pre: Parsec, at: int) -> bool {
        exists|mid: Parsec| #[trigger] mid.derived(pre, at) && mid.wf() && self.settled(mid)
    }

    /// `start` is the place from which the derivation is run again: the
    /// first in the graph of the oldest events with a valid block that the
    /// peers' chains carry; `None` where there is no such event.
    pub open spec fn spec_is_restart_point(&self, start: Option<usize>) -> bool {
        match start {
            Some(s) => {
                &&& exists|p: int| 0 <= p < self.peers() && #[trigger] self.spec_oldest(p) == Some(s)
                &&& forall|p: int|
                    0 <= p < self.peers() ==> (#[trigger] self.spec_oldest(p) matches Some(r) ==> s
                        <= r)
            },
            None => forall|p: int| 0 <= p < self.peers() ==> (#[trigger] self.spec_oldest(p)).is_none(),
        }
    }

    /// `self` is `pre` after the derivation has been run again: every event
    /// from the restart point on has been processed, in the order of the graph.
    pub open spec fn restarted(&self, pre: Parsec) -> bool {
        exists|start: Option<usize>|
            #[trigger] pre.spec_is_restart_point(start) && match start {
                Some(s) => self.replayed(pre, s as int, pre.graph.events.len() as int),
                None => *self == pre,
            }
    }

    /// `self` is `pre` after the block `block` has been concluded: the state
    /// of the agreements cleared for its payload, the block queued, and the
    /// derivation run again.
    pub open spec fn concluded(&self, pre: Parsec, block: crate::block::Block) -> bool {
        exists|cleared: Parsec, queued: Parsec|
            #![trigger cleared.cleared(pre, block.payload), self.restarted(queued)]
            cleared.cleared(pre, block.payload) && cleared.wf() && queued == (Parsec {
                consensused_blocks: queued.consensused_blocks,
                ..cleared
            }) && queued.consensused_blocks@ == pre.consensused_blocks@.push(block)
                && self.restarted(queued)
    }

    /// `self` is `pre` after the blocks that are due have been concluded,
    /// one after the other, until none is due. Each of them leaves the
    /// events with fewer valid blocks carried, so this comes to an end.
    pub open spec fn settled(&self, pre: Parsec) -> bool
        decreases spec_carried_total(pre.graph.events@),
    {
        if forall|payload: u64, voters: Seq<u64>| !pre.spec_stable_block(payload, voters) {
            *self == pre
        } else {
            exists|block: crate::block::Block, mid: Parsec|
                #![trigger mid.concluded(pre, block)]
                pre.spec_stable_block(block.payload, block.voters@) && mid.concluded(pre, block)
                    && mid.wf() && spec_carried_total(mid.graph.events@) < spec_carried_total(
                    pre.graph.events@,
                ) && self.settled(mid)
        }
    }

    /// The place from which the derivation is run again.
    pub fn restart_point(&self) -> (start: Option<usize>)
        requires
            self.wf(),
        ensures
            self.spec_is_restart_point(start),
            start matches Some(s) ==> s < self.graph.events.len(),
    {
        let n = self.peer_manager.len();
        let mut start: Option<usize> = None;
        let mut p: usize = 0;
        while p < n
            invariant
                self.wf(),
                n == self.peer_manager.ids.len(),
                p <= n,
                start matches Some(s) ==> s < self.graph.events.len(),
                match start {
                    Some(s) => {
                        &&& exists|q: int| 0 <= q < p && #[trigger] self.spec_oldest(q) == Some(s)
                        &&& forall|q: int|
                            0 <= q < p ==> (#[trigger] self.spec_oldest(q) matches Some(r) ==> s
                                <= r)
                    },
                    None => forall|q: int| 0 <= q < p ==> (#[trigger] self.spec_oldest(q)).is_none(),
                },
            decreases n - p,
        {
            match self.oldest_event_with_valid_block(p) {
                Some(r) => {
                    let take = match start {
                        Some(s) => r < s,
                        None => true,
                    };
                    if take {
                        start = Some(r);
                    }
                },
                None => {
                    proof {
                        assert(self.spec_oldest(p as int).is_none());
                    }
                },
            }
            p += 1;
        }
        start
    }

    /// Runs the derivation again from the restart point.
    pub fn restart_consensus(&mut self)
        requires
            old(self).wf(),
        ensures
            final(self).wf(),
            final(self).restarted(*old(self)),
            final(self).keeps_graph(*old(self)),
            final(self).carries_as(*old(self)),
            final(self).peer_manager == old(self).peer_manager,
            final(self).consensused_blocks == old(self).consensused_blocks,
    {
        let start = match self.restart_point() {
            Some(s) => s,
            None => {
                return ;
            },
        };
        let len = self.graph.events.len();
        let mut at: usize = start;
        while at < len
            invariant
                self.wf(),
                start <= at <= len,
                len == self.graph.events.len(),
                len == old(self).graph.events.len(),
                self.keeps_graph(*old(self)),
                self.carries_as(*old(self)),
                self.peer_manager == old(self).peer_manager,
                self.consensused_blocks == old(self).consensused_blocks,
                self.replayed(*old(self), start as int, at as int),
            decreases len - at,
        {
            let ghost mid = *self;
            self.derive(at);
            proof {
                let to: int = at + 1;
                assert(to - 1 == at as int);
                assert(mid.replayed(*old(self), start as int, to - 1));
                assert(self.derived(mid, to - 1));
                assert(self.replayed(*old(self), start as int, to));
            }
            at += 1;
        }
    }

    /// Concludes the blocks that are due, one after the other, until none is due.
    pub fn settle(&mut self)
        requires
            old(self).wf(),
        ensures
            final(self).wf(),
            final(self).settled(*old(self)),
            final(self).keeps_graph(*old(self)),
            final(self).peer_manager == old(self).peer_manager,
        decreases spec_carried_total(old(self).graph.events@),
    {
        let block = match self.next_stable_block() {
            Some(block) => block,
            None => {
                return ;
            },
        };
        let ghost due = block;
        self.clear_consensus_data(block.payload);
        let ghost cleared = *self;
        self.consensused_blocks.push(block);
        let ghost queued = *self;
        proof {
            assert forall|j: int| 0 <= j < cleared.graph.events.len() implies {
                let e = #[trigger] self.graph.events[j];
                &&& e.observations.len() == cleared.peers()
                &&& ascending(e.valid_blocks_carried@)
            } by {
                assert(cleared.event_wf(j));
            }
            assert(self.round_hashes_wf()) by {
                assert(cleared.round_hashes_wf());
            }
            self.lemma_consensus_keeps_invariant(cleared);
            cleared.lemma_clearing_retires(*old(self), due.payload, due.voters@);
        }
        self.restart_consensus();
        let ghost mid = *self;
        proof {
            assert(mid.concluded(*old(self), due));
            mid.lemma_carries_as_many(queued);
            assert(queued.graph == cleared.graph);
        }
        self.settle();
    }

    /// Processes the event at `at`, then concludes the blocks that are due.
    pub fn process_event(&mut self, at: usize)
        requires
            old(self).wf(),
            at < old(self).graph.events.len(),
        ensures
            final(self).wf(),
            final(self).processed(*old(self), at as int),
            final(self).keeps_graph(*old(self)),
            final(self).peer_manager == old(self).peer_manager,
    {
        self.derive(at);
        self.settle();
    }
}

} // verus!
