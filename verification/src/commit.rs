//! Committing an admitted event: its first descendants are noted on its
//! ancestors and the event joins the graph and its creator's chain.

use vstd::prelude::*;
use crate::digest_set::ascending;
use crate::error::Error;
use crate::event::{Event, PackedEvent};
use crate::hash::Digest;
use crate::meta_vote::MetaVote;
use crate::metadata::{absent, nobody, spec_absent, spec_nobody};
use crate::parsec::Parsec;

verus! {

impl Parsec {
    /// `pre` and `self` differ in the first descendants of their events at most.
    pub open spec fn same_but_descendants(&self, pre: Parsec) -> bool {
        &&& *self == (Parsec { graph: self.graph, ..pre })
        &&& self.graph.events.len() == pre.graph.events.len()
        &&& forall|j: int|
            0 <= j < pre.graph.events.len() ==> #[trigger] self.graph.events[j] == (Event {
                first_descendants: self.graph.events[j].first_descendants,
                ..pre.graph.events[j]
            })
    }

    /// The first descendants of the event at `j` once an event with the
    /// index `index`, the last ancestors `la` and a creator at slot `c` has
    /// been appended: the new event is noted at `c` where the event at `j` is
    /// among its ancestors and had no descendant noted there.
    pub open spec fn spec_descendants_after(
        &self,
        la: Seq<Option<u64>>,
        c: int,
        index: u64,
        j: int,
    ) -> Seq<Option<u64>> {
        if self.spec_touched(la, c, j) {
            self.graph.events[j].first_descendants@.update(c, Some(index))
        } else {
            self.graph.events[j].first_descendants@
        }
    }

    /// `self` is `pre` after the admitted event `packed` has been appended:
    /// the event stands last in the graph and on its creator's chain with the
    /// metadata computed from `pre`, it holds no meta-votes, and the events
    /// of `pre` have gained first descendants at most.
    pub open spec fn appended(&self, pre: Parsec, packed: PackedEvent) -> bool {
        let c = pre.peer_manager.spec_slot_of(packed.creator);
        let index = pre.spec_index(packed) as u64;
        let at = pre.graph.events.len() as int;
        let la = pre.spec_last_ancestors(packed, c, index);
        let e = self.graph.events[at];
        &&& self.peer_manager.our_id == pre.peer_manager.our_id
        &&& self.peer_manager.ids@ == pre.peer_manager.ids@
        &&& self.peer_manager.chains.len() == pre.peer_manager.chains.len()
        &&& self.peer_manager.chains[c]@ == pre.peer_manager.chains[c]@.push(packed.spec_hash())
        &&& forall|p: int|
            0 <= p < pre.peers() && p != c ==> #[trigger] self.peer_manager.chains[p]
                == pre.peer_manager.chains[p]
        &&& self.graph.events.len() == at + 1
        &&& e.packed == packed
        &&& e.hash == packed.spec_hash()
        &&& e.index == index
        &&& e.topological_index == at
        &&& e.last_ancestors@ == la
        &&& e.first_descendants@ == spec_absent(pre.peers() as nat).update(c, Some(index))
        &&& ascending(e.valid_blocks_carried@)
        &&& forall|h: Digest|
            e.valid_blocks_carried@.contains(h) <==> pre.spec_carries(packed, packed.spec_hash(), h)
        &&& e.observations@ == spec_nobody(pre.peers() as nat)
        &&& forall|j: int|
            0 <= j < at ==> #[trigger] self.graph.events[j] == (Event {
                first_descendants: self.graph.events[j].first_descendants,
                ..pre.graph.events[j]
            }) && self.graph.events[j].first_descendants@ == pre.spec_descendants_after(
                la,
                c,
                index,
                j,
            )
        &&& self.meta_votes@ == pre.meta_votes@.push(None::<Vec<MetaVote>>)
        &&& self.round_hashes == pre.round_hashes
        &&& self.consensused_blocks == pre.consensused_blocks
        &&& self.responsiveness_threshold == pre.responsiveness_threshold
    }

    /// Notes `index` as the first descendant at slot `c` on each event whose
    /// place is among `sites`, and on no other.
    pub fn note_first_descendant(&mut self, sites: &Vec<usize>, c: usize, index: u64)
        requires
            forall|t: int| 0 <= t < sites.len() ==> sites[t] < old(self).graph.events.len(),
            forall|j: int|
                0 <= j < old(self).graph.events.len() ==> c < (
                #[trigger] old(self).graph.events[j]).first_descendants.len(),
        ensures
            final(self).same_but_descendants(*old(self)),
            forall|j: usize|
                j < old(self).graph.events.len() ==> (
                #[trigger] final(self).graph.events[j as int]).first_descendants@ == if sites@.contains(
                    j,
                ) {
                    old(self).graph.events[j as int].first_descendants@.update(
                        c as int,
                        Some(index),
                    )
                } else {
                    old(self).graph.events[j as int].first_descendants@
                },
    {
        let mut t: usize = 0;
        while t < sites.len()
            invariant
                t <= sites.len(),
                forall|u: int| 0 <= u < sites.len() ==> sites[u] < old(self).graph.events.len(),
                forall|j: int|
                    0 <= j < old(self).graph.events.len() ==> c < (
                    #[trigger] old(self).graph.events[j]).first_descendants.len(),
                self.same_but_descendants(*old(self)),
                forall|j: usize|
                    j < old(self).graph.events.len() ==> (
                    #[trigger] self.graph.events[j as int]).first_descendants@ == if sites@.take(
                        t as int,
                    ).contains(j) {
                        old(self).graph.events[j as int].first_descendants@.update(
                            c as int,
                            Some(index),
                        )
                    } else {
                        old(self).graph.events[j as int].first_descendants@
                    },
            decreases sites.len() - t,
        {
            let at = sites[t];
            let ghost before = *self;
            proof {
                assert(self.graph.events[at as int].first_descendants@.len() == old(
                    self,
                ).graph.events[at as int].first_descendants@.len());
            }
            self.graph.events[at].first_descendants[c] = Some(index);
            proof {
                let shorter = sites@.take(t as int);
                let longer = sites@.take(t + 1);
                assert(longer == shorter.push(at));
                assert forall|j: usize| j < old(self).graph.events.len() implies (
                #[trigger] self.graph.events[j as int]).first_descendants@ == if longer.contains(
                    j,
                ) {
                    old(self).graph.events[j as int].first_descendants@.update(
                        c as int,
                        Some(index),
                    )
                } else {
                    old(self).graph.events[j as int].first_descendants@
                } by {
                    if shorter.contains(j) {
                        let u = choose|u: int| 0 <= u < shorter.len() && shorter[u] == j;
                        assert(longer[u] == j);
                    }
                    if longer.contains(j) && j != at {
                        let u = choose|u: int| 0 <= u < longer.len() && longer[u] == j;
                        assert(shorter[u] == j);
                    }
                    if j == at {
                        assert(longer[t as int] == j);
                        assert(before.graph.events[j as int].first_descendants@.update(
                            c as int,
                            Some(index),
                        ) =~= old(self).graph.events[j as int].first_descendants@.update(
                            c as int,
                            Some(index),
                        ));
                    } else {
                        assert(self.graph.events[j as int] == before.graph.events[j as int]);
                    }
                }
                assert forall|j: int| 0 <= j < old(self).graph.events.len() implies
                    #[trigger] self.graph.events[j] == (Event {
                    first_descendants: self.graph.events[j].first_descendants,
                    ..old(self).graph.events[j]
                }) by {
                    if j != at {
                        assert(self.graph.events[j] == before.graph.events[j]);
                    }
                }
            }
            t += 1;
        }
        proof {
            assert(sites@.take(t as int) =~= sites@);
        }
    }

    /// The last ancestors computed for an admitted event lie on the chains.
    pub proof fn lemma_last_ancestors_bounded(&self, packed: PackedEvent, index: u64)
        requires
            self.wf(),
            self.spec_refusal(packed).is_none(),
        ensures
            ({
                let c = self.peer_manager.spec_slot_of(packed.creator);
                let la = self.spec_last_ancestors(packed, c, index);
                &&& 0 <= c < self.peers()
                &&& la.len() == self.peers()
                &&& la[c] == Some(index)
                &&& forall|p: int|
                    0 <= p < la.len() && p != c ==> (#[trigger] la[p] matches Some(a) ==> a
                        < self.peer_manager.chains[p].len())
            }),
    {
        let c = self.peer_manager.spec_slot_of(packed.creator);
        if let Some(hs) = packed.self_parent {
            let s = self.graph.position(hs);
            assert(self.event_wf(s));
            if let Some(ho) = packed.other_parent {
                let o = self.graph.position(ho);
                assert(self.event_wf(o));
            }
        }
    }

    /// Sets the first descendants of the staged event, whose index and last
    /// ancestors are set, and notes the event as first descendant on those
    /// of its ancestors that have none of its creator yet.
    pub fn set_first_descendants(&mut self, event: &mut Event)
        requires
            old(self).wf(),
            old(self).spec_refusal(old(event).packed).is_none(),
            old(event).last_ancestors@ == old(self).spec_last_ancestors(
                old(event).packed,
                old(self).peer_manager.spec_slot_of(old(event).packed.creator),
                old(event).index,
            ),
        ensures
            final(self).same_but_descendants(*old(self)),
            forall|j: int|
                0 <= j < old(self).graph.events.len() ==> (
                #[trigger] final(self).graph.events[j]).first_descendants@ == old(
                    self,
                ).spec_descendants_after(
                    old(event).last_ancestors@,
                    old(self).peer_manager.spec_slot_of(old(event).packed.creator),
                    old(event).index,
                    j,
                ),
            final(event).first_descendants@ == spec_absent(old(self).peers() as nat).update(
                old(self).peer_manager.spec_slot_of(old(event).packed.creator),
                Some(old(event).index),
            ),
            *final(event) == (Event {
                first_descendants: final(event).first_descendants,
                ..*old(event)
            }),
    {
        let c = match self.peer_manager.slot_of(event.packed.creator) {
            Some(c) => c,
            None => {
                proof {
                    assert(false);
                }
                0
            },
        };
        proof {
            self.lemma_last_ancestors_bounded(event.packed, event.index);
            assert forall|j: int| 0 <= j < self.graph.events.len() implies c < (
            #[trigger] self.graph.events[j]).first_descendants.len() by {
                assert(self.event_wf(j));
            }
        }
        let mut own = absent(self.peer_manager.ids.len());
        own[c] = Some(event.index);
        let sites = self.first_descendant_sites(&event.last_ancestors, c);
        self.note_first_descendant(&sites, c, event.index);
        event.first_descendants = own;
    }

    /// Appends `packed` unless the graph holds it already or it is refused.
    ///
    /// Returns `Ok(None)` where the graph holds an event with this hash,
    /// `Ok(Some(at))` where the event was appended at the place `at`, and
    /// the reason where it was refused; only an appended event changes the
    /// state.
    pub fn append(&mut self, packed: PackedEvent) -> (res: Result<Option<usize>, Error>)
        requires
            old(self).wf(),
        ensures
            final(self).wf(),
            match res {
                Ok(None) => old(self).graph.contains(packed.spec_hash()) && *final(self) == *old(
                    self,
                ),
                Ok(Some(at)) => !old(self).graph.contains(packed.spec_hash()) && old(
                    self,
                ).spec_refusal(packed).is_none() && at == old(self).graph.events.len()
                    && final(self).appended(*old(self), packed),
                Err(e) => !old(self).graph.contains(packed.spec_hash()) && old(self).spec_refusal(
                    packed,
                ) == Some(e) && *final(self) == *old(self),
            },
    {
        let hash = packed.hash();
        if self.graph.contains_hash(hash) {
            return Ok(None);
        }
        let c = match self.check(&packed) {
            Ok(c) => c,
            Err(e) => {
                return Err(e);
            },
        };
        let mut event = Event {
            packed,
            hash,
            index: 0,
            topological_index: self.graph.len(),
            last_ancestors: Vec::new(),
            first_descendants: Vec::new(),
            valid_blocks_carried: Vec::new(),
            observations: nobody(self.peer_manager.len()),
        };
        self.set_index(&mut event);
        self.set_last_ancestors(&mut event);
        self.set_valid_blocks_carried(&mut event);
        self.set_first_descendants(&mut event);
        let index = event.index;
        let ghost staged = event;
        let ghost noted = *self;
        proof {
            self.lemma_descendants_keep_graph(*old(self));
            old(self).lemma_index_is_chain_length(packed);
            assert(!self.graph.contains(hash));
            assert(self.graph.parents_known(packed, self.graph.spec_len())) by {
                if let Some(h) = packed.self_parent {
                    assert(self.graph.contains(h));
                }
                if let Some(h) = packed.other_parent {
                    assert(self.graph.contains(h));
                }
            }
        }
        let inserted = self.graph.insert(event);
        let recorded = self.peer_manager.record(packed.creator, index, hash);
        self.meta_votes.push(None);
        proof {
            assert(inserted.is_ok());
            assert(recorded == Ok::<Option<Digest>, Error>(None));
            let at = old(self).graph.events.len() as int;
            assert(self.graph.events@ == noted.graph.events@.push(
                Event { topological_index: at as usize, ..staged },
            ));
            assert(self.graph.events[at] == staged);
            assert forall|j: int| 0 <= j < at implies #[trigger] self.graph.events[j]
                == noted.graph.events[j] by {}
            old(self).peer_manager.lemma_slot_unique(c as int);
            assert(self.appended(*old(self), packed));
            self.lemma_append_keeps_invariant(*old(self), packed);
        }
        Ok(Some(self.graph.len() - 1))
    }
}

} // verus!
