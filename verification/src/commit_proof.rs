//! Why appending an event keeps the driver's invariant.

use vstd::prelude::*;
use crate::event::PackedEvent;
use crate::parsec::Parsec;

verus! {

impl Parsec {
    /// Events that differ in their first descendants at most make as well
    /// formed a graph.
    pub proof fn lemma_descendants_keep_graph(&self, pre: Parsec)
        requires
            pre.graph.wf(),
            self.same_but_descendants(pre),
        ensures
            self.graph.wf(),
            forall|h: u64| self.graph.contains(h) == pre.graph.contains(h),
    {
        assert forall|i: int| 0 <= i < self.graph.events.len() implies (
        #[trigger] self.graph.events[i]).topological_index == i && self.graph.parents_known(
            self.graph.events[i].packed,
            i,
        ) by {
            assert(pre.graph.events[i].topological_index == i);
            assert(pre.graph.parents_known(pre.graph.events[i].packed, i));
            if let Some(h) = self.graph.events[i].packed.self_parent {
                let j = choose|j: int|
                    0 <= j < i && j < pre.graph.events.len() && pre.graph.events[j].hash == h;
                assert(self.graph.events[j].hash == h);
            }
            if let Some(h) = self.graph.events[i].packed.other_parent {
                let j = choose|j: int|
                    0 <= j < i && j < pre.graph.events.len() && pre.graph.events[j].hash == h;
                assert(self.graph.events[j].hash == h);
            }
        }
        assert forall|i: int, j: int| 0 <= i < j < self.graph.events.len() implies self.graph.events[i].hash
            != self.graph.events[j].hash by {
            assert(pre.graph.events[i].hash != pre.graph.events[j].hash);
            assert(self.graph.events[i].hash == pre.graph.events[i].hash);
            assert(self.graph.events[j].hash == pre.graph.events[j].hash);
        }
        assert forall|h: u64| self.graph.contains(h) == pre.graph.contains(h) by {
            if self.graph.contains(h) {
                let j = choose|j: int|
                    0 <= j < self.graph.spec_len() && j < self.graph.events.len()
                        && self.graph.events[j].hash == h;
                assert(pre.graph.events[j].hash == h);
            }
            if pre.graph.contains(h) {
                let j = choose|j: int|
                    0 <= j < pre.graph.spec_len() && j < pre.graph.events.len()
                        && pre.graph.events[j].hash == h;
                assert(self.graph.events[j].hash == h);
            }
        }
    }

    /// What the proofs about an append start from.
    pub open spec fn append_ok(&self, pre: Parsec, packed: PackedEvent) -> bool {
        &&& pre.wf()
        &&& !pre.graph.contains(packed.spec_hash())
        &&& pre.spec_refusal(packed).is_none()
        &&& self.appended(pre, packed)
        &&& self.peer_manager.wf()
        &&& self.graph.wf()
    }

    /// An append leaves every event's creator at its slot, and puts the new
    /// event at the end of its creator's chain.
    pub proof fn lemma_append_slots(&self, pre: Parsec, packed: PackedEvent)
        requires
            self.append_ok(pre, packed),
        ensures
            self.peers() == pre.peers(),
            forall|j: int|
                0 <= j < pre.graph.events.len() ==> #[trigger] self.slot(j) == pre.slot(j)
                    && self.peer_manager.has_peer(self.graph.events[j].packed.creator) && 0
                    <= pre.slot(j) < pre.peers(),
            self.peer_manager.has_peer(packed.creator),
            self.slot(pre.graph.events.len() as int) == pre.peer_manager.spec_slot_of(
                packed.creator,
            ),
            0 <= pre.peer_manager.spec_slot_of(packed.creator) < pre.peers(),
            pre.spec_index(packed) == pre.peer_manager.chains[pre.peer_manager.spec_slot_of(
                packed.creator,
            )].len(),
    {
        assert forall|j: int| 0 <= j < pre.graph.events.len() implies #[trigger] self.slot(j)
            == pre.slot(j) && self.peer_manager.has_peer(self.graph.events[j].packed.creator) && 0
            <= pre.slot(j) < pre.peers() by {
            assert(pre.event_wf(j));
            pre.peer_manager.lemma_slot_stable(
                &self.peer_manager,
                pre.graph.events[j].packed.creator,
            );
        }
        pre.peer_manager.lemma_slot_stable(&self.peer_manager, packed.creator);
        pre.lemma_index_is_chain_length(packed);
    }

    /// After an append every event that was there before is still well formed.
    pub proof fn lemma_append_keeps_events(&self, pre: Parsec, packed: PackedEvent, j: int)
        requires
            self.append_ok(pre, packed),
            0 <= j < pre.graph.events.len(),
        ensures
            self.event_wf(j),
    {
        self.lemma_append_slots(pre, packed);
        assert(pre.event_wf(j));
        let c = pre.peer_manager.spec_slot_of(packed.creator);
        let e = self.graph.events[j];
        let old_e = pre.graph.events[j];
        let s = pre.slot(j);
        assert(self.slot(j) == s);
        assert(e.first_descendants@.len() == old_e.first_descendants@.len());
        assert(e.first_descendants[s] == Some(e.index)) by {
            assert(old_e.first_descendants[s] == Some(old_e.index));
        }
        if s == c {
            assert(self.peer_manager.chains[s]@[e.index as int] == e.hash);
        } else {
            assert(self.peer_manager.chains[s] == pre.peer_manager.chains[s]);
        }
        assert forall|p: int| 0 <= p < self.peers() implies (
        #[trigger] e.last_ancestors[p] matches Some(a) ==> a
            < self.peer_manager.chains[p].len()) by {
            if p != c {
                assert(self.peer_manager.chains[p] == pre.peer_manager.chains[p]);
            }
        }
        assert forall|k: int| 0 <= k < e.valid_blocks_carried.len() implies self.graph.contains(
            #[trigger] e.valid_blocks_carried[k],
        ) by {
            let h = e.valid_blocks_carried[k];
            assert(pre.graph.contains(old_e.valid_blocks_carried[k]));
            let i = choose|i: int|
                0 <= i < pre.graph.spec_len() && i < pre.graph.events.len()
                    && pre.graph.events[i].hash == h;
            assert(self.graph.events[i].hash == h);
        }
    }

    /// After an append the new event is well formed.
    pub proof fn lemma_append_forms_event(&self, pre: Parsec, packed: PackedEvent)
        requires
            self.append_ok(pre, packed),
        ensures
            self.event_wf(pre.graph.events.len() as int),
    {
        self.lemma_append_slots(pre, packed);
        let at = pre.graph.events.len() as int;
        let c = pre.peer_manager.spec_slot_of(packed.creator);
        let e = self.graph.events[at];
        let index = pre.spec_index(packed) as u64;
        pre.lemma_last_ancestors_bounded(packed, index);
        assert(self.slot(at) == c);
        assert(self.peer_manager.chains[c]@[index as int] == e.hash);
        assert forall|p: int| 0 <= p < self.peers() implies (
        #[trigger] e.last_ancestors[p] matches Some(a) ==> a
            < self.peer_manager.chains[p].len()) by {
            if p != c {
                assert(self.peer_manager.chains[p] == pre.peer_manager.chains[p]);
            }
        }
        assert forall|k: int| 0 <= k < e.valid_blocks_carried.len() implies self.graph.contains(
            #[trigger] e.valid_blocks_carried[k],
        ) by {
            let h = e.valid_blocks_carried[k];
            assert(e.valid_blocks_carried@.contains(h));
            assert(pre.spec_carries(packed, packed.spec_hash(), h));
            if pre.spec_makes_valid(packed) && h == packed.spec_hash() {
                assert(self.graph.events[at].hash == h);
            } else {
                let parent = if packed.self_parent.is_some() && pre.graph.events[pre.graph.position(
                    packed.self_parent.unwrap(),
                )].valid_blocks_carried@.contains(h) {
                    pre.graph.position(packed.self_parent.unwrap())
                } else {
                    pre.graph.position(packed.other_parent.unwrap())
                };
                assert(0 <= parent < pre.graph.events.len());
                assert(pre.event_wf(parent));
                let t = choose|t: int|
                    0 <= t < pre.graph.events[parent].valid_blocks_carried@.len()
                        && pre.graph.events[parent].valid_blocks_carried@[t] == h;
                assert(pre.graph.contains(pre.graph.events[parent].valid_blocks_carried[t]));
                let i = choose|i: int|
                    0 <= i < pre.graph.spec_len() && i < pre.graph.events.len()
                        && pre.graph.events[i].hash == h;
                assert(self.graph.events[i].hash == h);
            }
        }
    }

    /// After an append every entry of every chain names its event.
    pub proof fn lemma_append_keeps_chains(&self, pre: Parsec, packed: PackedEvent, p: int, k: int)
        requires
            self.append_ok(pre, packed),
            0 <= p < self.peers(),
            0 <= k < self.peer_manager.chains[p].len(),
        ensures
            self.chain_wf(p, k),
    {
        self.lemma_append_slots(pre, packed);
        let at = pre.graph.events.len() as int;
        let c = pre.peer_manager.spec_slot_of(packed.creator);
        if p == c && k == pre.peer_manager.chains[c].len() {
            pre.peer_manager.lemma_slot_unique(c);
            assert(self.is_chain_event(at, p, k));
        } else {
            if p != c {
                assert(self.peer_manager.chains[p] == pre.peer_manager.chains[p]);
            }
            assert(pre.chain_wf(p, k));
            let i = choose|i: int|
                0 <= i < pre.graph.events.len() && #[trigger] pre.is_chain_event(i, p, k);
            assert(self.graph.events[i].hash == pre.graph.events[i].hash);
            assert(self.is_chain_event(i, p, k));
        }
    }

    /// After an append first descendants are still noted downwards along
    /// every chain.
    pub proof fn lemma_append_keeps_monotone(&self, pre: Parsec, packed: PackedEvent)
        requires
            self.append_ok(pre, packed),
        ensures
            self.descendants_monotone(),
    {
        self.lemma_append_slots(pre, packed);
        let at = pre.graph.events.len() as int;
        let c = pre.peer_manager.spec_slot_of(packed.creator);
        let index = pre.spec_index(packed) as u64;
        let la = pre.spec_last_ancestors(packed, c, index);
        pre.lemma_last_ancestors_bounded(packed, index);
        pre.peer_manager.lemma_slot_unique(c);
        assert forall|i: int, j: int, q: int|
            0 <= i < self.graph.events.len() && 0 <= j < self.graph.events.len() && 0 <= q
                < self.peers() && self.graph.events[i].packed.creator
                == self.graph.events[j].packed.creator && self.graph.events[i].index
                <= self.graph.events[j].index
                && (#[trigger] self.graph.events[j].first_descendants[q]).is_some() implies (
        #[trigger] self.graph.events[i].first_descendants[q]).is_some() by {
            if i < at {
                assert(pre.event_wf(i));
            }
            if j < at {
                assert(pre.event_wf(j));
            }
            if i == at && j == at {
            } else if j == at {
                // The new event notes itself only, and so does every event of its creator.
                assert(q == c);
                assert(pre.slot(i) == c);
                assert(pre.graph.events[i].first_descendants[c] == Some(pre.graph.events[i].index));
            } else if i == at {
                // No older event of the creator has the new event's index.
                assert(pre.slot(j) == c);
                assert(pre.graph.events[j].index < pre.peer_manager.chains[c].len());
                assert(false);
            } else {
                assert(pre.slot(i) == pre.slot(j));
                if pre.graph.events[j].first_descendants[q].is_some() {
                    assert(pre.graph.events[i].first_descendants[q].is_some());
                } else {
                    assert(pre.spec_touched(la, c, j));
                    assert(q == c);
                    if pre.graph.events[i].first_descendants[c].is_none() {
                        assert(pre.spec_touched(la, c, i));
                    }
                }
            }
        }
    }

    /// After an append every first descendant noted lies on its creator's chain.
    pub proof fn lemma_append_keeps_bounded(&self, pre: Parsec, packed: PackedEvent)
        requires
            self.append_ok(pre, packed),
        ensures
            self.descendants_bounded(),
    {
        self.lemma_append_slots(pre, packed);
        let at = pre.graph.events.len() as int;
        let c = pre.peer_manager.spec_slot_of(packed.creator);
        assert forall|j: int, q: int|
            0 <= j < self.graph.events.len() && 0 <= q < self.peers() implies (
        #[trigger] self.graph.events[j].first_descendants[q] matches Some(d) ==> d
            < self.peer_manager.chains[q].len()) by {
            if q != c {
                assert(self.peer_manager.chains[q] == pre.peer_manager.chains[q]);
            }
            if j < at {
                assert(pre.event_wf(j));
                assert(pre.graph.events[j].first_descendants[q] matches Some(d) ==> d
                    < pre.peer_manager.chains[q].len());
            }
        }
    }

    /// After an append the last ancestors of every event are no earlier
    /// than those of its parents.
    pub proof fn lemma_append_keeps_precedence(&self, pre: Parsec, packed: PackedEvent)
        requires
            self.append_ok(pre, packed),
        ensures
            self.parents_precede(),
    {
        self.lemma_append_slots(pre, packed);
        let at = pre.graph.events.len() as int;
        let c = pre.peer_manager.spec_slot_of(packed.creator);
        let index = pre.spec_index(packed) as u64;
        pre.lemma_last_ancestors_bounded(packed, index);
        assert forall|m: int, e: int| #[trigger] self.graph.is_parent(m, e) implies self.precedes(
            m,
            e,
        ) by {
            assert(self.graph.events[m].hash == pre.graph.events[m].hash);
            assert(self.graph.events[m].last_ancestors == pre.graph.events[m].last_ancestors);
            if e < at {
                assert(self.graph.events[e].packed == pre.graph.events[e].packed);
                assert(pre.graph.is_parent(m, e));
                assert(pre.precedes(m, e));
                assert(self.graph.events[e].last_ancestors == pre.graph.events[e].last_ancestors);
            } else {
                pre.graph.lemma_position(m);
                assert(pre.event_wf(m));
                let hs = packed.self_parent.unwrap();
                let s = pre.graph.position(hs);
                assert(pre.event_wf(s));
                assert(pre.slot(s) == c) by {
                    pre.lemma_index_is_chain_length(packed);
                }
                assert forall|p: int| 0 <= p < self.peers() implies (
                #[trigger] self.graph.events[m].last_ancestors[p] matches Some(a) ==> (
                self.graph.events[e].last_ancestors[p] matches Some(b) && a <= b)) by {
                    if let Some(ho) = packed.other_parent {
                        let o = pre.graph.position(ho);
                        assert(pre.event_wf(o));
                    }
                }
            }
        }
    }

    /// An event that was there before an append has the same ancestors after it.
    pub proof fn lemma_append_keeps_ancestry(&self, pre: Parsec, packed: PackedEvent, f: int, e: int)
        requires
            self.append_ok(pre, packed),
            0 <= e < pre.graph.events.len(),
        ensures
            self.graph.is_ancestor(f, e) == pre.graph.is_ancestor(f, e),
    {
        assert forall|j: int| 0 <= j <= e implies (#[trigger] self.graph.events[j]).hash
            == pre.graph.events[j].hash && self.graph.events[j].packed
            == pre.graph.events[j].packed by {}
        self.graph.lemma_same_ancestry(&pre.graph, f, e);
    }

    /// After an append a first descendant is noted on every ancestor of
    /// every event, no later than the event.
    pub proof fn lemma_append_keeps_noted(&self, pre: Parsec, packed: PackedEvent)
        requires
            self.append_ok(pre, packed),
            self.parents_precede(),
            forall|i: int| 0 <= i < self.graph.events.len() ==> #[trigger] self.event_wf(i),
        ensures
            self.descendants_noted(),
    {
        self.lemma_append_slots(pre, packed);
        let at = pre.graph.events.len() as int;
        let c = pre.peer_manager.spec_slot_of(packed.creator);
        let index = pre.spec_index(packed) as u64;
        let la = pre.spec_last_ancestors(packed, c, index);
        assert forall|f: int, e: int| #[trigger] self.graph.is_ancestor(f, e) implies (
        self.graph.events[f].first_descendants[self.slot(e)] matches Some(d) && d
            <= self.graph.events[e].index) by {
            if e < at {
                self.lemma_append_keeps_ancestry(pre, packed, f, e);
                assert(pre.graph.is_ancestor(f, e));
                assert(pre.event_wf(e));
                assert(pre.event_wf(f));
                assert(self.slot(e) == pre.slot(e));
                assert(self.graph.events[e].index == pre.graph.events[e].index);
            } else if f == at {
                assert(self.slot(at) == c);
            } else {
                // An older ancestor of the new event: named by its last ancestors.
                self.lemma_ancestors_precede(f, e);
                assert(self.event_wf(f));
                assert(pre.event_wf(f));
                let sf = pre.slot(f);
                assert(self.slot(f) == sf);
                assert(self.graph.events[f].last_ancestors[sf] == Some(
                    self.graph.events[f].index,
                ));
                assert(la[sf] matches Some(a) && pre.graph.events[f].index <= a);
                if pre.graph.events[f].first_descendants[c].is_none() {
                    assert(pre.spec_touched(la, c, f));
                } else {
                    assert(pre.graph.events[f].first_descendants[c] matches Some(d) ==> d
                        < pre.peer_manager.chains[c].len());
                }
            }
        }
    }

    /// After an append every last ancestor named is an ancestor.
    pub proof fn lemma_append_keeps_naming(&self, pre: Parsec, packed: PackedEvent)
        requires
            self.append_ok(pre, packed),
        ensures
            self.names_ancestors(),
    {
        self.lemma_append_slots(pre, packed);
        let at = pre.graph.events.len() as int;
        let c = pre.peer_manager.spec_slot_of(packed.creator);
        let index = pre.spec_index(packed) as u64;
        pre.lemma_last_ancestors_bounded(packed, index);
        pre.peer_manager.lemma_slot_unique(c);
        assert forall|e: int, p: int|
            0 <= e < self.graph.events.len() && 0 <= p < self.peers() implies (
        #[trigger] self.graph.events[e].last_ancestors[p] matches Some(a) ==> exists|z: int|
            #[trigger] self.is_chain_event(z, p, a as int) && self.graph.is_ancestor(z, e)) by {
            if let Some(a) = self.graph.events[e].last_ancestors[p] {
                if e < at {
                    assert(self.graph.events[e].last_ancestors
                        == pre.graph.events[e].last_ancestors);
                    assert(pre.event_wf(e));
                    let z = choose|z: int|
                        #[trigger] pre.is_chain_event(z, p, a as int) && pre.graph.is_ancestor(z, e);
                    self.lemma_append_keeps_ancestry(pre, packed, z, e);
                    self.lemma_append_names_chain_event(pre, packed, z, p, a as int);
                } else if p == c {
                    assert(self.is_chain_event(at, c, index as int));
                    assert(self.graph.is_ancestor(at, at));
                } else {
                    // The entry comes from one of the parents.
                    let hs = packed.self_parent.unwrap();
                    let s = pre.graph.position(hs);
                    assert(pre.event_wf(s));
                    let from_other = packed.other_parent.is_some() && pre.graph.events[s].last_ancestors[p]
                        != Some(a);
                    let m = if from_other {
                        pre.graph.position(packed.other_parent.unwrap())
                    } else {
                        s
                    };
                    assert(pre.event_wf(m));
                    assert(pre.graph.events[m].last_ancestors[p] == Some(a));
                    let z = choose|z: int|
                        #[trigger] pre.is_chain_event(z, p, a as int) && pre.graph.is_ancestor(z, m);
                    self.lemma_append_keeps_ancestry(pre, packed, z, m);
                    self.lemma_append_names_chain_event(pre, packed, z, p, a as int);
                    assert(self.graph.events[m].hash == pre.graph.events[m].hash);
                    assert(self.graph.is_parent(m, at));
                    self.graph.lemma_parent_extends(z, m, at);
                }
            }
        }
    }

    /// An event that stood on a chain before an append stands there after it.
    pub proof fn lemma_append_names_chain_event(
        &self,
        pre: Parsec,
        packed: PackedEvent,
        z: int,
        p: int,
        k: int,
    )
        requires
            self.append_ok(pre, packed),
            0 <= p < pre.peers(),
            pre.is_chain_event(z, p, k),
            0 <= z < pre.graph.events.len(),
        ensures
            self.is_chain_event(z, p, k),
    {
        self.lemma_append_slots(pre, packed);
        let c = pre.peer_manager.spec_slot_of(packed.creator);
        assert(pre.event_wf(z));
        pre.peer_manager.lemma_slot_unique(p);
        assert(pre.slot(z) == p);
        assert(self.graph.events[z].hash == pre.graph.events[z].hash);
        if p != c {
            assert(self.peer_manager.chains[p] == pre.peer_manager.chains[p]);
        }
    }

    /// After an append the new event, noted as a first descendant on an
    /// older event, has that event among its ancestors.
    pub proof fn lemma_append_notes_descendant(&self, pre: Parsec, packed: PackedEvent, f: int)
        requires
            self.append_ok(pre, packed),
            self.chains_ok(),
            self.names_ancestors(),
            0 <= f < pre.graph.events.len(),
            pre.spec_touched(
                pre.spec_last_ancestors(
                    packed,
                    pre.peer_manager.spec_slot_of(packed.creator),
                    pre.spec_index(packed) as u64,
                ),
                pre.peer_manager.spec_slot_of(packed.creator),
                f,
            ),
        ensures
            self.graph.is_ancestor(f, pre.graph.events.len() as int),
    {
        self.lemma_append_slots(pre, packed);
        let at = pre.graph.events.len() as int;
        let c = pre.peer_manager.spec_slot_of(packed.creator);
        let index = pre.spec_index(packed) as u64;
        let la = pre.spec_last_ancestors(packed, c, index);
        let sf = pre.slot(f);
        let a = la[sf].unwrap();
        assert(self.graph.events[at].last_ancestors[sf] == Some(a));
        let z = choose|z: int|
            #[trigger] self.is_chain_event(z, sf, a as int) && self.graph.is_ancestor(z, at);
        assert(self.event_wf(f));
        assert(self.slot(f) == sf);
        pre.peer_manager.lemma_slot_unique(sf);
        assert(self.graph.events[z].packed.creator == self.graph.events[f].packed.creator);
        self.lemma_chain_is_ancestry(f, z);
        self.graph.lemma_ancestry_is_transitive(f, z, at);
    }

    /// After an append a first descendant noted on the event at `f` for the
    /// slot `q` is an event that has the event at `f` among its ancestors.
    pub proof fn lemma_append_descent_at(&self, pre: Parsec, packed: PackedEvent, f: int, q: int)
        requires
            self.append_ok(pre, packed),
            self.chains_ok(),
            self.names_ancestors(),
            0 <= f < self.graph.events.len(),
            0 <= q < self.peers(),
            self.graph.events[f].first_descendants[q].is_some(),
        ensures
            exists|z: int|
                #[trigger] self.is_chain_event(
                    z,
                    q,
                    self.graph.events[f].first_descendants[q].unwrap() as int,
                ) && self.graph.is_ancestor(f, z),
    {
        self.lemma_append_slots(pre, packed);
        let at = pre.graph.events.len() as int;
        let c = pre.peer_manager.spec_slot_of(packed.creator);
        let index = pre.spec_index(packed) as u64;
        let la = pre.spec_last_ancestors(packed, c, index);
        let d = self.graph.events[f].first_descendants[q].unwrap();
        pre.peer_manager.lemma_slot_unique(c);
        assert(self.is_chain_event(at, c, index as int));
        if f == at {
            let fresh = crate::metadata::spec_absent(pre.peers() as nat).update(c, Some(index));
            assert(self.graph.events[at].first_descendants@ == fresh);
            if q != c {
                assert(fresh[q].is_none());
            }
            assert(self.graph.is_ancestor(at, at));
        } else if pre.graph.events[f].first_descendants[q].is_some() {
            assert(pre.event_wf(f));
            assert(self.graph.events[f].first_descendants@ == pre.spec_descendants_after(
                la,
                c,
                index,
                f,
            ));
            assert(pre.graph.events[f].first_descendants[q] == Some(d));
            let z = choose|z: int|
                #[trigger] pre.is_chain_event(z, q, d as int) && pre.graph.is_ancestor(f, z);
            self.lemma_append_keeps_ancestry(pre, packed, f, z);
            self.lemma_append_names_chain_event(pre, packed, z, q, d as int);
        } else {
            assert(pre.event_wf(f));
            assert(self.graph.events[f].first_descendants@ == pre.spec_descendants_after(
                la,
                c,
                index,
                f,
            ));
            assert(pre.spec_touched(la, c, f));
            assert(q == c);
            self.lemma_append_notes_descendant(pre, packed, f);
        }
    }

    /// After an append every first descendant noted is a descendant.
    pub proof fn lemma_append_keeps_descent(&self, pre: Parsec, packed: PackedEvent)
        requires
            self.append_ok(pre, packed),
            self.chains_ok(),
            self.names_ancestors(),
        ensures
            self.names_descendants(),
    {
        assert forall|f: int, q: int|
            0 <= f < self.graph.events.len() && 0 <= q < self.peers() implies (
        #[trigger] self.graph.events[f].first_descendants[q] matches Some(d) ==> exists|z: int|
            #[trigger] self.is_chain_event(z, q, d as int) && self.graph.is_ancestor(f, z)) by {
            if self.graph.events[f].first_descendants[q].is_some() {
                self.lemma_append_descent_at(pre, packed, f, q);
            }
        }
    }

    /// After an append a valid block carried by the event at `e` is that of
    /// a vote among the event's ancestors.
    pub proof fn lemma_append_carries_vote(&self, pre: Parsec, packed: PackedEvent, e: int, k: int)
        requires
            self.append_ok(pre, packed),
            0 <= e < self.graph.events.len(),
            0 <= k < self.graph.events[e].valid_blocks_carried.len(),
        ensures
            exists|z: int|
                #[trigger] self.is_vote_ancestor(
                    z,
                    e,
                    self.graph.events[e].valid_blocks_carried[k],
                ),
    {
        self.lemma_append_slots(pre, packed);
        let at = pre.graph.events.len() as int;
        let h = self.graph.events[e].valid_blocks_carried[k];
        if e < at {
            assert(self.graph.events[e].valid_blocks_carried
                == pre.graph.events[e].valid_blocks_carried);
            assert(pre.has_vote_ancestor(e, pre.graph.events[e].valid_blocks_carried[k]));
            let z = choose|z: int|
                #[trigger] pre.is_vote_ancestor(z, e, pre.graph.events[e].valid_blocks_carried[k]);
            self.lemma_append_keeps_ancestry(pre, packed, z, e);
            assert(self.graph.events[z].hash == pre.graph.events[z].hash);
            assert(self.graph.events[z].packed == pre.graph.events[z].packed);
            assert(self.is_vote_ancestor(z, e, h));
        } else {
            assert(self.graph.events[at].valid_blocks_carried@.contains(h));
            assert(pre.spec_carries(packed, packed.spec_hash(), h));
            if pre.spec_makes_valid(packed) && h == packed.spec_hash() {
                assert(self.graph.is_ancestor(at, at));
                assert(self.is_vote_ancestor(at, at, h));
            } else {
                let from_self = packed.self_parent.is_some() && pre.graph.events[pre.graph.position(
                    packed.self_parent.unwrap(),
                )].valid_blocks_carried@.contains(h);
                let m = if from_self {
                    pre.graph.position(packed.self_parent.unwrap())
                } else {
                    pre.graph.position(packed.other_parent.unwrap())
                };
                assert(0 <= m < at);
                let carried = pre.graph.events[m].valid_blocks_carried;
                assert(carried@.contains(h));
                let t = choose|t: int| 0 <= t < carried@.len() && carried@[t] == h;
                assert(pre.has_vote_ancestor(m, carried[t]));
                let z = choose|z: int| #[trigger] pre.is_vote_ancestor(z, m, carried[t]);
                self.lemma_append_keeps_ancestry(pre, packed, z, m);
                pre.graph.lemma_position(m);
                assert(self.graph.events[m].hash == pre.graph.events[m].hash);
                assert(self.graph.is_parent(m, at));
                self.graph.lemma_parent_extends(z, m, at);
                assert(self.graph.events[z].hash == pre.graph.events[z].hash);
                assert(self.graph.events[z].packed == pre.graph.events[z].packed);
                assert(self.is_vote_ancestor(z, at, h));
            }
        }
    }

    /// An append keeps the driver's invariant.
    pub proof fn lemma_append_keeps_invariant(&self, pre: Parsec, packed: PackedEvent)
        requires
            self.append_ok(pre, packed),
        ensures
            self.wf(),
    {
        self.lemma_append_slots(pre, packed);
        let at = pre.graph.events.len() as int;
        assert forall|i: int| 0 <= i < self.graph.events.len() implies #[trigger] self.event_wf(
            i,
        ) by {
            if i < at {
                self.lemma_append_keeps_events(pre, packed, i);
            } else {
                self.lemma_append_forms_event(pre, packed);
            }
        }
        assert forall|i: int| 0 <= i < self.meta_votes.len() implies (
        #[trigger] self.meta_votes[i] matches Some(v) ==> v.len() == self.peers()) by {
            if i < at {
                assert(self.meta_votes[i] == pre.meta_votes[i]);
            }
        }
        assert forall|p: int, k: int|
            0 <= p < self.peers() && 0 <= k < self.peer_manager.chains[p].len()
                implies #[trigger] self.chain_wf(p, k) by {
            self.lemma_append_keeps_chains(pre, packed, p, k);
        }
        self.lemma_append_keeps_monotone(pre, packed);
        self.lemma_append_keeps_bounded(pre, packed);
        self.lemma_append_keeps_precedence(pre, packed);
        self.lemma_append_keeps_noted(pre, packed);
        self.lemma_append_keeps_naming(pre, packed);
        self.lemma_append_keeps_descent(pre, packed);
        assert(self.carries_votes()) by {
            assert forall|e: int, k: int|
                0 <= e < self.graph.events.len() && 0 <= k
                    < self.graph.events[e].valid_blocks_carried.len() implies #[trigger] self.has_vote_ancestor(
                e,
                self.graph.events[e].valid_blocks_carried[k],
            ) by {
                self.lemma_append_carries_vote(pre, packed, e, k);
            }
        }
        assert(self.round_hashes_wf()) by {
            assert(pre.round_hashes_wf());
            assert forall|p: int, r: int|
                0 <= p < self.peers() && 0 <= r < self.round_hashes[p].len() implies (
            #[trigger] self.round_hashes[p][r]).value == crate::round_hash::spec_round_hash(
                self.peer_manager.ids[p],
                r as nat,
            ) by {
                assert(self.peer_manager.ids[p] == pre.peer_manager.ids[p]);
            }
        }
    }
}

} // verus!
