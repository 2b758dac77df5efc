//! Setting a driver up for a peer and the group with which the network starts.

use vstd::prelude::*;
use crate::error::Error;
use crate::event::PackedEvent;
use crate::graph::Graph;
use crate::metadata::{ceil_log2, spec_ceil_log2};
use crate::parsec::Parsec;
use crate::peer_manager::{PeerId, PeerManager};
use crate::round_hash::RoundHash;

verus! {

impl Parsec {
    /// `self` is the driver of the peer `our_id` before its first event:
    /// the members are the peer and the genesis group, nothing has been
    /// recorded, and the responsiveness threshold is the logarithm to base 2,
    /// rounded up, of the number of distinct members of the genesis group.
    pub open spec fn blank(&self, our_id: PeerId, genesis_group: Seq<PeerId>) -> bool {
        &&& self.peer_manager.our_id == our_id
        &&& forall|id: PeerId|
            self.peer_manager.has_peer(id) <==> (id == our_id || genesis_group.contains(id))
        &&& forall|p: int|
            0 <= p < self.peer_manager.chains.len() ==> (
            #[trigger] self.peer_manager.chains[p]).len() == 0
        &&& self.graph.events.len() == 0
        &&& self.meta_votes.len() == 0
        &&& self.consensused_blocks.len() == 0
        &&& self.round_hashes.len() == self.peers()
        &&& forall|p: int|
            0 <= p < self.round_hashes.len() ==> (#[trigger] self.round_hashes[p]).len() == 0
        &&& self.responsiveness_threshold == spec_ceil_log2(genesis_group.to_set().len())
    }

    /// The peer list of `our_id` and the genesis group, without events, and
    /// the number of distinct members of the group.
    fn members(our_id: PeerId, genesis_group: &Vec<PeerId>) -> (out: (PeerManager, usize))
        ensures
            out.0.wf(),
            out.0.our_id == our_id,
            forall|id: PeerId|
                out.0.has_peer(id) <==> (id == our_id || genesis_group@.contains(id)),
            forall|p: int| 0 <= p < out.0.chains.len() ==> (#[trigger] out.0.chains[p]).len() == 0,
            out.1 == genesis_group@.to_set().len(),
    {
        let mut pm = PeerManager::new(our_id);
        let mut distinct: usize = 0;
        let mut seen_us: bool = false;
        let mut i: usize = 0;
        proof {
            assert(genesis_group@.take(0).to_set() =~= Set::<PeerId>::empty());
            assert forall|id: PeerId| pm.has_peer(id) <==> (id == our_id || genesis_group@.take(
                0,
            ).contains(id)) by {
                if pm.has_peer(id) {
                    let k = choose|k: int| 0 <= k < pm.ids.len() && pm.ids[k] == id;
                }
                if id == our_id {
                    assert(pm.ids[0] == id);
                }
            }
        }
        while i < genesis_group.len()
            invariant
                i <= genesis_group.len(),
                pm.wf(),
                pm.our_id == our_id,
                forall|id: PeerId|
                    pm.has_peer(id) <==> (id == our_id || genesis_group@.take(i as int).contains(
                        id,
                    )),
                forall|p: int| 0 <= p < pm.chains.len() ==> (#[trigger] pm.chains[p]).len() == 0,
                distinct <= i,
                distinct == genesis_group@.take(i as int).to_set().len(),
                seen_us == genesis_group@.take(i as int).contains(our_id),
            decreases genesis_group.len() - i,
        {
            let id = genesis_group[i];
            let ghost shorter = genesis_group@.take(i as int);
            let ghost longer = genesis_group@.take(i + 1);
            let ghost before = pm;
            proof {
                assert(longer == shorter.push(id));
                shorter.lemma_push_to_set_commute(id);
                vstd::seq_lib::seq_to_set_is_finite(shorter);
                assert(shorter.to_set().contains(id) == shorter.contains(id));
                assert forall|x: PeerId| longer.contains(x) <==> (shorter.contains(x) || x
                    == id) by {
                    if longer.contains(x) {
                        let k = choose|k: int| 0 <= k < longer.len() && longer[k] == x;
                        if k < i {
                            assert(shorter[k] == x);
                        }
                    }
                    if shorter.contains(x) {
                        let k = choose|k: int| 0 <= k < shorter.len() && shorter[k] == x;
                        assert(longer[k] == x);
                    }
                    if x == id {
                        assert(longer[i as int] == x);
                    }
                }
            }
            if pm.slot_of(id).is_none() {
                pm.add_peer(id);
                distinct += 1;
                proof {
                    let at = pm.spec_slot_of(id);
                    assert(!before.has_peer(id));
                    assert(pm.has_peer(id));
                    assert(0 <= at < pm.ids.len() && pm.ids[at] == id);
                    assert(pm.ids@ == before.ids@.insert(at, id));
                    assert(pm.chains@ == before.chains@.insert(at, pm.chains[at]));
                    assert forall|x: PeerId| pm.has_peer(x) <==> (before.has_peer(x) || x
                        == id) by {
                        if pm.has_peer(x) {
                            let k = choose|k: int| 0 <= k < pm.ids.len() && pm.ids[k] == x;
                            if k < at {
                                assert(before.ids[k] == x);
                            } else if k > at {
                                assert(before.ids[k - 1] == x);
                            }
                        }
                        if before.has_peer(x) {
                            let k = choose|k: int| 0 <= k < before.ids.len() && before.ids[k] == x;
                            if k < at {
                                assert(pm.ids[k] == x);
                            } else {
                                assert(pm.ids[k + 1] == x);
                            }
                        }
                    }
                    assert forall|p: int| 0 <= p < pm.chains.len() implies (
                    #[trigger] pm.chains[p]).len() == 0 by {
                        if p < at {
                            assert(pm.chains[p] == before.chains[p]);
                        } else if p > at {
                            assert(pm.chains[p] == before.chains[p - 1]);
                        }
                    }
                }
            } else if id == our_id && !seen_us {
                seen_us = true;
                distinct += 1;
            }
            i += 1;
        }
        proof {
            assert(genesis_group@.take(i as int) =~= genesis_group@);
        }
        (pm, distinct)
    }

    /// As many empty chains of round hashes as there are peers.
    fn no_round_hashes(n: usize) -> (out: Vec<Vec<RoundHash>>)
        ensures
            out.len() == n,
            forall|p: int| 0 <= p < n ==> (#[trigger] out[p]).len() == 0,
    {
        let mut out: Vec<Vec<RoundHash>> = Vec::new();
        let mut p: usize = 0;
        while p < n
            invariant
                p <= n,
                out.len() == p,
                forall|q: int| 0 <= q < p ==> (#[trigger] out[q]).len() == 0,
            decreases n - p,
        {
            out.push(Vec::new());
            p += 1;
        }
        out
    }

    /// The driver of the peer `our_id` in a network that starts with the
    /// peers `genesis_group`: a blank driver to which the first event of
    /// `our_id` has been added.
    pub fn new(our_id: PeerId, genesis_group: &Vec<PeerId>) -> (res: Result<Parsec, Error>)
        ensures
            match res {
                Ok(parsec) => parsec.wf() && exists|base: Parsec|
                    #[trigger] base.blank(our_id, genesis_group@) && base.wf() && parsec.added(
                        base,
                        PackedEvent {
                            creator: our_id,
                            self_parent: None,
                            other_parent: None,
                            payload: crate::event::Payload::Empty,
                        },
                        Ok(()),
                    ),
                Err(_) => false,
            },
    {
        let (peer_manager, distinct) = Parsec::members(our_id, genesis_group);
        let n = peer_manager.len();
        let mut parsec = Parsec {
            peer_manager,
            graph: Graph::new(),
            consensused_blocks: Vec::new(),
            meta_votes: Vec::new(),
            round_hashes: Parsec::no_round_hashes(n),
            responsiveness_threshold: ceil_log2(distinct),
        };
        let ghost base = parsec;
        proof {
            assert(base.blank(our_id, genesis_group@));
            assert(base.wf());
        }
        let initial = PackedEvent::new_initial(our_id);
        match parsec.add_event(initial) {
            Ok(_) => Ok(parsec),
            Err(e) => {
                proof {
                    assert(!base.graph.contains(initial.spec_hash()));
                    assert(base.spec_refusal(initial).is_none());
                    assert(false);
                }
                Err(e)
            },
        }
    }
}

} // verus!
