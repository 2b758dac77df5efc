//! Stable blocks: when the agreements held by our latest event are all
//! decided, the payload they elect becomes a block.

use vstd::prelude::*;
use crate::block::Block;
use crate::meta_vote::MetaVote;
use crate::parsec::Parsec;
use crate::peer_manager::{spec_is_super_majority, PeerId};

verus! {

impl Parsec {
    /// The peer at slot `slot` has created an event that votes for `payload`.
    pub open spec fn spec_has_voted(&self, slot: int, payload: u64) -> bool {
        exists|i: int|
            0 <= i < self.graph.events.len() && (#[trigger] self.graph.events[i]).packed.creator
                == self.peer_manager.ids[slot] && self.graph.events[i].packed.spec_vote() == Some(
                payload,
            )
    }

    /// The ids of the peers at the slots below `upto` that have voted for
    /// `payload`, ascending.
    pub open spec fn spec_voters(&self, payload: u64, upto: int) -> Seq<PeerId>
        decreases upto,
    {
        if upto <= 0 {
            Seq::empty()
        } else {
            let rest = self.spec_voters(payload, upto - 1);
            if self.spec_has_voted(upto - 1, payload) {
                rest.push(self.peer_manager.ids[upto - 1])
            } else {
                rest
            }
        }
    }

    /// The meta-votes that our latest event holds, where each of them is decided.
    pub open spec fn spec_decided_votes(&self) -> Option<Seq<MetaVote>> {
        let chain = self.peer_manager.chains[self.peer_manager.spec_slot_of(
            self.peer_manager.our_id,
        )]@;
        if chain.len() == 0 {
            None
        } else {
            match self.meta_votes[self.graph.position(chain.last())] {
                None => None,
                Some(votes) => if forall|p: int|
                    0 <= p < votes.len() ==> (#[trigger] votes[p]).decision.is_some() {
                    Some(votes@)
                } else {
                    None
                },
            }
        }
    }

    /// A block for `payload` with the voters `voters` is due: the
    /// agreements that our latest event holds are all decided, `payload`
    /// wins among the events they elect, and the peers that voted for it
    /// anywhere in the graph, which are `voters`, are a super-majority.
    pub open spec fn spec_stable_block(&self, payload: u64, voters: Seq<PeerId>) -> bool {
        &&& self.spec_decided_votes() matches Some(votes) && self.spec_is_winner(
            self.spec_elected(votes, self.peers()),
            Some(payload),
        )
        &&& voters == self.spec_voters(payload, self.peers())
        &&& spec_is_super_majority(voters.len(), self.peers() as nat)
    }

    /// Tells whether the peer at slot `slot` has created an event that votes
    /// for `payload`.
    pub fn has_voted(&self, slot: usize, payload: u64) -> (yes: bool)
        requires
            slot < self.peer_manager.ids.len(),
        ensures
            yes == self.spec_has_voted(slot as int, payload),
    {
        let id = self.peer_manager.ids[slot];
        let mut i: usize = 0;
        while i < self.graph.events.len()
            invariant
                slot < self.peer_manager.ids.len(),
                id == self.peer_manager.ids[slot as int],
                i <= self.graph.events.len(),
                forall|j: int|
                    0 <= j < i ==> !((#[trigger] self.graph.events[j]).packed.creator == id
                        && self.graph.events[j].packed.spec_vote() == Some(payload)),
            decreases self.graph.events.len() - i,
        {
            if self.graph.events[i].packed.creator == id {
                if let Some(v) = self.graph.events[i].packed.vote() {
                    if v == payload {
                        return true;
                    }
                }
            }
            i += 1;
        }
        false
    }

    /// The ids of the peers that have voted for `payload`, ascending.
    pub fn voters(&self, payload: u64) -> (ids: Vec<PeerId>)
        requires
            self.wf(),
        ensures
            ids@ == self.spec_voters(payload, self.peers()),
            forall|i: int, j: int| 0 <= i < j < ids.len() ==> ids[i] < ids[j],
    {
        let n = self.peer_manager.len();
        let mut ids: Vec<PeerId> = Vec::new();
        let mut p: usize = 0;
        while p < n
            invariant
                self.wf(),
                n == self.peer_manager.ids.len(),
                p <= n,
                ids@ == self.spec_voters(payload, p as int),
                forall|i: int, j: int| 0 <= i < j < ids.len() ==> ids[i] < ids[j],
                forall|i: int, q: int|
                    0 <= i < ids.len() && p <= q < n ==> ids[i] < self.peer_manager.ids[q],
            decreases n - p,
        {
            if self.has_voted(p, payload) {
                ids.push(self.peer_manager.ids[p]);
            }
            p += 1;
        }
        ids
    }

    /// The meta-votes that our latest event holds, where each of them is decided.
    pub fn decided_votes(&self) -> (votes: Option<&Vec<MetaVote>>)
        requires
            self.wf(),
        ensures
            match votes {
                Some(vs) => self.spec_decided_votes() == Some(vs@) && vs.len() == self.peers(),
                None => self.spec_decided_votes().is_none(),
            },
    {
        let us = match self.peer_manager.slot_of(self.peer_manager.our_id) {
            Some(us) => us,
            None => {
                proof {
                    assert(false);
                }
                0
            },
        };
        let latest = match self.last_event(us) {
            Some(at) => at,
            None => {
                return None;
            },
        };
        proof {
            self.graph.lemma_position(latest as int);
        }
        match &self.meta_votes[latest] {
            None => None,
            Some(vs) => {
                let mut p: usize = 0;
                let mut all: bool = true;
                while p < vs.len() && all
                    invariant
                        p <= vs.len(),
                        all ==> forall|q: int| 0 <= q < p ==> (#[trigger] vs[q]).decision.is_some(),
                        !all ==> exists|q: int|
                            0 <= q < vs.len() && (#[trigger] vs[q]).decision.is_none(),
                    decreases vs.len() - p,
                {
                    if vs[p].decision.is_none() {
                        all = false;
                    }
                    p += 1;
                }
                if all {
                    Some(vs)
                } else {
                    None
                }
            },
        }
    }

    /// The block that is due, if one is.
    pub fn next_stable_block(&self) -> (block: Option<Block>)
        requires
            self.wf(),
        ensures
            match block {
                Some(b) => self.spec_stable_block(b.payload, b.voters@) && b.attested(
                    self.peers() as nat,
                ),
                None => forall|payload: u64, voters: Seq<PeerId>|
                    !self.spec_stable_block(payload, voters),
            },
    {
        let votes = match self.decided_votes() {
            Some(vs) => vs,
            None => {
                return None;
            },
        };
        let elected = self.elected_events(votes);
        let won = match self.winner(&elected) {
            Some(w) => w,
            None => {
                return None;
            },
        };
        proof {
            assert forall|payload: u64| self.spec_is_winner(elected@, Some(payload)) implies won
                == Some(payload) by {
                self.lemma_winner_unique(elected@, won, Some(payload));
            }
        }
        let payload = match won {
            Some(payload) => payload,
            None => {
                return None;
            },
        };
        let voters = self.voters(payload);
        match Block::new(payload, voters, self.peer_manager.len()) {
            Ok(block) => Some(block),
            Err(_) => None,
        }
    }
}

} // verus!
