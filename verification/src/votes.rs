//! Looking up the meta-votes that events hold: the latest one of a creator at
//! a given round and step, and how long an event has waited for a coin.

use vstd::prelude::*;
use crate::event::Payload;
use crate::meta_vote::{MetaVote, Step};
use crate::parsec::Parsec;

verus! {

/// The vote `v` stands at a later round or step than the given ones.
pub open spec fn spec_is_later(v: MetaVote, round: u32, step: Step) -> bool {
    v.round > round || (v.round == round && v.step.spec_number() > step.spec_number())
}

impl Parsec {
    /// The meta-vote about the peer at slot `peer` that the creator at slot
    /// `creator` holds at the given round and step, on its latest event with
    /// an index of `index` or less.
    ///
    /// The search goes down the creator's chain for as long as the votes
    /// found stand later than asked for; it ends without a result at an
    /// event that holds no meta-votes or stands earlier.
    pub open spec fn spec_most_recent_meta_vote(
        &self,
        creator: int,
        index: int,
        peer: int,
        round: u32,
        step: Step,
    ) -> Option<MetaVote>
        decreases index,
    {
        if index < 0 || index >= self.peer_manager.chains[creator].len() {
            None
        } else {
            match self.meta_votes[self.graph.position(self.peer_manager.chains[creator][index])] {
                None => None,
                Some(votes) => {
                    let v = votes[peer];
                    if v.round == round && v.step == step {
                        Some(v)
                    } else if spec_is_later(v, round, step) && index > 0 {
                        self.spec_most_recent_meta_vote(creator, index - 1, peer, round, step)
                    } else {
                        None
                    }
                },
            }
        }
    }

    /// The meta-votes about the peer at slot `peer`, at the given round and
    /// step, that the creators at the slots below `upto` hold on their latest
    /// events among the ancestors that `la` names: in the order of the slots,
    /// one for each creator that holds one.
    pub open spec fn spec_collect(
        &self,
        peer: int,
        round: u32,
        step: Step,
        la: Seq<Option<u64>>,
        upto: int,
    ) -> Seq<MetaVote>
        decreases upto,
    {
        if upto <= 0 {
            Seq::empty()
        } else {
            let rest = self.spec_collect(peer, round, step, la, upto - 1);
            match la[upto - 1] {
                Some(index) => match self.spec_most_recent_meta_vote(
                    upto - 1,
                    index as int,
                    peer,
                    round,
                    step,
                ) {
                    Some(v) => rest.push(v),
                    None => rest,
                },
                None => rest,
            }
        }
    }

    /// The place of the event reached from the event at `at` by going back
    /// along self-parents until `remaining` response events have been
    /// reached, the last of them being that event; `None` where the chain
    /// ends before.
    pub open spec fn spec_waited_at(&self, at: int, remaining: nat) -> Option<int>
        decreases at,
    {
        if remaining == 0 {
            Some(at)
        } else if at < 0 || at >= self.graph.events.len() {
            None
        } else {
            match self.graph.events[at].packed.self_parent {
                None => None,
                Some(hs) => {
                    let parent = self.graph.position(hs);
                    if 0 <= parent < at {
                        if self.graph.events[parent].packed.payload == Payload::Response {
                            self.spec_waited_at(parent, (remaining - 1) as nat)
                        } else {
                            self.spec_waited_at(parent, remaining)
                        }
                    } else {
                        None
                    }
                },
            }
        }
    }

    /// The event at `at` has waited long enough for the coin of the given
    /// round about the peer at slot `peer`: the event that lies as many
    /// response events back as the responsiveness threshold says awaited
    /// that coin already, with no estimate and one round on.
    pub open spec fn spec_stop_waiting(&self, peer: int, round: u32, at: int) -> bool {
        match self.spec_waited_at(at, self.responsiveness_threshold as nat) {
            None => false,
            Some(w) => match self.meta_votes[w] {
                None => false,
                Some(votes) => votes[peer].estimates.spec_is_empty() && votes[peer].round == round
                    + 1,
            },
        }
    }

    /// The meta-vote about the peer at slot `peer` that the creator at slot
    /// `creator` holds at the given round and step, on its latest event with
    /// an index of `index` or less.
    pub fn most_recent_meta_vote(
        &self,
        creator: usize,
        index: u64,
        peer: usize,
        round: u32,
        step: Step,
    ) -> (found: Option<MetaVote>)
        requires
            self.wf(),
            creator < self.peer_manager.ids.len(),
            peer < self.peer_manager.ids.len(),
        ensures
            found == self.spec_most_recent_meta_vote(
                creator as int,
                index as int,
                peer as int,
                round,
                step,
            ),
    {
        if index >= self.peer_manager.chains[creator].len() as u64 {
            return None;
        }
        let mut k: usize = index as usize;
        loop
            invariant
                self.wf(),
                creator < self.peer_manager.ids.len(),
                peer < self.peer_manager.ids.len(),
                k < self.peer_manager.chains[creator as int].len(),
                self.spec_most_recent_meta_vote(
                    creator as int,
                    index as int,
                    peer as int,
                    round,
                    step,
                ) == self.spec_most_recent_meta_vote(
                    creator as int,
                    k as int,
                    peer as int,
                    round,
                    step,
                ),
            decreases k,
        {
            let at = self.chain_event(creator, k);
            proof {
                self.graph.lemma_position(at as int);
            }
            match &self.meta_votes[at] {
                None => {
                    return None;
                },
                Some(votes) => {
                    let v = votes[peer];
                    if v.round == round && v.step.number() == step.number() {
                        return Some(v);
                    }
                    let later = v.round > round || (v.round == round && v.step.number()
                        > step.number());
                    if later && k > 0 {
                        k -= 1;
                    } else {
                        return None;
                    }
                },
            }
        }
    }

    /// The meta-votes about the peer at slot `peer`, at the given round and
    /// step, that the other creators hold on their latest events among the
    /// ancestors of the event at `at`: one for each creator that holds one.
    pub fn collect_other_meta_votes(&self, peer: usize, round: u32, step: Step, at: usize) -> (votes:
        Vec<MetaVote>)
        requires
            self.wf(),
            peer < self.peer_manager.ids.len(),
            at < self.graph.events.len(),
        ensures
            votes@ == self.spec_collect(
                peer as int,
                round,
                step,
                self.graph.events[at as int].last_ancestors@,
                self.peers(),
            ),
    {
        let n = self.peer_manager.len();
        let mut votes: Vec<MetaVote> = Vec::new();
        let mut creator: usize = 0;
        proof {
            assert(self.event_wf(at as int));
        }
        while creator < n
            invariant
                self.wf(),
                n == self.peer_manager.ids.len(),
                peer < n,
                at < self.graph.events.len(),
                self.graph.events[at as int].last_ancestors.len() == n,
                creator <= n,
                votes@ == self.spec_collect(
                    peer as int,
                    round,
                    step,
                    self.graph.events[at as int].last_ancestors@,
                    creator as int,
                ),
            decreases n - creator,
        {
            if let Some(index) = self.graph.events[at].last_ancestors[creator] {
                if let Some(v) = self.most_recent_meta_vote(creator, index, peer, round, step) {
                    votes.push(v);
                }
            }
            creator += 1;
        }
        votes
    }

    /// The value that the creator at slot `creator` put forward about the
    /// peer at slot `peer` in the third step of the given round, going by
    /// its latest event with an index of `index` or less.
    pub fn aux_value(&self, creator: usize, index: u64, peer: usize, round: u32) -> (aux: Option<
        bool,
    >)
        requires
            self.wf(),
            creator < self.peer_manager.ids.len(),
            peer < self.peer_manager.ids.len(),
        ensures
            aux == match self.spec_most_recent_meta_vote(
                creator as int,
                index as int,
                peer as int,
                round,
                Step::GenuineFlip,
            ) {
                Some(v) => v.aux_value,
                None => None,
            },
    {
        match self.most_recent_meta_vote(creator, index, peer, round, Step::GenuineFlip) {
            Some(v) => v.aux_value,
            None => None,
        }
    }

    /// Tells whether the event at `at` has waited long enough for the coin
    /// of the given round about the peer at slot `peer`.
    pub fn stop_waiting(&self, peer: usize, round: u32, at: usize) -> (yes: bool)
        requires
            self.wf(),
            peer < self.peer_manager.ids.len(),
            at < self.graph.events.len(),
        ensures
            yes == self.spec_stop_waiting(peer as int, round, at as int),
    {
        let mut remaining: usize = self.responsiveness_threshold;
        let mut cur: usize = at;
        while remaining > 0
            invariant
                self.wf(),
                cur < self.graph.events.len(),
                self.spec_waited_at(at as int, self.responsiveness_threshold as nat)
                    == self.spec_waited_at(cur as int, remaining as nat),
            decreases cur,
        {
            let ps = self.graph.parents_of(cur);
            match ps.0 {
                None => {
                    return false;
                },
                Some(parent) => {
                    proof {
                        self.graph.lemma_position(parent as int);
                    }
                    if self.graph.events[parent].packed.is_response() {
                        remaining -= 1;
                    }
                    cur = parent;
                },
            }
        }
        match &self.meta_votes[cur] {
            None => false,
            Some(votes) => votes[peer].estimates.is_empty() && votes[peer].round as u64 == round as u64
                + 1,
        }
    }
}

} // verus!
