//! The common coin: the peers ranked by the distance of their ids' digests
//! from a round hash, and the value that the first of them put forward.

use vstd::prelude::*;
use crate::hash::{spec_xor_distance, xor_distance, Digest};
use crate::meta_vote::{MetaVote, Step};
use crate::parsec::Parsec;
use crate::round_hash::{peer_hash, spec_peer_hash};

verus! {

/// The round whose coin a vote asks for: the round before where it awaits a
/// toss, its own round where it stands at the third step, and none otherwise.
pub open spec fn spec_coin_round(vote: MetaVote) -> Option<u32> {
    if vote.estimates.spec_is_empty() {
        if vote.round > 0 {
            Some((vote.round - 1) as u32)
        } else {
            None
        }
    } else if vote.step == Step::GenuineFlip {
        Some(vote.round)
    } else {
        None
    }
}

/// The round whose coin a vote asks for.
pub fn coin_round(vote: &MetaVote) -> (round: Option<u32>)
    ensures
        round == spec_coin_round(*vote),
{
    if vote.estimates.is_empty() {
        if vote.round > 0 {
            Some(vote.round - 1)
        } else {
            None
        }
    } else {
        match vote.step {
            Step::GenuineFlip => Some(vote.round),
            _ => None,
        }
    }
}

impl Parsec {
    /// The distance of the peer at slot `p` from `target`.
    pub open spec fn spec_distance(&self, target: Digest, p: int) -> u64 {
        spec_xor_distance(target, spec_peer_hash(self.peer_manager.ids[p]))
    }

    /// The peer at slot `p` ranks before the one at slot `q`: it is closer
    /// to `target`, or as close and at a lesser slot.
    pub open spec fn spec_ranks_before(&self, target: Digest, p: int, q: int) -> bool {
        self.spec_distance(target, p) < self.spec_distance(target, q) || (self.spec_distance(
            target,
            p,
        ) == self.spec_distance(target, q) && p < q)
    }

    /// `order` holds the slots of the first `count` peers, all of them,
    /// each ranking before the next.
    pub open spec fn spec_is_ranking_of(&self, target: Digest, order: Seq<usize>, count: int) -> bool {
        &&& order.len() == count
        &&& forall|i: int| 0 <= i < order.len() ==> #[trigger] order[i] < count
        &&& forall|p: usize| p < count ==> order.contains(p)
        &&& forall|i: int, j: int|
            0 <= i < j < order.len() ==> self.spec_ranks_before(
                target,
                order[i] as int,
                order[j] as int,
            )
    }

    /// `order` is the ranking of all peers by their distance from `target`:
    /// it holds the slot of every peer, each ranking before the next.
    pub open spec fn spec_is_ranking(&self, target: Digest, order: Seq<usize>) -> bool {
        self.spec_is_ranking_of(target, order, self.peers())
    }

    /// The value that the peer at slot `leader` put forward about the peer at
    /// slot `peer` in the third step of the given round, as far as an event
    /// with the last ancestors `la` can tell.
    pub open spec fn spec_leader_value(
        &self,
        peer: int,
        round: u32,
        la: Seq<Option<u64>>,
        leader: int,
    ) -> Option<bool> {
        match la[leader] {
            Some(index) => match self.spec_most_recent_meta_vote(
                leader,
                index as int,
                peer,
                round,
                Step::GenuineFlip,
            ) {
                Some(v) => v.aux_value,
                None => None,
            },
            None => None,
        }
    }

    /// The first value that a leader from the place `from` of `order` on put forward.
    pub open spec fn spec_first_value(
        &self,
        peer: int,
        round: u32,
        la: Seq<Option<u64>>,
        order: Seq<usize>,
        from: int,
    ) -> Option<bool>
        decreases order.len() - from,
    {
        if from < 0 || from >= order.len() {
            None
        } else {
            match self.spec_leader_value(peer, round, la, order[from] as int) {
                Some(value) => Some(value),
                None => self.spec_first_value(peer, round, la, order, from + 1),
            }
        }
    }

    /// The coin of the given round about the peer at slot `peer`, as the
    /// event at `at` sees it with the leaders in the order `order`: the value
    /// of the first leader; where it has none and the event has waited long
    /// enough, the first value of a later leader; else none.
    pub open spec fn spec_coin_from(&self, peer: int, round: u32, at: int, order: Seq<usize>) -> Option<
        bool,
    > {
        let la = self.graph.events[at].last_ancestors@;
        match self.spec_leader_value(peer, round, la, order[0] as int) {
            Some(value) => Some(value),
            None => if self.spec_stop_waiting(peer, round, at) {
                self.spec_first_value(peer, round, la, order, 1)
            } else {
                None
            },
        }
    }

    /// `toss` is the coin toss for the vote `parent_vote` about the peer at
    /// slot `peer`, as the event at `at` sees it.
    ///
    /// There is none where the vote asks for no coin or the peer's round
    /// hash for that round is not kept. Else the peers are ranked by their
    /// distance from that round hash, and the toss is the value of the first
    /// leader or, after the wait, of the first later leader that has one.
    pub open spec fn spec_is_toss(
        &self,
        peer: int,
        parent_vote: MetaVote,
        at: int,
        toss: Option<bool>,
    ) -> bool {
        match spec_coin_round(parent_vote) {
            Some(round) => if round < self.round_hashes[peer].len() {
                exists|order: Seq<usize>|
                    self.spec_is_ranking(self.round_hashes[peer][round as int].value, order)
                        && toss == self.spec_coin_from(peer, round, at, order)
            } else {
                toss.is_none()
            },
            None => toss.is_none(),
        }
    }

    /// The peers have one ranking only.
    pub proof fn lemma_ranking_unique(&self, target: Digest, first: Seq<usize>, second: Seq<usize>)
        requires
            self.spec_is_ranking(target, first),
            self.spec_is_ranking(target, second),
        ensures
            first == second,
    {
        assert forall|i: int| 0 <= i < first.len() implies first[i] == second[i] by {
            self.lemma_ranking_agrees(target, first, second, i);
        }
        assert(first =~= second);
    }

    /// Two rankings of the peers agree at every place.
    pub proof fn lemma_ranking_agrees(
        &self,
        target: Digest,
        first: Seq<usize>,
        second: Seq<usize>,
        i: int,
    )
        requires
            self.spec_is_ranking(target, first),
            self.spec_is_ranking(target, second),
            0 <= i < first.len(),
        ensures
            first[i] == second[i],
        decreases i,
    {
        let a = first[i];
        let b = second[i];
        if a != b {
            // Each of the two stands in the other ranking, and not before `i`.
            assert(second.contains(a));
            let j = choose|j: int| 0 <= j < second.len() && second[j] == a;
            assert(first.contains(b));
            let k = choose|k: int| 0 <= k < first.len() && first[k] == b;
            if j < i {
                self.lemma_ranking_agrees(target, first, second, j);
                assert(self.spec_ranks_before(target, first[j] as int, first[i] as int));
            }
            if k < i {
                self.lemma_ranking_agrees(target, first, second, k);
                assert(self.spec_ranks_before(target, second[k] as int, second[i] as int));
            }
            // So each ranks before the other, which cannot be.
            assert(self.spec_ranks_before(target, second[i] as int, second[j] as int));
            assert(self.spec_ranks_before(target, first[i] as int, first[k] as int));
        }
    }

    /// The ranking of all peers by their distance from `target`.
    pub fn leaders(&self, target: Digest) -> (order: Vec<usize>)
        ensures
            self.spec_is_ranking(target, order@),
    {
        let n = self.peer_manager.ids.len();
        let mut order: Vec<usize> = Vec::new();
        let mut p: usize = 0;
        while p < n
            invariant
                n == self.peer_manager.ids.len(),
                p <= n,
                self.spec_is_ranking_of(target, order@, p as int),
            decreases n - p,
        {
            let d = xor_distance(target, peer_hash(self.peer_manager.ids[p]));
            let mut at: usize = 0;
            while at < order.len() && xor_distance(
                target,
                peer_hash(self.peer_manager.ids[order[at]]),
            ) <= d
                invariant
                    n == self.peer_manager.ids.len(),
                    p < n,
                    d == self.spec_distance(target, p as int),
                    self.spec_is_ranking_of(target, order@, p as int),
                    at <= order.len(),
                    forall|i: int|
                        0 <= i < at ==> self.spec_ranks_before(target, order[i] as int, p as int),
                decreases order.len() - at,
            {
                at += 1;
            }
            let ghost before = order@;
            order.insert(at, p);
            proof {
                assert(order@ == before.insert(at as int, p));
                assert forall|q: usize| q < p + 1 implies order@.contains(q) by {
                    if q < p {
                        assert(before.contains(q));
                        let k = choose|k: int| 0 <= k < before.len() && before[k] == q;
                        if k < at {
                            assert(order@[k] == q);
                        } else {
                            assert(order@[k + 1] == q);
                        }
                    } else {
                        assert(order@[at as int] == q);
                    }
                }
                assert forall|i: int| 0 <= i < order.len() implies #[trigger] order[i] < p + 1 by {
                    if i < at {
                        assert(before[i] < p);
                    } else if i > at {
                        assert(before[i - 1] < p);
                    }
                }
                assert forall|i: int, j: int| 0 <= i < j < order.len() implies self.spec_ranks_before(
                    target,
                    order[i] as int,
                    order[j] as int,
                ) by {
                    let oi = if i < at { i } else { i - 1 };
                    let oj = if j < at { j } else { j - 1 };
                    if i != at && j != at {
                        assert(self.spec_ranks_before(
                            target,
                            before[oi] as int,
                            before[oj] as int,
                        ));
                    } else if i == at {
                        // What follows the place found is farther than the new slot.
                        assert(before[oj] < p);
                        if oj > at {
                            assert(self.spec_ranks_before(
                                target,
                                before[at as int] as int,
                                before[oj] as int,
                            ));
                        }
                    }
                }
            }
            p += 1;
        }
        order
    }

    /// The value that the leader at slot `leader` put forward, as far as the
    /// event at `at` can tell.
    pub fn leader_value(&self, peer: usize, round: u32, at: usize, leader: usize) -> (value: Option<
        bool,
    >)
        requires
            self.wf(),
            peer < self.peer_manager.ids.len(),
            leader < self.peer_manager.ids.len(),
            at < self.graph.events.len(),
        ensures
            value == self.spec_leader_value(
                peer as int,
                round,
                self.graph.events[at as int].last_ancestors@,
                leader as int,
            ),
    {
        proof {
            assert(self.event_wf(at as int));
        }
        match self.graph.events[at].last_ancestors[leader] {
            Some(index) => self.aux_value(leader, index, peer, round),
            None => None,
        }
    }

    /// The coin of the given round about the peer at slot `peer`, as the
    /// event at `at` sees it with the leaders in the order `order`.
    pub fn coin_from(&self, peer: usize, round: u32, at: usize, order: &Vec<usize>) -> (toss: Option<
        bool,
    >)
        requires
            self.wf(),
            peer < self.peer_manager.ids.len(),
            at < self.graph.events.len(),
            order.len() > 0,
            forall|i: int| 0 <= i < order.len() ==> order[i] < self.peer_manager.ids.len(),
        ensures
            toss == self.spec_coin_from(peer as int, round, at as int, order@),
    {
        if let Some(value) = self.leader_value(peer, round, at, order[0]) {
            return Some(value);
        }
        if !self.stop_waiting(peer, round, at) {
            return None;
        }
        let ghost la = self.graph.events[at as int].last_ancestors@;
        let mut i: usize = 1;
        while i < order.len()
            invariant
                self.wf(),
                peer < self.peer_manager.ids.len(),
                at < self.graph.events.len(),
                la == self.graph.events[at as int].last_ancestors@,
                1 <= i <= order.len(),
                forall|j: int| 0 <= j < order.len() ==> order[j] < self.peer_manager.ids.len(),
                self.spec_leader_value(peer as int, round, la, order[0] as int).is_none(),
                self.spec_stop_waiting(peer as int, round, at as int),
                self.spec_first_value(peer as int, round, la, order@, 1) == self.spec_first_value(
                    peer as int,
                    round,
                    la,
                    order@,
                    i as int,
                ),
            decreases order.len() - i,
        {
            if let Some(value) = self.leader_value(peer, round, at, order[i]) {
                proof {
                    assert(self.spec_first_value(peer as int, round, la, order@, i as int) == Some(
                        value,
                    ));
                }
                return Some(value);
            }
            i += 1;
        }
        None
    }

    /// The coin toss for the vote `parent_vote` about the peer at slot
    /// `peer`, as the event at `at` sees it.
    pub fn toss_coin(&self, peer: usize, parent_vote: &MetaVote, at: usize) -> (toss: Option<bool>)
        requires
            self.wf(),
            peer < self.peer_manager.ids.len(),
            at < self.graph.events.len(),
        ensures
            self.spec_is_toss(peer as int, *parent_vote, at as int, toss),
    {
        let round = match coin_round(parent_vote) {
            Some(round) => round,
            None => {
                return None;
            },
        };
        if round as u64 >= self.round_hashes[peer].len() as u64 {
            return None;
        }
        let target = self.round_hashes[peer][round as usize].value();
        let order = self.leaders(target);
        proof {
            let ours = self.peer_manager.spec_slot_of(self.peer_manager.our_id);
            assert(0 <= ours < self.peer_manager.ids.len());
        }
        self.coin_from(peer, round, at, &order)
    }
}

} // verus!
