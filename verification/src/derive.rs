//! Deriving the meta-votes of an event from its self-parent's, or opening
//! the agreements where the event is an observer.

use vstd::prelude::*;
use crate::meta_vote::{spec_new, spec_next, MetaVote, Step};
use crate::parsec::Parsec;
use crate::peer_manager::{is_super_majority_of, spec_is_super_majority};
use crate::round_hash::{spec_round_hash, RoundHash};
use crate::tally::count_below;

verus! {

impl Parsec {
    /// The event at `at` is an observer: a super-majority of the peers are
    /// among its observations.
    pub open spec fn spec_is_observer(&self, at: int) -> bool {
        spec_is_super_majority(
            count_below(self.peers() as nat, |p: int| self.graph.events[at].observations[p]),
            self.peers() as nat,
        )
    }

    /// The votes of other creators that enter the vote derived from
    /// `parent_vote`: none while it awaits a coin toss, else those at its
    /// round and step.
    pub open spec fn spec_others(&self, at: int, peer: int, parent_vote: MetaVote) -> Seq<MetaVote> {
        if parent_vote.estimates.spec_is_empty() {
            Seq::empty()
        } else {
            self.spec_collect(
                peer,
                parent_vote.round,
                parent_vote.step,
                self.graph.events[at].last_ancestors@,
                self.peers(),
            )
        }
    }

    /// `v` is the vote about the peer at slot `peer` that the event at `at`
    /// derives from its self-parent's vote `parent_vote`.
    pub open spec fn spec_follows(&self, at: int, peer: int, parent_vote: MetaVote, v: MetaVote) -> bool {
        exists|toss: Option<bool>|
            #[trigger] self.spec_is_toss(peer, parent_vote, at, toss) && v == spec_next(
                parent_vote,
                self.spec_others(at, peer, parent_vote),
                toss,
                self.peers() as nat,
            )
    }

    /// The vote about the peer at slot `peer` with which the observer at
    /// `at` opens the agreement: its estimate is whether the peer is among
    /// the event's observations.
    pub open spec fn spec_opening(&self, at: int, peer: int) -> MetaVote {
        spec_new(
            self.graph.events[at].observations[peer],
            self.spec_collect(
                peer,
                0,
                Step::ForcedTrue,
                self.graph.events[at].last_ancestors@,
                self.peers(),
            ),
            self.peers() as nat,
        )
    }

    /// `votes` are the meta-votes of the event at `at`: derived from its
    /// self-parent's where that holds some; else opened where the event is an
    /// observer; else none.
    pub open spec fn spec_meta_votes_of(&self, at: int, votes: Option<Seq<MetaVote>>) -> bool {
        if self.spec_in_round(self.graph.events[at].packed) {
            let parent = self.graph.position(self.graph.events[at].packed.self_parent.unwrap());
            let parent_votes = self.meta_votes[parent].unwrap();
            &&& votes matches Some(vs)
            &&& vs.len() == self.peers()
            &&& forall|p: int|
                0 <= p < self.peers() ==> self.spec_follows(at, p, parent_votes[p], #[trigger] vs[p])
        } else if self.spec_is_observer(at) {
            &&& votes matches Some(vs)
            &&& vs.len() == self.peers()
            &&& forall|p: int| 0 <= p < self.peers() ==> #[trigger] vs[p] == self.spec_opening(at, p)
        } else {
            votes.is_none()
        }
    }

    /// Tells whether the event at `at` is an observer.
    pub fn is_observer(&self, at: usize) -> (yes: bool)
        requires
            self.wf(),
            at < self.graph.events.len(),
        ensures
            yes == self.spec_is_observer(at as int),
    {
        proof {
            assert(self.event_wf(at as int));
        }
        let n = self.peer_manager.len();
        let mut count: usize = 0;
        let mut p: usize = 0;
        while p < n
            invariant
                n == self.peer_manager.ids.len(),
                at < self.graph.events.len(),
                self.graph.events[at as int].observations.len() == n,
                p <= n,
                count <= p,
                count == count_below(
                    p as nat,
                    |q: int| self.graph.events[at as int].observations[q],
                ),
            decreases n - p,
        {
            if self.graph.events[at].observations[p] {
                count += 1;
            }
            p += 1;
        }
        is_super_majority_of(count, n)
    }

    /// The meta-votes of the event at `at`, from the state as it stands.
    pub fn derive_meta_votes(&self, at: usize) -> (votes: Option<Vec<MetaVote>>)
        requires
            self.wf(),
            at < self.graph.events.len(),
        ensures
            self.spec_meta_votes_of(
                at as int,
                match votes {
                    Some(vs) => Some(vs@),
                    None => None,
                },
            ),
    {
        let n = self.peer_manager.len();
        proof {
            assert(self.event_wf(at as int));
        }
        let parent: Option<usize> = match self.graph.events[at].packed.self_parent {
            Some(hs) => self.graph.find(hs),
            None => None,
        };
        let parent_votes: Option<&Vec<MetaVote>> = match parent {
            Some(sp) => match &self.meta_votes[sp] {
                Some(pv) => Some(pv),
                None => None,
            },
            None => None,
        };
        match parent_votes {
            Some(pv) => {
                let mut vs: Vec<MetaVote> = Vec::new();
                let mut p: usize = 0;
                while p < n
                    invariant
                        self.wf(),
                        n == self.peer_manager.ids.len(),
                        at < self.graph.events.len(),
                        pv.len() == n,
                        p <= n,
                        vs.len() == p,
                        forall|q: int|
                            0 <= q < p ==> self.spec_follows(at as int, q, pv[q], #[trigger] vs[q]),
                    decreases n - p,
                {
                    let toss = self.toss_coin(p, &pv[p], at);
                    let others = if pv[p].estimates.is_empty() {
                        Vec::new()
                    } else {
                        self.collect_other_meta_votes(p, pv[p].round, pv[p].step, at)
                    };
                    proof {
                        assert(others@ =~= self.spec_others(at as int, p as int, pv[p as int]));
                    }
                    let v = MetaVote::next(&pv[p], &others, toss, n);
                    vs.push(v);
                    p += 1;
                }
                Some(vs)
            },
            None => {
                if self.is_observer(at) {
                    let mut vs: Vec<MetaVote> = Vec::new();
                    let mut p: usize = 0;
                    while p < n
                        invariant
                            self.wf(),
                            n == self.peer_manager.ids.len(),
                            at < self.graph.events.len(),
                            self.graph.events[at as int].observations.len() == n,
                            p <= n,
                            vs.len() == p,
                            forall|q: int|
                                0 <= q < p ==> #[trigger] vs[q] == self.spec_opening(at as int, q),
                        decreases n - p,
                    {
                        let others = self.collect_other_meta_votes(p, 0, Step::ForcedTrue, at);
                        let v = MetaVote::new(self.graph.events[at].observations[p], &others, n);
                        vs.push(v);
                        p += 1;
                    }
                    Some(vs)
                } else {
                    None
                }
            },
        }
    }

    /// Extends the round hashes kept for the peer at slot `p` up to the
    /// given round; those kept already stay.
    pub fn grow_round_hashes(&mut self, p: usize, round: u32)
        requires
            old(self).wf(),
            p < old(self).peer_manager.ids.len(),
        ensures
            final(self).wf(),
            *final(self) == (Parsec { round_hashes: final(self).round_hashes, ..*old(self) }),
            final(self).round_hashes.len() == old(self).round_hashes.len(),
            forall|q: int|
                0 <= q < old(self).round_hashes.len() && q != p
                    ==> #[trigger] final(self).round_hashes[q] == old(self).round_hashes[q],
            final(self).round_hashes[p as int].len() == if old(self).round_hashes[p as int].len()
                > round {
                old(self).round_hashes[p as int].len() as int
            } else {
                round + 1
            },
    {
        while (self.round_hashes[p].len() as u64) < round as u64 + 1
            invariant
                self.wf(),
                p < self.peer_manager.ids.len(),
                *self == (Parsec { round_hashes: self.round_hashes, ..*old(self) }),
                self.round_hashes.len() == old(self).round_hashes.len(),
                forall|q: int|
                    0 <= q < old(self).round_hashes.len() && q != p
                        ==> #[trigger] self.round_hashes[q] == old(self).round_hashes[q],
                self.round_hashes[p as int].len() >= old(self).round_hashes[p as int].len(),
                self.round_hashes[p as int].len() > old(self).round_hashes[p as int].len()
                    ==> self.round_hashes[p as int].len() <= round + 1,
            decreases round + 1 - self.round_hashes[p as int].len(),
        {
            let ghost before = *self;
            let len = self.round_hashes[p].len();
            let link = if len == 0 {
                RoundHash::new(self.peer_manager.ids[p])
            } else {
                self.round_hashes[p][len - 1].next()
            };
            proof {
                if len > 0 {
                    assert(self.round_hashes[p as int][len - 1].value == spec_round_hash(
                        self.peer_manager.ids[p as int],
                        (len - 1) as nat,
                    ));
                }
                assert(link.value == spec_round_hash(self.peer_manager.ids[p as int], len as nat));
            }
            self.round_hashes[p].push(link);
            proof {
                assert forall|q: int, r: int|
                    0 <= q < self.peers() && 0 <= r < self.round_hashes[q].len() implies (
                #[trigger] self.round_hashes[q][r]).value == spec_round_hash(
                    self.peer_manager.ids[q],
                    r as nat,
                ) by {
                    if q != p {
                        assert(self.round_hashes[q] == before.round_hashes[q]);
                        assert(before.round_hashes[q][r].value == spec_round_hash(
                            before.peer_manager.ids[q],
                            r as nat,
                        ));
                    } else if r < len {
                        assert(self.round_hashes[q][r] == before.round_hashes[q][r]);
                    }
                }
                assert forall|j: int| 0 <= j < before.graph.events.len() implies {
                    let e = #[trigger] self.graph.events[j];
                    &&& e.observations.len() == before.peers()
                    &&& crate::digest_set::ascending(e.valid_blocks_carried@)
                } by {
                    assert(before.event_wf(j));
                }
                self.lemma_consensus_keeps_invariant(before);
            }
        }
    }

    /// Sets the meta-votes of the event at `at`, derived from the state as
    /// it stands, and extends the round hashes up to the rounds of the votes.
    pub fn set_meta_votes(&mut self, at: usize)
        requires
            old(self).wf(),
            at < old(self).graph.events.len(),
        ensures
            final(self).wf(),
            *final(self) == (Parsec {
                meta_votes: final(self).meta_votes,
                round_hashes: final(self).round_hashes,
                ..*old(self)
            }),
            final(self).meta_votes@ == old(self).meta_votes@.update(
                at as int,
                final(self).meta_votes[at as int],
            ),
            old(self).spec_meta_votes_of(
                at as int,
                match final(self).meta_votes[at as int] {
                    Some(vs) => Some(vs@),
                    None => None,
                },
            ),
            forall|p: int|
                0 <= p < old(self).peers() ==> (#[trigger] final(self).round_hashes[p]).len()
                    == match final(self).meta_votes[at as int] {
                    Some(vs) => if old(self).round_hashes[p].len() > vs[p].round {
                        old(self).round_hashes[p].len() as int
                    } else {
                        vs[p].round + 1
                    },
                    None => old(self).round_hashes[p].len() as int,
                },
    {
        let votes = self.derive_meta_votes(at);
        let n = self.peer_manager.len();
        if let Some(vs) = &votes {
            let mut p: usize = 0;
            while p < n
                invariant
                    self.wf(),
                    n == self.peer_manager.ids.len(),
                    vs.len() == n,
                    p <= n,
                    *self == (Parsec { round_hashes: self.round_hashes, ..*old(self) }),
                    self.round_hashes.len() == n,
                    forall|q: int|
                        p <= q < n ==> #[trigger] self.round_hashes[q] == old(self).round_hashes[q],
                    forall|q: int|
                        0 <= q < p ==> (#[trigger] self.round_hashes[q]).len() == if old(
                            self,
                        ).round_hashes[q].len() > vs[q].round {
                            old(self).round_hashes[q].len() as int
                        } else {
                            vs[q].round + 1
                        },
                decreases n - p,
            {
                self.grow_round_hashes(p, vs[p].round);
                p += 1;
            }
        }
        let ghost grown = *self;
        self.meta_votes[at] = votes;
        proof {
            assert forall|j: int| 0 <= j < grown.graph.events.len() implies {
                let e = #[trigger] self.graph.events[j];
                &&& e.observations.len() == grown.peers()
                &&& crate::digest_set::ascending(e.valid_blocks_carried@)
            } by {
                assert(grown.event_wf(j));
            }
            assert forall|i: int| 0 <= i < self.meta_votes.len() implies (
            #[trigger] self.meta_votes[i] matches Some(v) ==> v.len() == grown.peers()) by {
                if i != at {
                    assert(self.meta_votes[i] == grown.meta_votes[i]);
                }
            }
            assert(self.round_hashes_wf()) by {
                assert(grown.round_hashes_wf());
            }
            self.lemma_consensus_keeps_invariant(grown);
        }
    }
}

} // verus!
