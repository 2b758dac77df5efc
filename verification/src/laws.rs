//! What holds of every well-formed driver, stated over the specifications
//! that the contracts of its operations use.

use vstd::prelude::*;
use crate::error::Error;
use crate::coin::spec_coin_round;
use crate::event::PackedEvent;
use crate::meta_vote::{spec_next, MetaVote};
use crate::metadata::{lemma_strongly_sees_monotone, spec_linked, spec_strongly_sees};
use crate::tally::{count_below, lemma_count_congruent};
use crate::parsec::Parsec;
use crate::peer_manager::{spec_is_super_majority, PeerId};

verus! {

impl Parsec {
    /// The peer at slot `p` has an event that is a descendant of the event
    /// at `y` and an ancestor of the event at `x`.
    pub open spec fn spec_event_between(&self, x: int, y: int, p: int) -> bool {
        exists|z: int|
            #[trigger] self.slot(z) == p && self.graph.is_ancestor(y, z) && self.graph.is_ancestor(
                z,
                x,
            )
    }

    /// The index of an event is one more than that of its self-parent, which
    /// is an event of the same creator; an event without a self-parent has
    /// the index 0.
    pub proof fn lemma_index_follows_self_parent(&self, i: int)
        requires
            self.wf(),
            0 <= i < self.graph.events.len(),
        ensures
            match self.graph.events[i].packed.self_parent {
                None => self.graph.events[i].index == 0,
                Some(h) => {
                    let parent = self.graph.events[self.graph.position(h)];
                    &&& self.graph.contains(h)
                    &&& parent.packed.creator == self.graph.events[i].packed.creator
                    &&& self.graph.events[i].index == parent.index + 1
                },
            },
    {
        assert(self.event_wf(i));
        if let Some(h) = self.graph.events[i].packed.self_parent {
            let c = self.slot(i);
            let k = self.graph.events[i].index - 1;
            assert(self.chain_wf(c, k));
            let j = choose|j: int|
                0 <= j < self.graph.events.len() && #[trigger] self.is_chain_event(j, c, k);
            self.graph.lemma_position(j);
        }
    }

    /// The last ancestor that an event names for its own creator is the
    /// event itself; for no peer does it name an event beyond that peer's chain.
    pub proof fn lemma_last_ancestor_of_creator(&self, i: int)
        requires
            self.wf(),
            0 <= i < self.graph.events.len(),
        ensures
            self.graph.events[i].last_ancestors[self.slot(i)] == Some(self.graph.events[i].index),
            forall|p: int|
                0 <= p < self.peers() ==> (
                #[trigger] self.graph.events[i].last_ancestors[p] matches Some(a) ==> a
                    < self.peer_manager.chains[p].len()),
    {
        assert(self.event_wf(i));
    }

    /// On an ancestor of an event, the first descendant noted for the
    /// event's creator is no later than the event.
    pub proof fn lemma_first_descendant_no_later(&self, f: int, e: int)
        requires
            self.wf(),
            self.graph.is_ancestor(f, e),
        ensures
            self.graph.events[f].first_descendants[self.slot(e)] matches Some(d) && d
                <= self.graph.events[e].index,
    {
    }

    /// Strong seeing is inherited: what an event strongly sees, each of its
    /// descendants strongly sees too.
    pub proof fn lemma_strong_seeing_is_inherited(&self, x: int, descendant: int, y: int)
        requires
            self.wf(),
            self.graph.is_ancestor(x, descendant),
            0 <= y < self.graph.events.len(),
            spec_strongly_sees(
                self.graph.events[x].last_ancestors@,
                self.graph.events[y].first_descendants@,
                self.peers() as nat,
            ),
        ensures
            spec_strongly_sees(
                self.graph.events[descendant].last_ancestors@,
                self.graph.events[y].first_descendants@,
                self.peers() as nat,
            ),
    {
        self.lemma_ancestors_precede(x, descendant);
        assert(self.event_wf(x));
        assert(self.event_wf(descendant));
        assert(self.event_wf(y));
        let earlier = self.graph.events[x].last_ancestors@;
        let later = self.graph.events[descendant].last_ancestors@;
        assert forall|p: int| 0 <= p < earlier.len() implies (#[trigger] earlier[p] matches Some(
            a,
        ) ==> (later[p] matches Some(b) && a <= b)) by {
            assert(self.graph.events[x].last_ancestors[p] == earlier[p]);
        }
        lemma_strongly_sees_monotone(
            earlier,
            later,
            self.graph.events[y].first_descendants@,
            self.peers() as nat,
        );
    }

    /// Each of the voters of `payload` among the first `upto` slots is a
    /// member that created an event with a vote for `payload`.
    pub proof fn lemma_voters_have_voted(&self, payload: u64, upto: int, i: int)
        requires
            0 <= upto <= self.peers(),
            0 <= i < self.spec_voters(payload, upto).len(),
        ensures
            exists|slot: int|
                0 <= slot < upto && self.peer_manager.ids[slot] == self.spec_voters(
                    payload,
                    upto,
                )[i] && #[trigger] self.spec_has_voted(slot, payload),
        decreases upto,
    {
        let rest = self.spec_voters(payload, upto - 1);
        if i < rest.len() {
            self.lemma_voters_have_voted(payload, upto - 1, i);
            let slot = choose|slot: int|
                0 <= slot < upto - 1 && self.peer_manager.ids[slot] == rest[i]
                    && #[trigger] self.spec_has_voted(slot, payload);
            assert(self.spec_has_voted(slot, payload));
        } else {
            assert(self.spec_has_voted(upto - 1, payload));
        }
    }

    /// A block that is due stands for a payload that a member voted for:
    /// it has a voter, and each of its voters is a member that created an
    /// event of the graph with a vote for the payload.
    pub proof fn lemma_stable_block_was_voted_for(&self, payload: u64, voters: Seq<PeerId>)
        requires
            self.wf(),
            self.spec_stable_block(payload, voters),
        ensures
            voters.len() >= 1,
            forall|i: int|
                0 <= i < voters.len() ==> self.peer_manager.has_peer(#[trigger] voters[i])
                    && exists|j: int|
                    0 <= j < self.graph.events.len() && (
                    #[trigger] self.graph.events[j]).packed.creator == voters[i]
                        && self.graph.events[j].packed.spec_vote() == Some(payload),
    {
        assert forall|i: int| 0 <= i < voters.len() implies self.peer_manager.has_peer(
            #[trigger] voters[i],
        ) && exists|j: int|
            0 <= j < self.graph.events.len() && (#[trigger] self.graph.events[j]).packed.creator
                == voters[i] && self.graph.events[j].packed.spec_vote() == Some(payload) by {
            self.lemma_voters_have_voted(payload, self.peers(), i);
            let slot = choose|slot: int|
                0 <= slot < self.peers() && self.peer_manager.ids[slot] == voters[i]
                    && #[trigger] self.spec_has_voted(slot, payload);
            assert(self.peer_manager.ids[slot] == voters[i]);
            let j = choose|j: int|
                0 <= j < self.graph.events.len() && (
                #[trigger] self.graph.events[j]).packed.creator == self.peer_manager.ids[slot]
                    && self.graph.events[j].packed.spec_vote() == Some(payload);
            assert(self.graph.events[j].packed.creator == voters[i]);
        }
    }

    /// Handing in an event that the graph holds is no error and changes nothing.
    pub proof fn lemma_present_event_is_ignored(&self, pre: Parsec, packed: PackedEvent, res: Result<
        (),
        Error,
    >)
        requires
            pre.graph.contains(packed.spec_hash()),
            self.added(pre, packed, res),
        ensures
            res.is_ok(),
            *self == pre,
    {
    }

    /// An event that was handed in with success is in the graph.
    pub proof fn lemma_added_event_is_present(&self, pre: Parsec, packed: PackedEvent)
        requires
            self.added(pre, packed, Ok(())),
        ensures
            self.graph.contains(packed.spec_hash()),
    {
        if pre.graph.contains(packed.spec_hash()) {
        } else {
            let at = pre.graph.events.len() as int;
            assert(self.graph.events[at].hash == packed.spec_hash());
        }
    }

    /// Handing an event in twice is handing it in once: the second time is
    /// no error and changes nothing.
    pub proof fn lemma_add_event_is_idempotent(
        &self,
        pre: Parsec,
        once: Parsec,
        packed: PackedEvent,
        res: Result<(), Error>,
    )
        requires
            once.added(pre, packed, Ok(())),
            self.added(once, packed, res),
        ensures
            res.is_ok(),
            *self == once,
    {
        once.lemma_added_event_is_present(pre, packed);
    }

    /// The events of a graph stay in every graph that extends it.
    pub proof fn lemma_extension_holds(&self, pre: Parsec, h: u64)
        requires
            self.extends(pre),
            pre.graph.contains(h),
        ensures
            self.graph.contains(h),
    {
        let j = choose|j: int|
            0 <= j < pre.graph.spec_len() && j < pre.graph.events.len()
                && pre.graph.events[j].hash == h;
        assert(self.graph.events[j].hash == h);
    }

    /// After the first `count` of `events` have been handed in with
    /// success, the graph holds each of them and all it held before.
    pub proof fn lemma_added_all_are_present(&self, pre: Parsec, events: Seq<PackedEvent>, count: int)
        requires
            0 <= count <= events.len(),
            self.added_all(pre, events, count),
        ensures
            self.extends(pre),
            forall|k: int| 0 <= k < count ==> self.graph.contains((#[trigger] events[k]).spec_hash()),
        decreases count,
    {
        if count > 0 {
            let mid = choose|mid: Parsec|
                mid.added_all(pre, events, count - 1) && mid.wf() && #[trigger] self.added(
                    mid,
                    events[count - 1],
                    Ok(()),
                );
            mid.lemma_added_all_are_present(pre, events, count - 1);
            self.lemma_added_event_is_present(mid, events[count - 1]);
            assert forall|k: int| 0 <= k < count implies self.graph.contains(
                (#[trigger] events[k]).spec_hash(),
            ) by {
                if k < count - 1 {
                    self.lemma_extension_holds(mid, events[k].spec_hash());
                }
            }
        }
    }

    /// Handing in events that the graph holds already, one after the
    /// other, changes nothing.
    pub proof fn lemma_present_events_are_ignored(
        &self,
        pre: Parsec,
        events: Seq<PackedEvent>,
        count: int,
    )
        requires
            0 <= count <= events.len(),
            forall|k: int| 0 <= k < count ==> pre.graph.contains((#[trigger] events[k]).spec_hash()),
            self.added_all(pre, events, count),
        ensures
            *self == pre,
        decreases count,
    {
        if count > 0 {
            let mid = choose|mid: Parsec|
                mid.added_all(pre, events, count - 1) && mid.wf() && #[trigger] self.added(
                    mid,
                    events[count - 1],
                    Ok(()),
                );
            mid.lemma_present_events_are_ignored(pre, events, count - 1);
            assert(pre.graph.contains(events[count - 1].spec_hash()));
        }
    }

    /// Handing the events of a message in a second time, after all of them
    /// were taken in, changes nothing: what a replayed message adds is the
    /// event that acknowledges it.
    pub proof fn lemma_replayed_events_change_nothing(
        &self,
        pre: Parsec,
        once: Parsec,
        events: Seq<PackedEvent>,
    )
        requires
            once.added_all(pre, events, events.len() as int),
            self.added_all(once, events, events.len() as int),
        ensures
            *self == once,
    {
        once.lemma_added_all_are_present(pre, events, events.len() as int);
        self.lemma_present_events_are_ignored(once, events, events.len() as int);
    }

    /// In one state at most one block is due.
    pub proof fn lemma_due_block_is_one(
        &self,
        payload: u64,
        voters: Seq<PeerId>,
        other_payload: u64,
        other_voters: Seq<PeerId>,
    )
        requires
            self.spec_stable_block(payload, voters),
            self.spec_stable_block(other_payload, other_voters),
        ensures
            payload == other_payload,
            voters == other_voters,
    {
        let votes = self.spec_decided_votes().unwrap();
        self.lemma_winner_unique(
            self.spec_elected(votes, self.peers()),
            Some(payload),
            Some(other_payload),
        );
    }

    /// Whether an event is taken in, ignored or refused, and for what
    /// reason, depends on the state and the event alone.
    pub proof fn lemma_outcome_is_determined(
        &self,
        other: Parsec,
        pre: Parsec,
        packed: PackedEvent,
        res: Result<(), Error>,
        other_res: Result<(), Error>,
    )
        requires
            self.added(pre, packed, res),
            other.added(pre, packed, other_res),
        ensures
            res == other_res,
            self.graph.events.len() == other.graph.events.len(),
    {
        if res.is_ok() {
            assert(res == Ok::<(), Error>(res.unwrap()));
            assert(other_res == Ok::<(), Error>(other_res.unwrap()));
        }
    }

    /// The coin toss for a vote is determined by the state.
    pub proof fn lemma_toss_is_determined(
        &self,
        peer: int,
        parent_vote: MetaVote,
        at: int,
        toss: Option<bool>,
        other_toss: Option<bool>,
    )
        requires
            self.spec_is_toss(peer, parent_vote, at, toss),
            self.spec_is_toss(peer, parent_vote, at, other_toss),
        ensures
            toss == other_toss,
    {
        if let Some(round) = spec_coin_round(parent_vote) {
            if round < self.round_hashes[peer].len() {
                let target = self.round_hashes[peer][round as int].value;
                let order = choose|order: Seq<usize>|
                    self.spec_is_ranking(target, order) && toss == self.spec_coin_from(
                        peer,
                        round,
                        at,
                        order,
                    );
                let other_order = choose|order: Seq<usize>|
                    self.spec_is_ranking(target, order) && other_toss == self.spec_coin_from(
                        peer,
                        round,
                        at,
                        order,
                    );
                self.lemma_ranking_unique(target, order, other_order);
            }
        }
    }

    /// The meta-votes of an event are determined by the state: two peers
    /// that hold the same graph and the same votes on it derive the same
    /// votes for the event.
    pub proof fn lemma_meta_votes_are_determined(
        &self,
        at: int,
        votes: Option<Seq<MetaVote>>,
        other_votes: Option<Seq<MetaVote>>,
    )
        requires
            self.spec_meta_votes_of(at, votes),
            self.spec_meta_votes_of(at, other_votes),
        ensures
            votes == other_votes,
    {
        if self.spec_in_round(self.graph.events[at].packed) {
            let parent = self.graph.position(self.graph.events[at].packed.self_parent.unwrap());
            let parent_votes = self.meta_votes[parent].unwrap();
            let vs = votes.unwrap();
            let ws = other_votes.unwrap();
            assert forall|p: int| 0 <= p < vs.len() implies vs[p] == ws[p] by {
                assert(self.spec_follows(at, p, parent_votes[p], vs[p]));
                assert(self.spec_follows(at, p, parent_votes[p], ws[p]));
                let toss = choose|toss: Option<bool>|
                    #[trigger] self.spec_is_toss(p, parent_votes[p], at, toss) && vs[p]
                        == spec_next(
                        parent_votes[p],
                        self.spec_others(at, p, parent_votes[p]),
                        toss,
                        self.peers() as nat,
                    );
                let other_toss = choose|toss: Option<bool>|
                    #[trigger] self.spec_is_toss(p, parent_votes[p], at, toss) && ws[p]
                        == spec_next(
                        parent_votes[p],
                        self.spec_others(at, p, parent_votes[p]),
                        toss,
                        self.peers() as nat,
                    );
                self.lemma_toss_is_determined(p, parent_votes[p], at, toss, other_toss);
            }
            assert(vs =~= ws);
        } else if self.spec_is_observer(at) {
            let vs = votes.unwrap();
            let ws = other_votes.unwrap();
            assert forall|p: int| 0 <= p < vs.len() implies vs[p] == ws[p] by {
                assert(vs[p] == self.spec_opening(at, p));
                assert(ws[p] == self.spec_opening(at, p));
            }
            assert(vs =~= ws);
        }
    }

    /// Two drivers in whose graphs every vote is for the payload `sole`
    /// conclude the same payload: a block that is due in either is for
    /// `sole`, and a super-majority of that driver's peers stands behind it.
    pub proof fn lemma_sole_payload_is_agreed(
        &self,
        other: Parsec,
        sole: u64,
        payload: u64,
        voters: Seq<PeerId>,
        other_payload: u64,
        other_voters: Seq<PeerId>,
    )
        requires
            self.wf(),
            other.wf(),
            forall|j: int|
                0 <= j < self.graph.events.len() ==> (
                #[trigger] self.graph.events[j]).packed.spec_vote().is_none()
                    || self.graph.events[j].packed.spec_vote() == Some(sole),
            forall|j: int|
                0 <= j < other.graph.events.len() ==> (
                #[trigger] other.graph.events[j]).packed.spec_vote().is_none()
                    || other.graph.events[j].packed.spec_vote() == Some(sole),
            self.spec_stable_block(payload, voters),
            other.spec_stable_block(other_payload, other_voters),
        ensures
            payload == sole,
            other_payload == sole,
            spec_is_super_majority(voters.len(), self.peers() as nat),
            spec_is_super_majority(other_voters.len(), other.peers() as nat),
    {
        self.lemma_stable_block_was_voted_for(payload, voters);
        other.lemma_stable_block_was_voted_for(other_payload, other_voters);
        let j = choose|j: int|
            0 <= j < self.graph.events.len() && (#[trigger] self.graph.events[j]).packed.creator
                == voters[0] && self.graph.events[j].packed.spec_vote() == Some(payload);
        let k = choose|k: int|
            0 <= k < other.graph.events.len() && (
            #[trigger] other.graph.events[k]).packed.creator == other_voters[0]
                && other.graph.events[k].packed.spec_vote() == Some(other_payload);
        assert(self.graph.events[j].packed.spec_vote() == Some(payload));
        assert(other.graph.events[k].packed.spec_vote() == Some(other_payload));
    }

    /// The last ancestor that an event names for a peer is the latest event
    /// of that peer among its ancestors; it names none where the peer has
    /// no event among them.
    pub proof fn lemma_last_ancestor_is_latest(&self, e: int, p: int)
        requires
            self.wf(),
            0 <= e < self.graph.events.len(),
            0 <= p < self.peers(),
        ensures
            match self.graph.events[e].last_ancestors[p] {
                Some(a) => {
                    &&& exists|z: int|
                        #[trigger] self.is_chain_event(z, p, a as int) && self.graph.is_ancestor(
                            z,
                            e,
                        )
                    &&& forall|f: int| #[trigger]
                        self.graph.is_ancestor(f, e) && self.slot(f) == p
                            ==> self.graph.events[f].index <= a
                },
                None => forall|f: int| #[trigger] self.graph.is_ancestor(f, e) ==> self.slot(f) != p,
            },
    {
        assert forall|f: int| #[trigger] self.graph.is_ancestor(f, e) && self.slot(f)
            == p implies self.graph.events[e].last_ancestors[p] matches Some(a)
            && self.graph.events[f].index <= a by {
            self.lemma_ancestors_precede(f, e);
            assert(self.event_wf(f));
            assert(self.graph.events[f].last_ancestors[p] == Some(self.graph.events[f].index));
        }
    }

    /// The first descendant noted on an event for a peer is the earliest
    /// event of that peer that has the event among its ancestors; none is
    /// noted where the peer has no such event.
    pub proof fn lemma_first_descendant_is_earliest(&self, f: int, q: int)
        requires
            self.wf(),
            0 <= f < self.graph.events.len(),
            0 <= q < self.peers(),
        ensures
            match self.graph.events[f].first_descendants[q] {
                Some(d) => {
                    &&& exists|z: int|
                        #[trigger] self.is_chain_event(z, q, d as int) && self.graph.is_ancestor(
                            f,
                            z,
                        )
                    &&& forall|e: int| #[trigger]
                        self.graph.is_ancestor(f, e) && self.slot(e) == q ==> d
                            <= self.graph.events[e].index
                },
                None => forall|e: int| #[trigger] self.graph.is_ancestor(f, e) ==> self.slot(e) != q,
            },
    {
    }

    /// Two events are linked at a slot exactly where the peer at that slot
    /// has an event that is a descendant of the one and an ancestor of the other.
    pub proof fn lemma_linked_is_event_between(&self, x: int, y: int, p: int)
        requires
            self.wf(),
            0 <= x < self.graph.events.len(),
            0 <= y < self.graph.events.len(),
            0 <= p < self.peers(),
        ensures
            spec_linked(
                self.graph.events[x].last_ancestors@,
                self.graph.events[y].first_descendants@,
                p,
            ) <==> self.spec_event_between(x, y, p),
    {
        assert(self.event_wf(x));
        assert(self.event_wf(y));
        let la = self.graph.events[x].last_ancestors;
        let fd = self.graph.events[y].first_descendants;
        if spec_linked(la@, fd@, p) {
            let a = la[p].unwrap();
            let d = fd[p].unwrap();
            let first = choose|z: int|
                #[trigger] self.is_chain_event(z, p, d as int) && self.graph.is_ancestor(y, z);
            let last = choose|z: int|
                #[trigger] self.is_chain_event(z, p, a as int) && self.graph.is_ancestor(z, x);
            self.lemma_chain_is_ancestry(first, last);
            self.graph.lemma_ancestry_is_transitive(first, last, x);
            self.peer_manager.lemma_slot_unique(p);
            assert(self.slot(first) == p && self.graph.is_ancestor(y, first)
                && self.graph.is_ancestor(first, x));
        }
        if self.spec_event_between(x, y, p) {
            let z = choose|z: int|
                #[trigger] self.slot(z) == p && self.graph.is_ancestor(y, z)
                    && self.graph.is_ancestor(z, x);
            self.lemma_ancestors_precede(z, x);
            assert(self.event_wf(z));
            assert(self.graph.events[z].last_ancestors[p] == Some(self.graph.events[z].index));
        }
    }

    /// An event strongly sees another exactly where a super-majority of
    /// the peers have an event that is a descendant of the one seen and an
    /// ancestor of the one that sees.
    pub proof fn lemma_strong_seeing_is_by_events_between(&self, x: int, y: int)
        requires
            self.wf(),
            0 <= x < self.graph.events.len(),
            0 <= y < self.graph.events.len(),
        ensures
            spec_strongly_sees(
                self.graph.events[x].last_ancestors@,
                self.graph.events[y].first_descendants@,
                self.peers() as nat,
            ) <==> spec_is_super_majority(
                count_below(self.peers() as nat, |p: int| self.spec_event_between(x, y, p)),
                self.peers() as nat,
            ),
    {
        assert(self.event_wf(y));
        let la = self.graph.events[x].last_ancestors@;
        let fd = self.graph.events[y].first_descendants@;
        assert forall|p: int| 0 <= p < self.peers() implies #[trigger] spec_linked(la, fd, p)
            == self.spec_event_between(x, y, p) by {
            self.lemma_linked_is_event_between(x, y, p);
        }
        lemma_count_congruent(
            self.peers() as nat,
            |p: int| spec_linked(la, fd, p),
            |p: int| self.spec_event_between(x, y, p),
        );
    }

    /// A valid block that an event carries is that of a vote among the
    /// event's ancestors.
    pub proof fn lemma_carried_are_votes_of_ancestors(&self, e: int, h: u64)
        requires
            self.wf(),
            0 <= e < self.graph.events.len(),
            self.graph.events[e].valid_blocks_carried@.contains(h),
        ensures
            self.has_vote_ancestor(e, h),
    {
        let carried = self.graph.events[e].valid_blocks_carried;
        let k = choose|k: int| 0 <= k < carried@.len() && carried@[k] == h;
        assert(self.has_vote_ancestor(e, carried[k]));
    }

    /// The oldest event whose valid block a chain carries carries a vote.
    pub proof fn lemma_oldest_carries_a_vote(&self, p: int, r: int)
        requires
            self.wf(),
            0 <= p < self.peers(),
            self.spec_is_oldest(p, r),
        ensures
            self.graph.events[r].packed.spec_vote().is_some(),
    {
        let h = self.graph.events[r].hash;
        let k = choose|k: int|
            0 <= k < self.peer_manager.chains[p].len() && k < self.peer_manager.chains[p].len()
                && #[trigger] self.spec_carried_at(p, k, h);
        assert(self.chain_wf(p, k));
        let e = choose|e: int|
            0 <= e < self.graph.events.len() && #[trigger] self.is_chain_event(e, p, k);
        self.graph.lemma_position(e);
        self.lemma_carried_are_votes_of_ancestors(e, h);
        let z = choose|z: int| #[trigger] self.is_vote_ancestor(z, e, h);
        if z < r {
            assert(self.graph.events[z].hash != self.graph.events[r].hash);
        }
        if r < z {
            assert(self.graph.events[r].hash != self.graph.events[z].hash);
        }
    }
}

} // verus!
