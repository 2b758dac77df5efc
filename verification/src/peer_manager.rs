//! The members of the network and, for each, the chain of events it created.

use vstd::prelude::*;
use crate::error::Error;
use crate::event::Event;
use crate::hash::Digest;

verus! {

/// The public identity of a peer.
pub type PeerId = u64;

/// The peer list: the members in ascending order of their ids, and for each
/// member the hashes of its events, the event with index `k` at position `k`.
/// The position of a member in that order is its slot.
pub struct PeerManager {
    pub our_id: PeerId,
    pub ids: Vec<PeerId>,
    pub chains: Vec<Vec<Digest>>,
}

/// `3 * count > 2 * total`: strictly more than two thirds.
pub open spec fn spec_is_super_majority(count: nat, total: nat) -> bool {
    3 * count > 2 * total
}

/// `3 * count >= total`: at least a third, which with `total = 3f + 1` is `f + 1`.
pub open spec fn spec_is_at_least_one_third(count: nat, total: nat) -> bool {
    3 * count >= total
}

/// Tells whether `count` out of `total` is a super-majority.
pub fn is_super_majority_of(count: usize, total: usize) -> (yes: bool)
    ensures
        yes == spec_is_super_majority(count as nat, total as nat),
{
    3 * (count as u128) > 2 * (total as u128)
}

impl PeerManager {
    /// The ids ascend strictly, every member has a chain, and we are a member.
    pub open spec fn wf(&self) -> bool {
        &&& self.chains.len() == self.ids.len()
        &&& forall|i: int, j: int| 0 <= i < j < self.ids.len() ==> self.ids[i] < self.ids[j]
        &&& self.has_peer(self.our_id)
    }

    /// The number of members.
    pub open spec fn spec_len(&self) -> nat {
        self.ids.len() as nat
    }

    /// `id` is a member.
    pub open spec fn has_peer(&self, id: PeerId) -> bool {
        exists|i: int| 0 <= i < self.ids.len() && self.ids[i] == id
    }

    /// The slot of the member `id`.
    pub open spec fn spec_slot_of(&self, id: PeerId) -> int {
        choose|i: int| 0 <= i < self.ids.len() && self.ids[i] == id
    }

    /// The chain of the member `id`, if it is one.
    pub open spec fn spec_peer_info(&self, id: PeerId) -> Option<Seq<Digest>> {
        if self.has_peer(id) {
            Some(self.chains[self.spec_slot_of(id)]@)
        } else {
            None
        }
    }

    /// In a well-formed list a slot is the slot of its own id and of no other.
    pub proof fn lemma_slot_unique(&self, i: int)
        requires
            self.wf(),
            0 <= i < self.ids.len(),
        ensures
            self.has_peer(self.ids[i]),
            self.spec_slot_of(self.ids[i]) == i,
    {
        let j = self.spec_slot_of(self.ids[i]);
        assert(0 <= j < self.ids.len() && self.ids[j] == self.ids[i]);
        if j < i {
            assert(self.ids[j] < self.ids[i]);
        }
        if i < j {
            assert(self.ids[i] < self.ids[j]);
        }
    }

    /// Two well-formed lists with the same ids give every member the same slot.
    pub proof fn lemma_slot_stable(&self, other: &PeerManager, id: PeerId)
        requires
            self.wf(),
            other.wf(),
            self.ids@ == other.ids@,
            self.has_peer(id),
        ensures
            other.has_peer(id),
            other.spec_slot_of(id) == self.spec_slot_of(id),
    {
        let i = self.spec_slot_of(id);
        assert(0 <= i < self.ids.len() && self.ids[i] == id);
        assert(other.ids[i] == id);
        other.lemma_slot_unique(i);
    }

    /// A list whose only member is `our_id`, with no event yet.
    pub fn new(our_id: PeerId) -> (pm: PeerManager)
        ensures
            pm.wf(),
            pm.our_id == our_id,
            pm.ids@ == seq![our_id],
            pm.chains.len() == 1,
            pm.chains[0]@ == Seq::<Digest>::empty(),
    {
        let mut ids: Vec<PeerId> = Vec::new();
        ids.push(our_id);
        let mut chains: Vec<Vec<Digest>> = Vec::new();
        chains.push(Vec::new());
        let pm = PeerManager { our_id, ids, chains };
        proof {
            assert(pm.ids[0] == our_id);
        }
        pm
    }

    /// Our own id.
    pub fn our_id(&self) -> (id: PeerId)
        ensures
            id == self.our_id,
    {
        self.our_id
    }

    /// The number of members.
    pub fn len(&self) -> (n: usize)
        ensures
            n == self.ids.len(),
    {
        self.ids.len()
    }

    /// The slot of `id`, or `None` where it is no member.
    pub fn slot_of(&self, id: PeerId) -> (slot: Option<usize>)
        requires
            self.wf(),
        ensures
            match slot {
                Some(i) => i < self.ids.len() && self.ids[i as int] == id && self.has_peer(id)
                    && self.spec_slot_of(id) == i,
                None => !self.has_peer(id),
            },
    {
        let mut i: usize = 0;
        while i < self.ids.len()
            invariant
                self.wf(),
                i <= self.ids.len(),
                forall|j: int| 0 <= j < i ==> self.ids[j] != id,
            decreases self.ids.len() - i,
        {
            if self.ids[i] == id {
                proof {
                    self.lemma_slot_unique(i as int);
                }
                return Some(i);
            }
            i += 1;
        }
        None
    }

    /// Our own chain.
    pub fn our_info(&self) -> (chain: &Vec<Digest>)
        requires
            self.wf(),
        ensures
            Some(chain@) == self.spec_peer_info(self.our_id),
    {
        match self.slot_of(self.our_id) {
            Some(i) => &self.chains[i],
            None => {
                proof {
                    assert(false);
                }
                &self.chains[0]
            },
        }
    }

    /// The chain of `peer_id`, or `None` where it is no member.
    pub fn peer_info(&self, peer_id: PeerId) -> (chain: Option<&Vec<Digest>>)
        requires
            self.wf(),
        ensures
            match chain {
                Some(c) => Some(c@) == self.spec_peer_info(peer_id),
                None => self.spec_peer_info(peer_id).is_none(),
            },
    {
        match self.slot_of(peer_id) {
            Some(i) => Some(&self.chains[i]),
            None => None,
        }
    }

    /// All member ids, ascending.
    pub fn all_ids(&self) -> (ids: Vec<PeerId>)
        ensures
            ids@ == self.ids@,
    {
        self.ids.clone()
    }

    /// Tells whether `count` members are strictly more than two thirds of all.
    pub fn is_super_majority(&self, count: usize) -> (yes: bool)
        ensures
            yes == spec_is_super_majority(count as nat, self.spec_len()),
    {
        is_super_majority_of(count, self.ids.len())
    }

    /// The index of the last event that `peer_id` created.
    pub fn last_event_index(&self, peer_id: PeerId) -> (index: Option<u64>)
        requires
            self.wf(),
        ensures
            index == match self.spec_peer_info(peer_id) {
                Some(chain) => if chain.len() > 0 {
                    Some((chain.len() - 1) as u64)
                } else {
                    None
                },
                None => None,
            },
    {
        match self.slot_of(peer_id) {
            Some(i) => {
                let n = self.chains[i].len();
                if n > 0 {
                    Some((n - 1) as u64)
                } else {
                    None
                }
            },
            None => None,
        }
    }

    /// The hash of the last event that `peer_id` created.
    pub fn last_event_hash(&self, peer_id: PeerId) -> (hash: Option<Digest>)
        requires
            self.wf(),
        ensures
            hash == match self.spec_peer_info(peer_id) {
                Some(chain) => if chain.len() > 0 {
                    Some(chain.last())
                } else {
                    None
                },
                None => None,
            },
    {
        match self.slot_of(peer_id) {
            Some(i) => {
                let n = self.chains[i].len();
                if n > 0 {
                    Some(self.chains[i][n - 1])
                } else {
                    None
                }
            },
            None => None,
        }
    }

    /// The hash of the event with the given index on the chain of `peer_id`.
    pub fn event_by_index(&self, peer_id: PeerId, index: u64) -> (hash: Option<Digest>)
        requires
            self.wf(),
        ensures
            hash == match self.spec_peer_info(peer_id) {
                Some(chain) => if index < chain.len() {
                    Some(chain[index as int])
                } else {
                    None
                },
                None => None,
            },
    {
        match self.slot_of(peer_id) {
            Some(i) => {
                if index < self.chains[i].len() as u64 {
                    Some(self.chains[i][index as usize])
                } else {
                    None
                }
            },
            None => None,
        }
    }

    /// Every member with its chain, in ascending order of the ids.
    pub fn iter(&self) -> (all: Vec<(PeerId, Vec<Digest>)>)
        requires
            self.wf(),
        ensures
            all.len() == self.ids.len(),
            forall|i: int|
                0 <= i < all.len() ==> all[i].0 == self.ids[i] && all[i].1@ == self.chains[i]@,
    {
        let mut all: Vec<(PeerId, Vec<Digest>)> = Vec::new();
        let mut i: usize = 0;
        while i < self.ids.len()
            invariant
                self.wf(),
                i <= self.ids.len(),
                all.len() == i,
                forall|j: int|
                    0 <= j < i ==> all[j].0 == self.ids[j] && all[j].1@ == self.chains[j]@,
            decreases self.ids.len() - i,
        {
            all.push((self.ids[i], self.chains[i].clone()));
            i += 1;
        }
        all
    }

    /// Makes `peer_id` a member with an empty chain, at the place its id gives
    /// it; a member already is left as it is.
    pub fn add_peer(&mut self, peer_id: PeerId)
        requires
            old(self).wf(),
        ensures
            final(self).wf(),
            final(self).our_id == old(self).our_id,
            final(self).has_peer(peer_id),
            old(self).has_peer(peer_id) ==> *final(self) == *old(self),
            !old(self).has_peer(peer_id) ==> {
                let at = final(self).spec_slot_of(peer_id);
                &&& 0 <= at <= old(self).ids.len()
                &&& final(self).ids@ == old(self).ids@.insert(at, peer_id)
                &&& final(self).chains@ == old(self).chains@.insert(at, final(self).chains[at])
                &&& final(self).chains[at]@ == Seq::<Digest>::empty()
            },
    {
        let mut at: usize = 0;
        while at < self.ids.len() && self.ids[at] < peer_id
            invariant
                self.wf(),
                at <= self.ids.len(),
                forall|j: int| 0 <= j < at ==> self.ids[j] < peer_id,
            decreases self.ids.len() - at,
        {
            at += 1;
        }
        if at < self.ids.len() && self.ids[at] == peer_id {
            return ;
        }
        proof {
            assert forall|j: int| 0 <= j < self.ids.len() implies self.ids[j] != peer_id by {
                if j >= at {
                    assert(self.ids[at as int] <= self.ids[j]);
                }
            }
            let ours = self.spec_slot_of(self.our_id);
            assert(0 <= ours < self.ids.len() && self.ids[ours] == self.our_id);
        }
        let ghost ours = self.spec_slot_of(self.our_id);
        self.ids.insert(at, peer_id);
        self.chains.insert(at, Vec::new());
        proof {
            assert(self.ids[at as int] == peer_id);
            assert(self.ids[if ours < at { ours } else { ours + 1 }] == self.our_id);
            assert forall|i: int, j: int| 0 <= i < j < self.ids.len() implies self.ids[i]
                < self.ids[j] by {
                let oi = if i < at { i } else { i - 1 };
                let oj = if j < at { j } else { j - 1 };
                if i != at && j != at {
                    assert(old(self).ids[oi] < old(self).ids[oj]);
                } else if i == at {
                    assert(old(self).ids[at as int] <= old(self).ids[oj]);
                }
            }
            self.lemma_slot_unique(at as int);
        }
    }

    /// Records `event` on the chain of `peer_id`, by its index. Returns the
    /// hash that stood there before, `None` where the chain grew by this
    /// event. Fails with `UnknownPeer` where `peer_id` is no member, and with
    /// `InvalidEvent` where the index would leave a gap.
    pub fn add_event(&mut self, peer_id: PeerId, event: &Event) -> (res: Result<
        Option<Digest>,
        Error,
    >)
        requires
            old(self).wf(),
        ensures
            final(self).recorded(*old(self), peer_id, event.index, event.hash, res),
    {
        self.record(peer_id, event.index, event.hash)
    }

    /// `self` is `pre` after `hash` has been recorded as the event with the
    /// given index on the chain of `peer_id`, with the outcome `res`.
    pub open spec fn recorded(
        &self,
        pre: PeerManager,
        peer_id: PeerId,
        index: u64,
        hash: Digest,
        res: Result<Option<Digest>, Error>,
    ) -> bool {
        &&& self.wf()
        &&& self.our_id == pre.our_id
        &&& self.ids@ == pre.ids@
        &&& match pre.spec_peer_info(peer_id) {
            None => res == Err::<Option<Digest>, Error>(Error::UnknownPeer) && *self == pre,
            Some(chain) => {
                let slot = pre.spec_slot_of(peer_id);
                if index > chain.len() {
                    res == Err::<Option<Digest>, Error>(Error::InvalidEvent) && *self == pre
                } else {
                    &&& self.chains.len() == pre.chains.len()
                    &&& forall|i: int|
                        0 <= i < pre.chains.len() && i != slot ==> #[trigger] self.chains[i]
                            == pre.chains[i]
                    &&& if index == chain.len() {
                        res == Ok::<Option<Digest>, Error>(None) && self.chains[slot]@
                            == chain.push(hash)
                    } else {
                        res == Ok::<Option<Digest>, Error>(Some(chain[index as int]))
                            && self.chains[slot]@ == chain.update(index as int, hash)
                    }
                }
            },
        }
    }

    /// Records `hash` as the event with the given index on the chain of
    /// `peer_id`.
    pub fn record(&mut self, peer_id: PeerId, index: u64, hash: Digest) -> (res: Result<
        Option<Digest>,
        Error,
    >)
        requires
            old(self).wf(),
        ensures
            final(self).recorded(*old(self), peer_id, index, hash, res),
    {
        let slot = match self.slot_of(peer_id) {
            Some(slot) => slot,
            None => {
                return Err(Error::UnknownPeer);
            },
        };
        let n = self.chains[slot].len();
        if index > n as u64 {
            return Err(Error::InvalidEvent);
        }
        let mut chain = self.chains.remove(slot);
        let res = if index == n as u64 {
            chain.push(hash);
            None
        } else {
            let before = chain[index as usize];
            chain.set(index as usize, hash);
            Some(before)
        };
        self.chains.insert(slot, chain);
        proof {
            let ours = old(self).spec_slot_of(self.our_id);
            assert(self.ids[ours] == self.our_id);
        }
        Ok(res)
    }
}

} // verus!
