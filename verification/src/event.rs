//! Gossip events: what travels between peers, and the node that the graph
//! keeps for it, with the metadata computed when it was appended.

use vstd::prelude::*;
use crate::hash::{digest, spec_digest, Digest};
use crate::peer_manager::PeerId;

verus! {

/// What an event carries besides its parents.
#[derive(Clone, Copy, Debug, PartialEq, Eq, Structural)]
pub enum Payload {
    /// Nothing: the first event of a creator.
    Empty,
    /// A vote for a network event, which an integer stands for.
    Vote(u64),
    /// The mark of an event that acknowledges a request.
    Request,
    /// The mark of an event that acknowledges a response.
    Response,
}

/// The immutable part of an event, as it travels between peers.
#[derive(Clone, Copy, Debug, PartialEq, Eq, Structural)]
pub struct PackedEvent {
    pub creator: PeerId,
    pub self_parent: Option<Digest>,
    pub other_parent: Option<Digest>,
    pub payload: Payload,
}

/// The two words that stand for an optional hash: a presence flag, then the hash.
pub open spec fn spec_parent_words(parent: Option<Digest>) -> Seq<u64> {
    match parent {
        Some(h) => seq![1u64, h],
        None => seq![0u64, 0u64],
    }
}

/// The two words that stand for a payload: its tag, then its body.
pub open spec fn spec_payload_words(payload: Payload) -> Seq<u64> {
    match payload {
        Payload::Empty => seq![0u64, 0u64],
        Payload::Vote(v) => seq![1u64, v],
        Payload::Request => seq![2u64, 0u64],
        Payload::Response => seq![3u64, 0u64],
    }
}

impl PackedEvent {
    /// The words over which the hash is taken: creator, both parents, payload.
    pub open spec fn spec_words(&self) -> Seq<u64> {
        seq![self.creator] + spec_parent_words(self.self_parent) + spec_parent_words(
            self.other_parent,
        ) + spec_payload_words(self.payload)
    }

    /// The content address of the event.
    pub open spec fn spec_hash(&self) -> Digest {
        spec_digest(self.spec_words())
    }

    /// The event has no parent at all.
    pub open spec fn spec_is_initial(&self) -> bool {
        self.self_parent.is_none() && self.other_parent.is_none()
    }

    /// The payload voted for, where the event carries a vote.
    pub open spec fn spec_vote(&self) -> Option<u64> {
        match self.payload {
            Payload::Vote(v) => Some(v),
            _ => None,
        }
    }

    /// The first event of `creator`.
    pub fn new_initial(creator: PeerId) -> (e: PackedEvent)
        ensures
            e == (PackedEvent {
                creator,
                self_parent: None,
                other_parent: None,
                payload: Payload::Empty,
            }),
    {
        PackedEvent { creator, self_parent: None, other_parent: None, payload: Payload::Empty }
    }

    /// An event by which `creator` votes for `payload`.
    pub fn new_from_observation(creator: PeerId, self_parent: Digest, payload: u64) -> (e:
        PackedEvent)
        ensures
            e == (PackedEvent {
                creator,
                self_parent: Some(self_parent),
                other_parent: None,
                payload: Payload::Vote(payload),
            }),
    {
        PackedEvent {
            creator,
            self_parent: Some(self_parent),
            other_parent: None,
            payload: Payload::Vote(payload),
        }
    }

    /// An event by which `creator` acknowledges a request whose sender's
    /// latest event is `other_parent`.
    pub fn new_from_request(creator: PeerId, self_parent: Digest, other_parent: Digest) -> (e:
        PackedEvent)
        ensures
            e == (PackedEvent {
                creator,
                self_parent: Some(self_parent),
                other_parent: Some(other_parent),
                payload: Payload::Request,
            }),
    {
        PackedEvent {
            creator,
            self_parent: Some(self_parent),
            other_parent: Some(other_parent),
            payload: Payload::Request,
        }
    }

    /// An event by which `creator` acknowledges a response whose sender's
    /// latest event is `other_parent`.
    pub fn new_from_response(creator: PeerId, self_parent: Digest, other_parent: Digest) -> (e:
        PackedEvent)
        ensures
            e == (PackedEvent {
                creator,
                self_parent: Some(self_parent),
                other_parent: Some(other_parent),
                payload: Payload::Response,
            }),
    {
        PackedEvent {
            creator,
            self_parent: Some(self_parent),
            other_parent: Some(other_parent),
            payload: Payload::Response,
        }
    }

    /// Computes the content address of the event.
    pub fn hash(&self) -> (h: Digest)
        ensures
            h == self.spec_hash(),
    {
        let mut words: Vec<u64> = Vec::new();
        words.push(self.creator);
        match self.self_parent {
            Some(h) => {
                words.push(1);
                words.push(h);
            },
            None => {
                words.push(0);
                words.push(0);
            },
        }
        match self.other_parent {
            Some(h) => {
                words.push(1);
                words.push(h);
            },
            None => {
                words.push(0);
                words.push(0);
            },
        }
        match self.payload {
            Payload::Empty => {
                words.push(0);
                words.push(0);
            },
            Payload::Vote(v) => {
                words.push(1);
                words.push(v);
            },
            Payload::Request => {
                words.push(2);
                words.push(0);
            },
            Payload::Response => {
                words.push(3);
                words.push(0);
            },
        }
        proof {
            assert(words@ =~= self.spec_words());
        }
        digest(&words)
    }

    /// Tells whether the event has no parent at all.
    pub fn is_initial(&self) -> (yes: bool)
        ensures
            yes == self.spec_is_initial(),
    {
        self.self_parent.is_none() && self.other_parent.is_none()
    }

    /// The payload voted for, where the event carries a vote.
    pub fn vote(&self) -> (v: Option<u64>)
        ensures
            v == self.spec_vote(),
    {
        match self.payload {
            Payload::Vote(v) => Some(v),
            _ => None,
        }
    }

    /// Tells whether the event acknowledges a response.
    pub fn is_response(&self) -> (yes: bool)
        ensures
            yes == (self.payload == Payload::Response),
    {
        match self.payload {
            Payload::Response => true,
            _ => false,
        }
    }
}

/// A node of the gossip graph: an event, its hash, and what was derived from
/// the graph when it was appended. The maps from peers are kept by slot.
pub struct Event {
    pub packed: PackedEvent,
    pub hash: Digest,
    /// The sequence number on the creator's chain.
    pub index: u64,
    /// The place in the order of insertion.
    pub topological_index: usize,
    /// By slot: the greatest index of that peer's events among the ancestors.
    pub last_ancestors: Vec<Option<u64>>,
    /// By slot: the least index of that peer's events among the descendants.
    pub first_descendants: Vec<Option<u64>>,
    /// The hashes of ancestors that carry a valid block, ascending.
    pub valid_blocks_carried: Vec<Digest>,
    /// By slot: the peers noted as observing a valid block of this chain.
    pub observations: Vec<bool>,
}

impl Event {
    /// The creator of the event.
    pub fn creator(&self) -> (c: PeerId)
        ensures
            c == self.packed.creator,
    {
        self.packed.creator
    }

    /// The hash of the preceding event of the same creator.
    pub fn self_parent(&self) -> (p: Option<Digest>)
        ensures
            p == self.packed.self_parent,
    {
        self.packed.self_parent
    }

    /// The hash of the event of another creator that this one acknowledges.
    pub fn other_parent(&self) -> (p: Option<Digest>)
        ensures
            p == self.packed.other_parent,
    {
        self.packed.other_parent
    }

    /// The content address under which the graph keeps the event.
    pub fn hash(&self) -> (h: Digest)
        ensures
            h == self.hash,
    {
        self.hash
    }

    /// The payload voted for, where the event carries a vote.
    pub fn vote(&self) -> (v: Option<u64>)
        ensures
            v == self.packed.spec_vote(),
    {
        self.packed.vote()
    }

    /// The place of the event in the order of insertion.
    pub fn topological_index(&self) -> (t: usize)
        ensures
            t == self.topological_index,
    {
        self.topological_index
    }
}

} // verus!
