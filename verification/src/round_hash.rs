//! Round hashes: for each peer a chain of digests, one per round, from which
//! the order of the leaders of the common coin is drawn.

use vstd::prelude::*;
use crate::hash::{digest, spec_digest, Digest};
use crate::peer_manager::PeerId;

verus! {

/// The salt that enters the first round hash of every peer.
pub const GENESIS_SALT: u64 = 0x7061_7273_6563_2d30u64;

/// The digest that stands for a peer when leaders are ranked.
pub open spec fn spec_peer_hash(peer_id: PeerId) -> Digest {
    spec_digest(seq![peer_id])
}

/// The round hash of `peer_id` for round 0: the digest of its id and the salt.
pub open spec fn spec_initial(peer_id: PeerId) -> Digest {
    spec_digest(seq![peer_id, GENESIS_SALT])
}

/// The round hash that follows `value`: its digest.
pub open spec fn spec_advance(value: Digest) -> Digest {
    spec_digest(seq![value])
}

/// The round hash of `peer_id` for the given round.
pub open spec fn spec_round_hash(peer_id: PeerId, round: nat) -> Digest
    decreases round,
{
    if round == 0 {
        spec_initial(peer_id)
    } else {
        spec_advance(spec_round_hash(peer_id, (round - 1) as nat))
    }
}

/// The digest that stands for a peer when leaders are ranked.
pub fn peer_hash(peer_id: PeerId) -> (h: Digest)
    ensures
        h == spec_peer_hash(peer_id),
{
    let mut words: Vec<u64> = Vec::new();
    words.push(peer_id);
    proof {
        assert(words@ =~= seq![peer_id]);
    }
    digest(&words)
}

/// One link of a peer's chain of round hashes.
#[derive(Clone, Copy, Debug, PartialEq, Eq, Structural)]
pub struct RoundHash {
    pub value: Digest,
}

impl RoundHash {
    /// The round hash of `peer_id` for round 0.
    pub fn new(peer_id: PeerId) -> (rh: RoundHash)
        ensures
            rh.value == spec_round_hash(peer_id, 0),
    {
        let mut words: Vec<u64> = Vec::new();
        words.push(peer_id);
        words.push(GENESIS_SALT);
        proof {
            assert(words@ =~= seq![peer_id, GENESIS_SALT]);
        }
        RoundHash { value: digest(&words) }
    }

    /// The round hash of the next round.
    pub fn next(&self) -> (rh: RoundHash)
        ensures
            rh.value == spec_advance(self.value),
    {
        let mut words: Vec<u64> = Vec::new();
        words.push(self.value);
        proof {
            assert(words@ =~= seq![self.value]);
        }
        RoundHash { value: digest(&words) }
    }

    /// The digest itself.
    pub fn value(&self) -> (v: Digest)
        ensures
            v == self.value,
    {
        self.value
    }
}

} // verus!
