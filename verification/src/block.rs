//! Blocks: the decisions that the engine hands out.

use vstd::prelude::*;
use crate::error::Error;
use crate::peer_manager::{is_super_majority_of, spec_is_super_majority, PeerId};

verus! {

/// A payload on which the peers agreed, with the peers whose votes for it
/// stand behind the decision, in ascending order of their ids.
#[derive(Clone, Debug, PartialEq, Eq)]
pub struct Block {
    pub payload: u64,
    pub voters: Vec<PeerId>,
}

impl Block {
    /// The voters are distinct and a super-majority of `total` peers.
    pub open spec fn attested(&self, total: nat) -> bool {
        &&& forall|i: int, j: int|
            0 <= i < j < self.voters.len() ==> self.voters[i] < self.voters[j]
        &&& spec_is_super_majority(self.voters.len() as nat, total)
    }

    /// Behind every attested block stands at least one voter.
    pub proof fn lemma_attested_has_voter(&self, total: nat)
        requires
            self.attested(total),
        ensures
            self.voters.len() >= 1,
    {
    }

    /// The block for `payload` behind which the peers `voters` stand, given
    /// in ascending order. Fails with `InsufficientVotes` where they are no
    /// super-majority of `total_peers`.
    pub fn new(payload: u64, voters: Vec<PeerId>, total_peers: usize) -> (res: Result<Block, Error>)
        requires
            forall|i: int, j: int| 0 <= i < j < voters.len() ==> voters[i] < voters[j],
        ensures
            match res {
                Ok(block) => block.payload == payload && block.voters == voters && block.attested(
                    total_peers as nat,
                ),
                Err(e) => e == Error::InsufficientVotes && !spec_is_super_majority(
                    voters.len() as nat,
                    total_peers as nat,
                ),
            },
    {
        if is_super_majority_of(voters.len(), total_peers) {
            Ok(Block { payload, voters })
        } else {
            Err(Error::InsufficientVotes)
        }
    }

    /// The payload decided.
    pub fn payload(&self) -> (p: u64)
        ensures
            p == self.payload,
    {
        self.payload
    }
}

} // verus!
