//! Changes to a list of members: a peer joins or leaves.

use vstd::prelude::*;
use crate::digest_set::{ascending, holds, put, take};
use crate::peer_manager::PeerId;

verus! {

/// One change to a list of members.
#[derive(Clone, Copy, Debug, PartialEq, Eq, Structural)]
pub enum MembershipListChange {
    /// The peer joins.
    Add(PeerId),
    /// The peer leaves.
    Remove(PeerId),
}

impl MembershipListChange {
    /// The peer that joins or leaves.
    pub open spec fn spec_peer(&self) -> PeerId {
        match self {
            MembershipListChange::Add(id) => *id,
            MembershipListChange::Remove(id) => *id,
        }
    }

    /// The change is a leave.
    pub open spec fn spec_is_remove(&self) -> bool {
        self is Remove
    }

    /// `after` are the members `before` with the peer `id` among them, if
    /// `present`, and not among them, if not.
    pub open spec fn spec_set_to(before: Seq<PeerId>, after: Seq<PeerId>, id: PeerId, present: bool) -> bool {
        &&& ascending(after)
        &&& forall|x: PeerId| after.contains(x) <==> (if x == id {
            present
        } else {
            before.contains(x)
        })
    }

    /// Applies the change to the ascending list `peers`. Tells whether the
    /// list changed: whether the peer that joins was no member, or the peer
    /// that leaves was one.
    pub fn apply(&self, peers: &mut Vec<PeerId>) -> (changed: bool)
        requires
            ascending(old(peers)@),
        ensures
            MembershipListChange::spec_set_to(
                old(peers)@,
                final(peers)@,
                self.spec_peer(),
                !self.spec_is_remove(),
            ),
            changed == (old(peers)@.contains(self.spec_peer()) == self.spec_is_remove()),
            !changed ==> final(peers)@ == old(peers)@,
    {
        match *self {
            MembershipListChange::Add(id) => {
                let was = holds(peers, id);
                put(peers, id);
                !was
            },
            MembershipListChange::Remove(id) => take(peers, id),
        }
    }

    /// Undoes the change on the ascending list `peers`. Tells whether the
    /// list changed: whether the peer that had joined was a member, or the
    /// peer that had left was none.
    pub fn revert(&self, peers: &mut Vec<PeerId>) -> (changed: bool)
        requires
            ascending(old(peers)@),
        ensures
            MembershipListChange::spec_set_to(
                old(peers)@,
                final(peers)@,
                self.spec_peer(),
                self.spec_is_remove(),
            ),
            changed == (old(peers)@.contains(self.spec_peer()) != self.spec_is_remove()),
            !changed ==> final(peers)@ == old(peers)@,
    {
        match *self {
            MembershipListChange::Add(id) => take(peers, id),
            MembershipListChange::Remove(id) => {
                let was = holds(peers, id);
                put(peers, id);
                !was
            },
        }
    }

    /// Tells whether the change is a leave.
    pub fn is_remove(&self) -> (yes: bool)
        ensures
            yes == self.spec_is_remove(),
    {
        match *self {
            MembershipListChange::Remove(_) => true,
            MembershipListChange::Add(_) => false,
        }
    }

    /// A change that changed the list, undone, leaves the members that
    /// were there before it.
    pub proof fn lemma_revert_undoes_apply(
        &self,
        before: Seq<PeerId>,
        applied: Seq<PeerId>,
        reverted: Seq<PeerId>,
    )
        requires
            before.contains(self.spec_peer()) == self.spec_is_remove(),
            MembershipListChange::spec_set_to(
                before,
                applied,
                self.spec_peer(),
                !self.spec_is_remove(),
            ),
            MembershipListChange::spec_set_to(
                applied,
                reverted,
                self.spec_peer(),
                self.spec_is_remove(),
            ),
        ensures
            forall|x: PeerId| reverted.contains(x) <==> before.contains(x),
    {
    }
}

} // verus!
