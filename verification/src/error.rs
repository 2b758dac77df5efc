//! The ways in which an operation of the engine can fail.

use vstd::prelude::*;

verus! {

/// What went wrong while handling an event, a request or a block.
#[derive(Clone, Copy, Debug, PartialEq, Eq, Structural)]
pub enum Error {
    /// The event names a parent that the local graph does not hold.
    UnknownParent,
    /// The event's creator is not a member of the peer list.
    UnknownPeer,
    /// The event contradicts itself or its creator's chain.
    InvalidEvent,
    /// The graph already holds an event with this hash.
    DuplicateEvent,
    /// A creator voted twice for distinct payloads.
    DuplicateVote,
    /// An invariant that should always hold was found broken.
    Logic,
    /// Fewer than a super-majority of creators stand behind a block.
    InsufficientVotes,
}

} // verus!
