//! An asynchronous Byzantine-fault-tolerant consensus engine in the PARSEC
//! style: peers gossip a graph of events and derive, each on its own, the same
//! sequence of stable blocks. Every function is verified against its contract.

pub mod append;
pub mod block;
pub mod coin;
pub mod commit;
pub mod commit_proof;
pub mod derive;
pub mod digest_set;
pub mod elect;
pub mod error;
pub mod event;
pub mod genesis;
pub mod gossip;
pub mod graph;
pub mod hash;
pub mod laws;
pub mod layout;
pub mod membership;
pub mod meta_vote;
pub mod metadata;
pub mod observe;
pub mod parsec;
pub mod peer_manager;
pub mod progress;
pub mod restart;
pub mod round_hash;
pub mod stable;
pub mod sync;
pub mod tally;
pub mod votes;

pub use crate::block::Block;
pub use crate::error::Error;
pub use crate::event::{Event, PackedEvent, Payload};
pub use crate::gossip::{Request, Response};
pub use crate::graph::Graph;
pub use crate::meta_vote::MetaVote;
pub use crate::parsec::Parsec;
pub use crate::peer_manager::{PeerId, PeerManager};
