//! What peers send each other, and the operations by which a driver takes
//! events in, votes, and hands blocks out.

use vstd::prelude::*;
use crate::block::Block;
use crate::error::Error;
use crate::event::PackedEvent;
use crate::parsec::Parsec;

verus! {

/// A message that asks the receiver to take the sender's events in and to
/// answer with those that the sender lacks.
#[derive(Clone, Debug, PartialEq, Eq)]
pub struct Request {
    pub events: Vec<PackedEvent>,
}

/// The answer to a request.
#[derive(Clone, Debug, PartialEq, Eq)]
pub struct Response {
    pub events: Vec<PackedEvent>,
}

impl Request {
    /// A request that carries `events`, in this order.
    pub fn new(events: Vec<PackedEvent>) -> (req: Request)
        ensures
            req.events == events,
    {
        Request { events }
    }

    /// The events carried, in the order in which they are to be added.
    pub fn unpack(self) -> (events: Vec<PackedEvent>)
        ensures
            events == self.events,
    {
        self.events
    }
}

impl Response {
    /// A response that carries `events`, in this order.
    pub fn new(events: Vec<PackedEvent>) -> (resp: Response)
        ensures
            resp.events == events,
    {
        Response { events }
    }

    /// The events carried, in the order in which they are to be added.
    pub fn unpack(self) -> (events: Vec<PackedEvent>)
        ensures
            events == self.events,
    {
        self.events
    }
}

impl Parsec {
    /// `self` holds every event of `pre`, at its place.
    pub open spec fn extends(&self, pre: Parsec) -> bool {
        &&& self.graph.events.len() >= pre.graph.events.len()
        &&& forall|j: int|
            0 <= j < pre.graph.events.len() ==> (#[trigger] self.graph.events[j]).hash
                == pre.graph.events[j].hash && self.graph.events[j].packed
                == pre.graph.events[j].packed
    }

    /// `self` is `pre` after `packed` has been handed in, with the outcome
    /// `res`: an event that the graph holds already leaves the state as it
    /// is and is no error; a refused event leaves the state as it is and
    /// gives the reason; any other is appended and processed. Whatever the
    /// case, the events of `pre` stay.
    pub open spec fn added(&self, pre: Parsec, packed: PackedEvent, res: Result<(), Error>) -> bool {
        &&& self.extends(pre)
        &&& self.transition(pre, packed, res)
    }

    /// The three cases of handing an event in.
    pub open spec fn transition(&self, pre: Parsec, packed: PackedEvent, res: Result<
        (),
        Error,
    >) -> bool {
        if pre.graph.contains(packed.spec_hash()) {
            res.is_ok() && *self == pre
        } else {
            match pre.spec_refusal(packed) {
                Some(e) => res == Err::<(), Error>(e) && *self == pre,
                None => res.is_ok() && self.graph.events.len() == pre.graph.events.len() + 1
                    && self.graph.events[pre.graph.events.len() as int].packed == packed
                    && self.graph.events[pre.graph.events.len() as int].hash == packed.spec_hash()
                    && exists|mid: Parsec|
                    #[trigger] mid.appended(pre, packed) && mid.wf() && self.processed(
                        mid,
                        pre.graph.events.len() as int,
                    ),
            }
        }
    }


    /// The slot of this peer itself.
    pub open spec fn spec_our_slot(&self) -> int {
        self.peer_manager.spec_slot_of(self.peer_manager.our_id)
    }

    /// Takes the event `packed` in.
    pub fn add_event(&mut self, packed: PackedEvent) -> (res: Result<(), Error>)
        requires
            old(self).wf(),
        ensures
            final(self).wf(),
            final(self).added(*old(self), packed, res),
            final(self).peer_manager.ids@ == old(self).peer_manager.ids@,
            final(self).peer_manager.our_id == old(self).peer_manager.our_id,
    {
        let at = match self.append(packed) {
            Ok(Some(at)) => at,
            Ok(None) => {
                return Ok(());
            },
            Err(e) => {
                return Err(e);
            },
        };
        self.process_event(at);
        Ok(())
    }

    /// Adds a vote of ours for `payload`. Fails with `InvalidEvent` where we
    /// have created no event yet.
    pub fn vote_for(&mut self, payload: u64) -> (res: Result<(), Error>)
        requires
            old(self).wf(),
        ensures
            final(self).wf(),
            ({
                let chain = old(self).peer_manager.chains[old(self).spec_our_slot()]@;
                if chain.len() > 0 {
                    final(self).added(
                        *old(self),
                        PackedEvent {
                            creator: old(self).peer_manager.our_id,
                            self_parent: Some(chain.last()),
                            other_parent: None,
                            payload: crate::event::Payload::Vote(payload),
                        },
                        res,
                    )
                } else {
                    res == Err::<(), Error>(Error::InvalidEvent) && *final(self) == *old(self)
                }
            }),
    {
        let us = self.peer_manager.our_id();
        let last = match self.peer_manager.last_event_hash(us) {
            Some(h) => h,
            None => {
                return Err(Error::InvalidEvent);
            },
        };
        let event = PackedEvent::new_from_observation(us, last, payload);
        self.add_event(event)
    }

    /// All our events as they travel, in the order of the graph.
    pub fn create_gossip(&self) -> (req: Request)
        ensures
            req.events@ == Seq::new(
                self.graph.events.len() as nat,
                |i: int| self.graph.events[i].packed,
            ),
    {
        let mut events: Vec<PackedEvent> = Vec::new();
        let mut i: usize = 0;
        while i < self.graph.events.len()
            invariant
                i <= self.graph.events.len(),
                events.len() == i,
                forall|j: int| 0 <= j < i ==> events[j] == self.graph.events[j].packed,
            decreases self.graph.events.len() - i,
        {
            events.push(self.graph.events[i].packed);
            i += 1;
        }
        proof {
            assert(events@ =~= Seq::new(
                self.graph.events.len() as nat,
                |i: int| self.graph.events[i].packed,
            ));
        }
        Request::new(events)
    }

    /// Hands out the oldest block decided and not yet handed out, if there is one.
    pub fn poll(&mut self) -> (res: Result<Option<Block>, Error>)
        ensures
            *final(self) == (Parsec {
                consensused_blocks: final(self).consensused_blocks,
                ..*old(self)
            }),
            old(self).wf() ==> final(self).wf(),
            if old(self).consensused_blocks.len() == 0 {
                res == Ok::<Option<Block>, Error>(None) && *final(self) == *old(self)
            } else {
                res == Ok::<Option<Block>, Error>(Some(old(self).consensused_blocks[0]))
                    && final(self).consensused_blocks@ == old(self).consensused_blocks@.drop_first()
            },
    {
        if self.consensused_blocks.len() == 0 {
            return Ok(None);
        }
        let block = self.consensused_blocks.remove(0);
        proof {
            assert(self.consensused_blocks@ =~= old(self).consensused_blocks@.drop_first());
            if old(self).wf() {
                assert forall|j: int| 0 <= j < old(self).graph.events.len() implies {
                    let e = #[trigger] self.graph.events[j];
                    &&& e.observations.len() == old(self).peers()
                    &&& crate::digest_set::ascending(e.valid_blocks_carried@)
                } by {
                    assert(old(self).event_wf(j));
                }
                assert(self.round_hashes_wf()) by {
                    assert(old(self).round_hashes_wf());
                }
                self.lemma_consensus_keeps_invariant(*old(self));
            }
        }
        Ok(Some(block))
    }

    /// Tells whether an event of ours in the graph votes for `payload`.
    pub fn have_voted_for(&self, payload: u64) -> (yes: bool)
        requires
            self.wf(),
        ensures
            yes == self.spec_has_voted(self.spec_our_slot(), payload),
    {
        match self.peer_manager.slot_of(self.peer_manager.our_id()) {
            Some(us) => self.has_voted(us, payload),
            None => {
                proof {
                    assert(false);
                }
                false
            },
        }
    }
}

} // verus!
