//! The exchange between two peers: a request is taken in and answered, a
//! response is taken in, and each is acknowledged by an event of our own.

use vstd::prelude::*;
use crate::error::Error;
use crate::event::{PackedEvent, Payload};
use crate::gossip::{Request, Response};
use crate::parsec::Parsec;
use crate::peer_manager::PeerId;

verus! {

impl Parsec {
    /// `self` is `pre` after the first `count` of `events` have been handed
    /// in, one after the other, none of them refused.
    pub open spec fn added_all(&self, pre: Parsec, events: Seq<PackedEvent>, count: int) -> bool
        decreases count,
    {
        if count <= 0 {
            *self == pre
        } else {
            exists|mid: Parsec|
                mid.added_all(pre, events, count - 1) && mid.wf() && #[trigger] self.added(
                    mid,
                    events[count - 1],
                    Ok(()),
                )
        }
    }

    /// `self` is `pre` after `events` have been handed in up to the first
    /// that was refused, with the reason `e`.
    pub open spec fn refused_at(&self, pre: Parsec, events: Seq<PackedEvent>, e: Error) -> bool {
        exists|k: int|
            0 <= k < events.len() && #[trigger] self.added_all(pre, events, k) && self.added(
                *self,
                events[k],
                Err(e),
            )
    }

    /// The event by which we acknowledge a message from `src`: its
    /// self-parent is our latest event, its other parent the latest of
    /// `src`. `None` where one of the two has no event in the graph.
    pub open spec fn spec_sync_event(&self, src: PeerId, payload: Payload) -> Option<PackedEvent> {
        let us = self.peer_manager.our_id;
        match (self.peer_manager.spec_peer_info(us), self.peer_manager.spec_peer_info(src)) {
            (Some(ours), Some(theirs)) => if ours.len() > 0 && theirs.len() > 0 {
                Some(
                    PackedEvent {
                        creator: us,
                        self_parent: Some(ours.last()),
                        other_parent: Some(theirs.last()),
                        payload,
                    },
                )
            } else {
                None
            },
            _ => None,
        }
    }

    /// `self` is `pre` after a message from `src` has been acknowledged
    /// with an event that carries `payload`, with the outcome `res`; it
    /// fails with `Logic`, and leaves the state as it is, where we or `src`
    /// have no event in the graph.
    pub open spec fn synced(&self, pre: Parsec, src: PeerId, payload: Payload, res: Result<
        (),
        Error,
    >) -> bool {
        match pre.spec_sync_event(src, payload) {
            Some(event) => self.added(pre, event, res),
            None => res == Err::<(), Error>(Error::Logic) && *self == pre,
        }
    }

    /// `self` is `pre` after the events of a message from `src` have been
    /// handed in and the message acknowledged with an event that carries
    /// `payload`, with the outcome `res`. The first event refused ends the
    /// operation with its reason; the events before it stay.
    pub open spec fn received(
        &self,
        pre: Parsec,
        src: PeerId,
        events: Seq<PackedEvent>,
        payload: Payload,
        res: Result<(), Error>,
    ) -> bool {
        ||| res matches Err(e) && self.refused_at(pre, events, e)
        ||| exists|mid: Parsec|
            #[trigger] mid.added_all(pre, events, events.len() as int) && mid.wf() && self.synced(
                mid,
                src,
                payload,
                res,
            )
    }

    /// An event with the last ancestors `la` has the event at `j` among its
    /// ancestors, going by the entry for that event's creator.
    pub open spec fn spec_known_to(&self, la: Seq<Option<u64>>, j: int) -> bool {
        la[self.slot(j)] matches Some(a) && self.graph.events[j].index <= a
    }

    /// The first `upto` events of the graph, as they travel, without those
    /// that an event with the last ancestors `la` has among its ancestors.
    pub open spec fn spec_lacking(&self, la: Seq<Option<u64>>, upto: int) -> Seq<PackedEvent>
        decreases upto,
    {
        if upto <= 0 {
            Seq::empty()
        } else {
            let rest = self.spec_lacking(la, upto - 1);
            if self.spec_known_to(la, upto - 1) {
                rest
            } else {
                rest.push(self.graph.events[upto - 1].packed)
            }
        }
    }

    /// The events that answer a request from `src`: those of the graph, in
    /// its order, that the latest event of `src` does not have among its
    /// ancestors; none where `src` has no event.
    pub open spec fn spec_response(&self, src: PeerId) -> Seq<PackedEvent> {
        match self.peer_manager.spec_peer_info(src) {
            Some(theirs) => if theirs.len() > 0 {
                self.spec_lacking(
                    self.graph.events[self.graph.position(theirs.last())].last_ancestors@,
                    self.graph.events.len() as int,
                )
            } else {
                Seq::empty()
            },
            None => Seq::empty(),
        }
    }

    /// Hands `events` in, one after the other, up to the first that is refused.
    pub fn add_events(&mut self, events: &Vec<PackedEvent>) -> (res: Result<(), Error>)
        requires
            old(self).wf(),
        ensures
            final(self).wf(),
            final(self).peer_manager.ids@ == old(self).peer_manager.ids@,
            final(self).peer_manager.our_id == old(self).peer_manager.our_id,
            match res {
                Ok(_) => final(self).added_all(*old(self), events@, events.len() as int),
                Err(e) => final(self).refused_at(*old(self), events@, e),
            },
    {
        let mut k: usize = 0;
        while k < events.len()
            invariant
                self.wf(),
                k <= events.len(),
                self.peer_manager.ids@ == old(self).peer_manager.ids@,
                self.peer_manager.our_id == old(self).peer_manager.our_id,
                self.added_all(*old(self), events@, k as int),
            decreases events.len() - k,
        {
            let ghost mid = *self;
            match self.add_event(events[k]) {
                Ok(_) => {
                    proof {
                        let to: int = k + 1;
                        assert(mid.added_all(*old(self), events@, to - 1));
                        assert(self.added(mid, events@[to - 1], Ok(())));
                        assert(self.added_all(*old(self), events@, to));
                    }
                },
                Err(e) => {
                    proof {
                        assert(self.added(mid, events@[k as int], Err(e)));
                        assert(*self == mid);
                    }
                    return Err(e);
                },
            }
            k += 1;
        }
        Ok(())
    }

    /// Acknowledges a message from `src` with an event of our own, marked
    /// as for a request or as for a response.
    pub fn create_sync_event(&mut self, src: PeerId, is_request: bool) -> (res: Result<(), Error>)
        requires
            old(self).wf(),
        ensures
            final(self).wf(),
            final(self).peer_manager.ids@ == old(self).peer_manager.ids@,
            final(self).peer_manager.our_id == old(self).peer_manager.our_id,
            final(self).synced(
                *old(self),
                src,
                if is_request {
                    Payload::Request
                } else {
                    Payload::Response
                },
                res,
            ),
    {
        let us = self.peer_manager.our_id();
        let self_parent = match self.peer_manager.last_event_hash(us) {
            Some(h) => h,
            None => {
                return Err(Error::Logic);
            },
        };
        let other_parent = match self.peer_manager.last_event_hash(src) {
            Some(h) => h,
            None => {
                return Err(Error::Logic);
            },
        };
        let event = if is_request {
            PackedEvent::new_from_request(us, self_parent, other_parent)
        } else {
            PackedEvent::new_from_response(us, self_parent, other_parent)
        };
        self.add_event(event)
    }

    /// The events that answer a request from `src`.
    pub fn response_to(&self, src: PeerId) -> (resp: Response)
        requires
            self.wf(),
        ensures
            resp.events@ == self.spec_response(src),
    {
        let mut events: Vec<PackedEvent> = Vec::new();
        let slot = match self.peer_manager.slot_of(src) {
            Some(slot) => slot,
            None => {
                return Response::new(events);
            },
        };
        let latest = match self.last_event(slot) {
            Some(at) => at,
            None => {
                return Response::new(events);
            },
        };
        proof {
            self.graph.lemma_position(latest as int);
            assert(self.event_wf(latest as int));
        }
        let la = &self.graph.events[latest].last_ancestors;
        let mut j: usize = 0;
        while j < self.graph.events.len()
            invariant
                self.wf(),
                latest < self.graph.events.len(),
                *la == self.graph.events[latest as int].last_ancestors,
                la.len() == self.peers(),
                j <= self.graph.events.len(),
                events@ == self.spec_lacking(la@, j as int),
            decreases self.graph.events.len() - j,
        {
            let c = self.slot_of_event(j);
            let known = match la[c] {
                Some(a) => self.graph.events[j].index <= a,
                None => false,
            };
            if !known {
                events.push(self.graph.events[j].packed);
            }
            j += 1;
        }
        Response::new(events)
    }

    /// Handles a request from `src`: takes its events in, acknowledges it
    /// with an event of our own, and answers with the events that `src`
    /// may lack.
    pub fn handle_request(&mut self, src: PeerId, req: Request) -> (res: Result<Response, Error>)
        requires
            old(self).wf(),
        ensures
            final(self).wf(),
            final(self).peer_manager.ids@ == old(self).peer_manager.ids@,
            match res {
                Ok(resp) => final(self).received(
                    *old(self),
                    src,
                    req.events@,
                    Payload::Request,
                    Ok(()),
                ) && resp.events@ == final(self).spec_response(src),
                Err(e) => final(self).received(
                    *old(self),
                    src,
                    req.events@,
                    Payload::Request,
                    Err(e),
                ),
            },
    {
        let events = req.unpack();
        if let Err(e) = self.add_events(&events) {
            return Err(e);
        }
        let ghost mid = *self;
        if let Err(e) = self.create_sync_event(src, true) {
            proof {
                assert(mid.added_all(*old(self), events@, events.len() as int));
            }
            return Err(e);
        }
        proof {
            assert(mid.added_all(*old(self), events@, events.len() as int));
        }
        Ok(self.response_to(src))
    }

    /// Handles a response from `src`: takes its events in and acknowledges
    /// it with an event of our own.
    pub fn handle_response(&mut self, src: PeerId, resp: Response) -> (res: Result<(), Error>)
        requires
            old(self).wf(),
        ensures
            final(self).wf(),
            final(self).peer_manager.ids@ == old(self).peer_manager.ids@,
            final(self).received(*old(self), src, resp.events@, Payload::Response, res),
    {
        let events = resp.unpack();
        if let Err(e) = self.add_events(&events) {
            return Err(e);
        }
        let ghost mid = *self;
        let res = self.create_sync_event(src, false);
        proof {
            assert(mid.added_all(*old(self), events@, events.len() as int));
        }
        res
    }
}

} // verus!
