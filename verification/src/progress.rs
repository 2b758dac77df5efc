//! Why concluding blocks comes to an end: each block retires a valid block
//! that some event carries, and nothing but an append adds one.

use vstd::prelude::*;
use crate::digest_set::ascending;
use crate::event::Event;
use crate::hash::Digest;
use crate::meta_vote::MetaVote;
use crate::parsec::Parsec;
use crate::peer_manager::PeerId;

verus! {

/// The number of valid blocks that the events carry, all taken together.
pub open spec fn spec_carried_total(events: Seq<Event>) -> nat
    decreases events.len(),
{
    if events.len() == 0 {
        0
    } else {
        spec_carried_total(events.drop_last()) + events.last().valid_blocks_carried@.len()
    }
}

/// Events that carry no more valid blocks, one by one, carry no more in all;
/// and fewer in all where one of them carries fewer.
pub proof fn lemma_carried_total_shrinks(before: Seq<Event>, after: Seq<Event>)
    requires
        before.len() == after.len(),
        forall|j: int|
            0 <= j < before.len() ==> (#[trigger] after[j]).valid_blocks_carried@.len()
                <= before[j].valid_blocks_carried@.len(),
    ensures
        spec_carried_total(after) <= spec_carried_total(before),
        (exists|j: int|
            0 <= j < before.len() && (#[trigger] after[j]).valid_blocks_carried@.len()
                < before[j].valid_blocks_carried@.len()) ==> spec_carried_total(after)
            < spec_carried_total(before),
    decreases before.len(),
{
    if before.len() > 0 {
        let b = before.drop_last();
        let a = after.drop_last();
        assert forall|j: int| 0 <= j < b.len() implies (#[trigger] a[j]).valid_blocks_carried@.len()
            <= b[j].valid_blocks_carried@.len() by {
            assert(a[j] == after[j]);
            assert(b[j] == before[j]);
        }
        lemma_carried_total_shrinks(b, a);
        if exists|j: int|
            0 <= j < before.len() && (#[trigger] after[j]).valid_blocks_carried@.len()
                < before[j].valid_blocks_carried@.len() {
            let j = choose|j: int|
                0 <= j < before.len() && (#[trigger] after[j]).valid_blocks_carried@.len()
                    < before[j].valid_blocks_carried@.len();
            if j < b.len() {
                assert(a[j] == after[j]);
                assert(b[j] == before[j]);
                assert(a[j].valid_blocks_carried@.len() < b[j].valid_blocks_carried@.len());
            }
        }
    }
}

/// An ascending sequence holds no element twice.
pub proof fn lemma_ascending_is_unique(s: Seq<Digest>)
    requires
        ascending(s),
    ensures
        s.no_duplicates(),
{
    assert forall|i: int, j: int| 0 <= i < s.len() && 0 <= j < s.len() && i != j implies s[i]
        != s[j] by {
        if i < j {
            assert(s[i] < s[j]);
        } else {
            assert(s[j] < s[i]);
        }
    }
}

/// An ascending sequence all of whose elements are in another one is no
/// longer; it is shorter where the other holds an element that it lacks.
pub proof fn lemma_part_is_no_longer(part: Seq<Digest>, whole: Seq<Digest>)
    requires
        ascending(part),
        ascending(whole),
        forall|h: Digest| part.contains(h) ==> whole.contains(h),
    ensures
        part.len() <= whole.len(),
        (exists|h: Digest| whole.contains(h) && !part.contains(h)) ==> part.len() < whole.len(),
{
    lemma_ascending_is_unique(part);
    lemma_ascending_is_unique(whole);
    part.unique_seq_to_set();
    whole.unique_seq_to_set();
    vstd::seq_lib::seq_to_set_is_finite(whole);
    vstd::seq_lib::seq_to_set_is_finite(part);
    assert(part.to_set().subset_of(whole.to_set())) by {
        assert forall|h: Digest| part.to_set().contains(h) implies whole.to_set().contains(h) by {
            assert(part.contains(h));
        }
    }
    vstd::set_lib::lemma_len_subset(part.to_set(), whole.to_set());
    if exists|h: Digest| whole.contains(h) && !part.contains(h) {
        let h = choose|h: Digest| whole.contains(h) && !part.contains(h);
        let rest = whole.to_set().remove(h);
        assert(part.to_set().subset_of(rest)) by {
            assert forall|x: Digest| part.to_set().contains(x) implies rest.contains(x) by {
                assert(part.contains(x));
            }
        }
        assert(whole.to_set().contains(h));
        vstd::set_lib::lemma_len_subset(part.to_set(), rest);
    }
}

impl Parsec {
    /// `self` and `pre` hold events that carry the same valid blocks.
    pub open spec fn carries_as(&self, pre: Parsec) -> bool {
        &&& self.graph.events.len() == pre.graph.events.len()
        &&& forall|j: int|
            0 <= j < pre.graph.events.len() ==> (#[trigger] self.graph.events[j]).valid_blocks_carried
                == pre.graph.events[j].valid_blocks_carried
    }

    /// Events that carry the same valid blocks carry as many in all.
    pub proof fn lemma_carries_as_many(&self, pre: Parsec)
        requires
            self.carries_as(pre),
        ensures
            spec_carried_total(self.graph.events@) == spec_carried_total(pre.graph.events@),
    {
        lemma_carried_total_shrinks(pre.graph.events@, self.graph.events@);
        lemma_carried_total_shrinks(self.graph.events@, pre.graph.events@);
    }

    /// Each of the events elected is the oldest event whose valid block the
    /// chain of some peer carries.
    pub proof fn lemma_elected_are_oldest(&self, votes: Seq<MetaVote>, upto: int, i: int)
        requires
            0 <= i < self.spec_elected(votes, upto).len(),
        ensures
            exists|p: int|
                0 <= p < upto && #[trigger] self.spec_oldest(p) == Some(
                    self.spec_elected(votes, upto)[i],
                ),
        decreases upto,
    {
        let rest = self.spec_elected(votes, upto - 1);
        if i < rest.len() {
            self.lemma_elected_are_oldest(votes, upto - 1, i);
            let p = choose|p: int| 0 <= p < upto - 1 && #[trigger] self.spec_oldest(p) == Some(rest[i]);
            assert(self.spec_oldest(p) == Some(self.spec_elected(votes, upto)[i]));
        } else {
            assert(self.spec_oldest(upto - 1) == Some(self.spec_elected(votes, upto)[i]));
        }
    }

    /// Where a block for `payload` is due, some event carries the valid
    /// block of an event that votes for `payload`.
    pub proof fn lemma_due_block_is_carried(&self, payload: u64, voters: Seq<PeerId>)
        requires
            self.wf(),
            self.spec_stable_block(payload, voters),
        ensures
            exists|j: int, h: Digest|
                0 <= j < self.graph.events.len() && (
                #[trigger] self.graph.events[j].valid_blocks_carried@.contains(h))
                    && self.spec_retires(h, payload),
    {
        let votes = self.spec_decided_votes().unwrap();
        let elected = self.spec_elected(votes, self.peers());
        let i = choose|i: int|
            0 <= i < elected.len() && self.spec_vote_at(#[trigger] elected[i]) == Some(payload);
        self.lemma_elected_are_oldest(votes, self.peers(), i);
        let p = choose|p: int|
            0 <= p < self.peers() && #[trigger] self.spec_oldest(p) == Some(elected[i]);
        let r = elected[i];
        assert(self.spec_is_oldest(p, r as int));
        let h = self.graph.events[r as int].hash;
        assert(self.spec_chain_carries(p, h));
        let k = choose|k: int|
            0 <= k < self.peer_manager.chains[p].len() && k < self.peer_manager.chains[p].len()
                && #[trigger] self.spec_carried_at(p, k, h);
        assert(self.chain_wf(p, k));
        let j = choose|j: int|
            0 <= j < self.graph.events.len() && #[trigger] self.is_chain_event(j, p, k);
        self.graph.lemma_position(j);
        self.graph.lemma_position(r as int);
        assert(self.graph.events[j].valid_blocks_carried@.contains(h));
        assert(self.spec_retires(h, payload));
    }

    /// Clearing the state for a block that is due leaves the events with
    /// fewer valid blocks carried in all.
    pub proof fn lemma_clearing_retires(&self, pre: Parsec, payload: u64, voters: Seq<PeerId>)
        requires
            pre.wf(),
            pre.spec_stable_block(payload, voters),
            self.cleared(pre, payload),
        ensures
            spec_carried_total(self.graph.events@) < spec_carried_total(pre.graph.events@),
    {
        pre.lemma_due_block_is_carried(payload, voters);
        let (j, h) = choose|j: int, h: Digest|
            0 <= j < pre.graph.events.len() && (
            #[trigger] pre.graph.events[j].valid_blocks_carried@.contains(h)) && pre.spec_retires(
                h,
                payload,
            );
        assert forall|i: int| 0 <= i < pre.graph.events.len() implies (
        #[trigger] self.graph.events@[i]).valid_blocks_carried@.len()
            <= pre.graph.events@[i].valid_blocks_carried@.len() by {
            assert(pre.event_wf(i));
            let e = self.graph.events[i];
            assert(pre.spec_retained(i, payload, e.valid_blocks_carried@));
            lemma_part_is_no_longer(
                e.valid_blocks_carried@,
                pre.graph.events[i].valid_blocks_carried@,
            );
        }
        assert(pre.event_wf(j));
        let e = self.graph.events[j];
        assert(pre.spec_retained(j, payload, e.valid_blocks_carried@));
        assert(!e.valid_blocks_carried@.contains(h));
        lemma_part_is_no_longer(e.valid_blocks_carried@, pre.graph.events[j].valid_blocks_carried@);
        assert(self.graph.events@[j].valid_blocks_carried@.len()
            < pre.graph.events@[j].valid_blocks_carried@.len());
        lemma_carried_total_shrinks(pre.graph.events@, self.graph.events@);
    }
}

} // verus!
