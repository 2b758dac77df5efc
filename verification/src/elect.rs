//! Electing a payload: the events that the decided agreements point to, and
//! the vote among them that most of them carry.

use vstd::prelude::*;
use crate::meta_vote::MetaVote;
use crate::parsec::Parsec;
use crate::tally::count_below;

verus! {

/// The order of votes: no vote comes first, then the payloads ascending.
pub open spec fn spec_vote_le(a: Option<u64>, b: Option<u64>) -> bool {
    match (a, b) {
        (None, _) => true,
        (Some(_), None) => false,
        (Some(x), Some(y)) => x <= y,
    }
}

/// Tells whether `a` comes before `b`, or is `b`, in the order of votes.
pub fn vote_le(a: Option<u64>, b: Option<u64>) -> (yes: bool)
    ensures
        yes == spec_vote_le(a, b),
{
    match (a, b) {
        (None, _) => true,
        (Some(_), None) => false,
        (Some(x), Some(y)) => x <= y,
    }
}

impl Parsec {
    /// The events elected by the agreements `votes` about the peers at the
    /// slots below `upto`: for each peer decided for, the oldest event whose
    /// valid block its chain carries, in the order of the slots.
    pub open spec fn spec_elected(&self, votes: Seq<MetaVote>, upto: int) -> Seq<usize>
        decreases upto,
    {
        if upto <= 0 {
            Seq::empty()
        } else {
            let rest = self.spec_elected(votes, upto - 1);
            if votes[upto - 1].decision == Some(true) {
                match self.spec_oldest(upto - 1) {
                    Some(r) => rest.push(r),
                    None => rest,
                }
            } else {
                rest
            }
        }
    }

    /// The vote that the event at `r` carries.
    pub open spec fn spec_vote_at(&self, r: usize) -> Option<u64> {
        self.graph.events[r as int].packed.spec_vote()
    }

    /// The number of the events `elected` that carry the vote `v`.
    pub open spec fn spec_support(&self, elected: Seq<usize>, v: Option<u64>) -> nat {
        count_below(elected.len(), |i: int| self.spec_vote_at(elected[i]) == v)
    }

    /// The vote `w` wins over the vote `v`: more of the events carry it, or
    /// as many and `v` does not come after it.
    pub open spec fn spec_beats(&self, elected: Seq<usize>, w: Option<u64>, v: Option<u64>) -> bool {
        self.spec_support(elected, v) < self.spec_support(elected, w) || (self.spec_support(
            elected,
            v,
        ) == self.spec_support(elected, w) && spec_vote_le(v, w))
    }

    /// The vote `w` is carried by one of the events `elected` and wins over
    /// the vote of each of them.
    pub open spec fn spec_is_winner(&self, elected: Seq<usize>, w: Option<u64>) -> bool {
        &&& exists|i: int| 0 <= i < elected.len() && self.spec_vote_at(#[trigger] elected[i]) == w
        &&& forall|j: int|
            0 <= j < elected.len() ==> self.spec_beats(
                elected,
                w,
                self.spec_vote_at(#[trigger] elected[j]),
            )
    }

    /// Two winners are one vote.
    pub proof fn lemma_winner_unique(&self, elected: Seq<usize>, w: Option<u64>, x: Option<u64>)
        requires
            self.spec_is_winner(elected, w),
            self.spec_is_winner(elected, x),
        ensures
            w == x,
    {
        let i = choose|i: int| 0 <= i < elected.len() && self.spec_vote_at(#[trigger] elected[i]) == w;
        let j = choose|j: int| 0 <= j < elected.len() && self.spec_vote_at(#[trigger] elected[j]) == x;
        assert(self.spec_beats(elected, x, self.spec_vote_at(elected[i])));
        assert(self.spec_beats(elected, w, self.spec_vote_at(elected[j])));
    }

    /// The events elected by the agreements `votes`.
    pub fn elected_events(&self, votes: &Vec<MetaVote>) -> (elected: Vec<usize>)
        requires
            self.wf(),
            votes.len() == self.peer_manager.ids.len(),
        ensures
            elected@ == self.spec_elected(votes@, self.peers()),
            forall|i: int| 0 <= i < elected.len() ==> elected[i] < self.graph.events.len(),
    {
        let n = self.peer_manager.len();
        let mut elected: Vec<usize> = Vec::new();
        let mut p: usize = 0;
        while p < n
            invariant
                self.wf(),
                n == self.peer_manager.ids.len(),
                votes.len() == n,
                p <= n,
                elected@ == self.spec_elected(votes@, p as int),
                forall|i: int| 0 <= i < elected.len() ==> elected[i] < self.graph.events.len(),
            decreases n - p,
        {
            let decided_for = match votes[p].decision {
                Some(true) => true,
                _ => false,
            };
            if decided_for {
                match self.oldest_event_with_valid_block(p) {
                    Some(r) => {
                        elected.push(r);
                    },
                    None => {},
                }
            }
            p += 1;
        }
        elected
    }

    /// The number of the events `elected` that carry the vote `v`.
    pub fn support(&self, elected: &Vec<usize>, v: Option<u64>) -> (count: usize)
        requires
            forall|i: int| 0 <= i < elected.len() ==> elected[i] < self.graph.events.len(),
        ensures
            count == self.spec_support(elected@, v),
    {
        let mut count: usize = 0;
        let mut i: usize = 0;
        while i < elected.len()
            invariant
                forall|j: int| 0 <= j < elected.len() ==> elected[j] < self.graph.events.len(),
                i <= elected.len(),
                count <= i,
                count == count_below(i as nat, |j: int| self.spec_vote_at(elected@[j]) == v),
            decreases elected.len() - i,
        {
            if self.graph.events[elected[i]].packed.vote() == v {
                count += 1;
            }
            i += 1;
        }
        count
    }

    /// The vote that wins among the events `elected`: the one that most of
    /// them carry, and of several such the last in the order of votes.
    /// `None` where no event is elected.
    pub fn winner(&self, elected: &Vec<usize>) -> (won: Option<Option<u64>>)
        requires
            forall|i: int| 0 <= i < elected.len() ==> elected[i] < self.graph.events.len(),
        ensures
            match won {
                Some(w) => self.spec_is_winner(elected@, w),
                None => elected.len() == 0,
            },
    {
        if elected.len() == 0 {
            return None;
        }
        let mut best = self.graph.events[elected[0]].packed.vote();
        let mut best_count = self.support(elected, best);
        let ghost mut witness: int = 0;
        let mut i: usize = 1;
        while i < elected.len()
            invariant
                forall|j: int| 0 <= j < elected.len() ==> elected[j] < self.graph.events.len(),
                1 <= i <= elected.len(),
                0 <= witness < i,
                self.spec_vote_at(elected@[witness]) == best,
                best_count == self.spec_support(elected@, best),
                forall|j: int|
                    0 <= j < i ==> self.spec_beats(
                        elected@,
                        best,
                        self.spec_vote_at(#[trigger] elected@[j]),
                    ),
            decreases elected.len() - i,
        {
            let v = self.graph.events[elected[i]].packed.vote();
            let count = self.support(elected, v);
            if count > best_count || (count == best_count && vote_le(best, v)) {
                proof {
                    assert forall|j: int| 0 <= j < i + 1 implies self.spec_beats(
                        elected@,
                        v,
                        self.spec_vote_at(#[trigger] elected@[j]),
                    ) by {
                        if j < i {
                            assert(self.spec_beats(elected@, best, self.spec_vote_at(elected@[j])));
                        }
                    }
                    witness = i as int;
                }
                best = v;
                best_count = count;
            }
            i += 1;
        }
        Some(best)
    }
}

} // verus!
