//! The rank at which an event is drawn when the graph is laid out: above
//! both its parents.

use vstd::prelude::*;
use crate::graph::Graph;

verus! {

impl Graph {
    /// The rank of the event at `i`: one more than the greater of the ranks
    /// of its two parents, where the event's own index stands for a parent
    /// that it does not have.
    pub open spec fn spec_rank(&self, i: int) -> nat
        decreases i,
    {
        if i < 0 {
            0
        } else {
            let s = match self.events[i].packed.self_parent {
                Some(h) => if 0 <= self.position(h) < i {
                    self.spec_rank(self.position(h))
                } else {
                    0
                },
                None => self.events[i].index as nat,
            };
            let o = match self.events[i].packed.other_parent {
                Some(h) => if 0 <= self.position(h) < i {
                    self.spec_rank(self.position(h))
                } else {
                    0
                },
                None => self.events[i].index as nat,
            };
            if s >= o {
                s + 1
            } else {
                o + 1
            }
        }
    }

    /// The ranks of all events, by their places in the graph.
    pub fn ranks(&self) -> (out: Vec<u128>)
        requires
            self.wf(),
        ensures
            out.len() == self.events.len(),
            forall|i: int| 0 <= i < out.len() ==> out[i] == self.spec_rank(i),
    {
        let mut out: Vec<u128> = Vec::new();
        let mut i: usize = 0;
        while i < self.events.len()
            invariant
                self.wf(),
                i <= self.events.len(),
                out.len() == i,
                forall|j: int| 0 <= j < i ==> out[j] == self.spec_rank(j),
                forall|j: int| 0 <= j < i ==> out[j] <= u64::MAX + j + 1,
            decreases self.events.len() - i,
        {
            let parents = self.parents_of(i);
            proof {
                if let Some(p) = parents.0 {
                    self.lemma_position(p as int);
                }
                if let Some(p) = parents.1 {
                    self.lemma_position(p as int);
                }
            }
            let s: u128 = match parents.0 {
                Some(p) => out[p],
                None => self.events[i].index as u128,
            };
            let o: u128 = match parents.1 {
                Some(p) => out[p],
                None => self.events[i].index as u128,
            };
            let rank: u128 = if s >= o {
                s + 1
            } else {
                o + 1
            };
            proof {
                let e = self.events[i as int];
                if let Some(h) = e.packed.self_parent {
                    let p = parents.0.unwrap();
                    assert(self.position(h) == p);
                    assert(s == self.spec_rank(p as int));
                } else {
                    assert(s == e.index);
                }
                if let Some(h) = e.packed.other_parent {
                    let p = parents.1.unwrap();
                    assert(self.position(h) == p);
                    assert(o == self.spec_rank(p as int));
                } else {
                    assert(o == e.index);
                }
                assert(rank == self.spec_rank(i as int));
            }
            out.push(rank);
            i += 1;
        }
        out
    }
}

} // verus!
