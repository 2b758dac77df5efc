//! The gossip graph: an append-only store of events, addressed by hash and
//! kept in the order of insertion, so that parents stand before children.

use vstd::prelude::*;
use crate::error::Error;
use crate::event::{Event, PackedEvent};
use crate::hash::Digest;

verus! {

/// The events in the order in which they were inserted. The place of an event
/// in that order is its topological index.
pub struct Graph {
    pub events: Vec<Event>,
}

impl Graph {
    /// The number of events.
    pub open spec fn spec_len(&self) -> int {
        self.events.len() as int
    }

    /// One of the first `below` events has the hash `hash`.
    pub open spec fn contains_below(&self, hash: Digest, below: int) -> bool {
        exists|j: int| 0 <= j < below && j < self.events.len() && self.events[j].hash == hash
    }

    /// An event of the graph has the hash `hash`.
    pub open spec fn contains(&self, hash: Digest) -> bool {
        self.contains_below(hash, self.spec_len())
    }

    /// The place of the event with the hash `hash`.
    pub open spec fn position(&self, hash: Digest) -> int {
        choose|j: int| 0 <= j < self.events.len() && self.events[j].hash == hash
    }

    /// Each parent that `packed` names is among the first `below` events.
    pub open spec fn parents_known(&self, packed: PackedEvent, below: int) -> bool {
        &&& packed.self_parent matches Some(h) ==> self.contains_below(h, below)
        &&& packed.other_parent matches Some(h) ==> self.contains_below(h, below)
    }

    /// Every event stands at its topological index, after its parents, and
    /// no two events share a hash.
    pub open spec fn wf(&self) -> bool {
        &&& forall|i: int|
            0 <= i < self.events.len() ==> (#[trigger] self.events[i]).topological_index == i
                && self.parents_known(self.events[i].packed, i)
        &&& forall|i: int, j: int|
            0 <= i < j < self.events.len() ==> self.events[i].hash != self.events[j].hash
    }

    /// The event at `p` is a parent of the event at `c`.
    pub open spec fn is_parent(&self, p: int, c: int) -> bool {
        &&& 0 <= p < c < self.events.len()
        &&& (self.events[c].packed.self_parent == Some(self.events[p].hash)
            || self.events[c].packed.other_parent == Some(self.events[p].hash))
    }

    /// The event at `a` is the event at `e` or one of its ancestors: a chain
    /// of parent links leads from `e` down to `a`.
    pub open spec fn is_ancestor(&self, a: int, e: int) -> bool
        decreases e - a,
    {
        &&& 0 <= a <= e < self.events.len()
        &&& (a == e || exists|k: int|
            a < k <= e && #[trigger] self.is_parent(a, k) && self.is_ancestor(k, e))
    }

    /// In a well-formed graph a hash that is present stands at one place only.
    pub proof fn lemma_position(&self, i: int)
        requires
            self.wf(),
            0 <= i < self.events.len(),
        ensures
            self.contains(self.events[i].hash),
            self.position(self.events[i].hash) == i,
    {
        let j = self.position(self.events[i].hash);
        assert(0 <= j < self.events.len() && self.events[j].hash == self.events[i].hash);
    }

    /// Whether an event is an ancestor of another depends on the hashes and
    /// the parents of the events up to the later one only.
    pub proof fn lemma_same_ancestry(&self, other: &Graph, a: int, e: int)
        requires
            0 <= e < self.events.len(),
            e < other.events.len(),
            forall|j: int|
                0 <= j <= e ==> (#[trigger] self.events[j]).hash == other.events[j].hash
                    && self.events[j].packed == other.events[j].packed,
        ensures
            self.is_ancestor(a, e) == other.is_ancestor(a, e),
        decreases e - a,
    {
        if 0 <= a < e {
            assert forall|k: int| a < k <= e implies (#[trigger] self.is_parent(a, k)
                && self.is_ancestor(k, e)) == (other.is_parent(a, k) && other.is_ancestor(
                k,
                e,
            )) by {
                self.lemma_same_ancestry(other, k, e);
                assert(self.events[a].hash == other.events[a].hash);
                assert(self.events[k].packed == other.events[k].packed);
            }
            if self.is_ancestor(a, e) {
                let k = choose|k: int|
                    a < k <= e && #[trigger] self.is_parent(a, k) && self.is_ancestor(k, e);
                assert(other.is_parent(a, k) && other.is_ancestor(k, e));
            }
            if other.is_ancestor(a, e) {
                let k = choose|k: int|
                    a < k <= e && #[trigger] other.is_parent(a, k) && other.is_ancestor(k, e);
                assert(self.is_parent(a, k) && self.is_ancestor(k, e));
            }
        }
    }

    /// An ancestor of a parent of an event is an ancestor of the event.
    pub proof fn lemma_parent_extends(&self, a: int, m: int, e: int)
        requires
            self.is_ancestor(a, m),
            self.is_parent(m, e),
        ensures
            self.is_ancestor(a, e),
        decreases m - a,
    {
        assert(self.is_ancestor(e, e));
        if a == m {
            assert(self.is_parent(a, e) && self.is_ancestor(e, e));
        } else {
            let k = choose|k: int|
                a < k <= m && #[trigger] self.is_parent(a, k) && self.is_ancestor(k, m);
            self.lemma_parent_extends(k, m, e);
            assert(self.is_parent(a, k) && self.is_ancestor(k, e));
        }
    }

    /// An ancestor of an ancestor of an event is an ancestor of the event.
    pub proof fn lemma_ancestry_is_transitive(&self, a: int, b: int, c: int)
        requires
            self.is_ancestor(a, b),
            self.is_ancestor(b, c),
        ensures
            self.is_ancestor(a, c),
        decreases b - a,
    {
        if a != b {
            let k = choose|k: int|
                a < k <= b && #[trigger] self.is_parent(a, k) && self.is_ancestor(k, b);
            self.lemma_ancestry_is_transitive(k, b, c);
            assert(self.is_parent(a, k) && self.is_ancestor(k, c));
        }
    }

    /// A graph without events.
    pub fn new() -> (g: Graph)
        ensures
            g.wf(),
            g.events@ == Seq::<Event>::empty(),
    {
        Graph { events: Vec::new() }
    }

    /// The number of events.
    pub fn len(&self) -> (n: usize)
        ensures
            n == self.events.len(),
    {
        self.events.len()
    }

    /// The place of the event with the hash `hash` among the first `below`
    /// events, or `None` where none of them has it.
    pub fn find_below(&self, hash: Digest, below: usize) -> (at: Option<usize>)
        requires
            below <= self.events.len(),
        ensures
            match at {
                Some(i) => i < below && self.events[i as int].hash == hash,
                None => !self.contains_below(hash, below as int),
            },
    {
        let mut i: usize = 0;
        while i < below
            invariant
                i <= below <= self.events.len(),
                forall|j: int| 0 <= j < i ==> self.events[j].hash != hash,
            decreases below - i,
        {
            if self.events[i].hash == hash {
                return Some(i);
            }
            i += 1;
        }
        None
    }

    /// The place of the event with the hash `hash`, or `None` where the
    /// graph does not hold it.
    pub fn find(&self, hash: Digest) -> (at: Option<usize>)
        ensures
            match at {
                Some(i) => i < self.events.len() && self.events[i as int].hash == hash
                    && self.contains(hash),
                None => !self.contains(hash),
            },
            self.wf() && self.contains(hash) ==> at == Some(self.position(hash) as usize),
    {
        let at = self.find_below(hash, self.events.len());
        proof {
            if let Some(i) = at {
                if self.wf() {
                    self.lemma_position(i as int);
                }
            }
        }
        at
    }

    /// The event with the hash `hash`, or `None` where the graph does not hold it.
    pub fn get(&self, hash: Digest) -> (e: Option<&Event>)
        ensures
            match e {
                Some(e) => self.contains(hash) && e.hash == hash && self.events@.contains(*e),
                None => !self.contains(hash),
            },
            self.wf() && self.contains(hash) ==> e == Some(&self.events[self.position(hash)]),
    {
        match self.find(hash) {
            Some(i) => Some(&self.events[i]),
            None => None,
        }
    }

    /// Tells whether the graph holds an event with the hash `hash`.
    pub fn contains_hash(&self, hash: Digest) -> (yes: bool)
        ensures
            yes == self.contains(hash),
    {
        self.find(hash).is_some()
    }

    /// Appends `event`, whose topological index becomes the number of events
    /// so far. Fails with `DuplicateEvent` where the hash is present already,
    /// else with `UnknownParent` where a parent is missing; the graph is then
    /// left as it was.
    pub fn insert(&mut self, event: Event) -> (res: Result<(), Error>)
        requires
            old(self).wf(),
        ensures
            final(self).wf(),
            old(self).contains(event.hash) ==> res == Err::<(), Error>(Error::DuplicateEvent),
            !old(self).contains(event.hash) && !old(self).parents_known(
                event.packed,
                old(self).spec_len(),
            ) ==> res == Err::<(), Error>(Error::UnknownParent),
            !old(self).contains(event.hash) && old(self).parents_known(
                event.packed,
                old(self).spec_len(),
            ) ==> res.is_ok(),
            res.is_err() ==> final(self).events@ == old(self).events@,
            res.is_ok() ==> final(self).events@ == old(self).events@.push(
                Event { topological_index: old(self).events.len(), ..event },
            ),
    {
        if self.find(event.hash).is_some() {
            return Err(Error::DuplicateEvent);
        }
        if let Some(h) = event.packed.self_parent {
            if self.find(h).is_none() {
                return Err(Error::UnknownParent);
            }
        }
        if let Some(h) = event.packed.other_parent {
            if self.find(h).is_none() {
                return Err(Error::UnknownParent);
            }
        }
        let mut node = event;
        node.topological_index = self.events.len();
        self.events.push(node);
        proof {
            let n = old(self).events.len() as int;
            assert forall|i: int| 0 <= i < self.events.len() implies (#[trigger] self.events[i]).topological_index
                == i && self.parents_known(self.events[i].packed, i) by {
                if i < n {
                    assert(self.events[i] == old(self).events[i]);
                    assert(old(self).parents_known(old(self).events[i].packed, i));
                    if let Some(h) = self.events[i].packed.self_parent {
                        let j = choose|j: int|
                            0 <= j < i && j < old(self).events.len() && old(self).events[j].hash
                                == h;
                        assert(self.events[j].hash == h);
                    }
                    if let Some(h) = self.events[i].packed.other_parent {
                        let j = choose|j: int|
                            0 <= j < i && j < old(self).events.len() && old(self).events[j].hash
                                == h;
                        assert(self.events[j].hash == h);
                    }
                } else {
                    if let Some(h) = event.packed.self_parent {
                        let j = choose|j: int|
                            0 <= j < n && j < old(self).events.len() && old(self).events[j].hash
                                == h;
                        assert(self.events[j].hash == h);
                    }
                    if let Some(h) = event.packed.other_parent {
                        let j = choose|j: int|
                            0 <= j < n && j < old(self).events.len() && old(self).events[j].hash
                                == h;
                        assert(self.events[j].hash == h);
                    }
                }
            }
            assert forall|i: int, j: int| 0 <= i < j < self.events.len() implies self.events[i].hash
                != self.events[j].hash by {
                if j < n {
                    assert(old(self).events[i].hash != old(self).events[j].hash);
                } else {
                    assert(self.events[i] == old(self).events[i]);
                }
            }
        }
        Ok(())
    }

    /// The event at `j` is a parent of an ancestor of `start` that stands at
    /// `lo` or later.
    pub open spec fn reached_from(&self, j: int, lo: int, start: int) -> bool {
        exists|k: int|
            lo <= k <= start && #[trigger] self.is_parent(j, k) && self.is_ancestor(k, start)
    }

    /// The places of the parents of the event at `c`: of the self-parent, then
    /// of the other parent, each where the event names one.
    pub fn parents_of(&self, c: usize) -> (ps: (Option<usize>, Option<usize>))
        requires
            self.wf(),
            c < self.events.len(),
        ensures
            match ps.0 {
                Some(p) => p < c && self.events[c as int].packed.self_parent == Some(
                    self.events[p as int].hash,
                ),
                None => self.events[c as int].packed.self_parent.is_none(),
            },
            match ps.1 {
                Some(p) => p < c && self.events[c as int].packed.other_parent == Some(
                    self.events[p as int].hash,
                ),
                None => self.events[c as int].packed.other_parent.is_none(),
            },
    {
        proof {
            assert(self.events[c as int].topological_index == c);
        }
        let sp = match self.events[c].packed.self_parent {
            Some(h) => self.find_below(h, c),
            None => None,
        };
        let op = match self.events[c].packed.other_parent {
            Some(h) => self.find_below(h, c),
            None => None,
        };
        (sp, op)
    }

    /// The event at `start` and all its ancestors, by their places in the
    /// graph, children before parents: each exactly once, in strictly
    /// descending order.
    ///
    /// The places still to visit are kept as marks in an array as long as
    /// `start + 1`, scanned from the top: the greatest marked place is always
    /// the next one out, and a place marked twice is still visited once.
    pub fn ancestors(&self, start: usize) -> (out: Vec<usize>)
        requires
            self.wf(),
            start < self.events.len(),
        ensures
            forall|i: int, j: int| 0 <= i < j < out.len() ==> out[i] > out[j],
            forall|k: usize| out@.contains(k) <==> self.is_ancestor(k as int, start as int),
    {
        let mut marks: Vec<bool> = Vec::new();
        let mut n: usize = 0;
        while n < start
            invariant
                n <= start,
                marks.len() == n,
                forall|j: int| 0 <= j < n ==> !marks[j],
            decreases start - n,
        {
            marks.push(false);
            n += 1;
        }
        marks.push(true);
        let mut out: Vec<usize> = Vec::new();
        let mut i: usize = start + 1;
        while i > 0
            invariant
                self.wf(),
                start < self.events.len(),
                i <= start + 1,
                marks.len() == start + 1,
                forall|j: int|
                    0 <= j <= start ==> (marks[j] <==> (j == start || self.reached_from(
                        j,
                        i as int,
                        start as int,
                    ))),
                forall|a: int, b: int| 0 <= a < b < out.len() ==> out[a] > out[b],
                forall|a: int| 0 <= a < out.len() ==> out[a] >= i && out[a] <= start,
                forall|k: int|
                    i <= k <= start ==> (out@.contains(k as usize) <==> self.is_ancestor(
                        k,
                        start as int,
                    )),
            decreases i,
        {
            let c: usize = i - 1;
            let ghost before = marks@;
            let ghost out_before = out@;
            let ps = self.parents_of(c);
            let marked = marks[c];
            if marked {
                out.push(c);
                if let Some(p) = ps.0 {
                    marks[p] = true;
                }
                if let Some(p) = ps.1 {
                    marks[p] = true;
                }
            }
            proof {
                let s = start as int;
                let ci = c as int;
                // Whether the event at `c` is an ancestor is what its mark says.
                assert(before[ci] <==> self.is_ancestor(ci, s)) by {
                    if ci != s && self.reached_from(ci, i as int, s) {
                        let k = choose|k: int|
                            i <= k <= s && #[trigger] self.is_parent(ci, k) && self.is_ancestor(
                                k,
                                s,
                            );
                        assert(self.is_ancestor(ci, s));
                    }
                    if ci != s && self.is_ancestor(ci, s) {
                        let k = choose|k: int|
                            ci < k <= s && #[trigger] self.is_parent(ci, k) && self.is_ancestor(
                                k,
                                s,
                            );
                        assert(self.reached_from(ci, i as int, s));
                    }
                }
                assert forall|j: int| 0 <= j <= s implies (marks[j] <==> (j == s
                    || self.reached_from(j, ci, s))) by {
                    if self.reached_from(j, ci, s) {
                        let k = choose|k: int|
                            ci <= k <= s && #[trigger] self.is_parent(j, k) && self.is_ancestor(
                                k,
                                s,
                            );
                        if k == ci {
                            // `j` is one of the two parents just marked.
                            if ps.0.is_some() && self.events[ci].packed.self_parent == Some(
                                self.events[j].hash,
                            ) {
                                assert(ps.0.unwrap() == j);
                            }
                            if ps.1.is_some() && self.events[ci].packed.other_parent == Some(
                                self.events[j].hash,
                            ) {
                                assert(ps.1.unwrap() == j);
                            }
                            assert(marks[j]);
                        } else {
                            assert(self.reached_from(j, i as int, s));
                            assert(before[j]);
                        }
                    }
                    if marks[j] && j != s {
                        if before[j] {
                            let k = choose|k: int|
                                i <= k <= s && #[trigger] self.is_parent(j, k)
                                    && self.is_ancestor(k, s);
                            assert(self.reached_from(j, ci, s));
                        } else {
                            assert(marked);
                            assert(self.is_parent(j, ci));
                            assert(self.reached_from(j, ci, s));
                        }
                    }
                }
                if marked {
                    assert(out@ == out_before.push(c));
                    assert(out@[out_before.len() as int] == c);
                    assert forall|k: int| ci <= k <= s implies (out@.contains(k as usize)
                        <==> self.is_ancestor(k, s)) by {
                        if k == ci {
                            assert(out@.contains(c));
                        } else {
                            if out_before.contains(k as usize) {
                                let a = choose|a: int|
                                    0 <= a < out_before.len() && out_before[a] == k as usize;
                                assert(out@[a] == k as usize);
                            }
                            if out@.contains(k as usize) {
                                let a = choose|a: int| 0 <= a < out@.len() && out@[a] == k as usize;
                                assert(out_before[a] == k as usize);
                            }
                        }
                    }
                } else {
                    assert forall|k: int| ci <= k <= s implies (out@.contains(k as usize)
                        <==> self.is_ancestor(k, s)) by {
                        if k == ci && out@.contains(k as usize) {
                            let a = choose|a: int| 0 <= a < out@.len() && out@[a] == k as usize;
                            assert(out[a] >= i);
                        }
                    }
                }
            }
            i = c;
        }
        proof {
            assert forall|k: usize| out@.contains(k) <==> self.is_ancestor(
                k as int,
                start as int,
            ) by {
                if out@.contains(k) {
                    let a = choose|a: int| 0 <= a < out@.len() && out@[a] == k;
                    assert(0 <= out[a] <= start);
                }
            }
        }
        out
    }
}

} // verus!
