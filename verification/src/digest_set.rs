//! Sets of 64-bit words, digests or ids, kept as vectors in strictly
//! ascending order.

use vstd::prelude::*;
use crate::hash::Digest;

verus! {

/// The elements ascend strictly, so none occurs twice.
pub open spec fn ascending(s: Seq<Digest>) -> bool {
    forall|i: int, j: int| 0 <= i < j < s.len() ==> s[i] < s[j]
}

/// Tells whether the ascending vector `set` holds `hash`.
pub fn holds(set: &Vec<Digest>, hash: Digest) -> (yes: bool)
    ensures
        yes == set@.contains(hash),
{
    let mut i: usize = 0;
    while i < set.len()
        invariant
            i <= set.len(),
            forall|j: int| 0 <= j < i ==> set[j] != hash,
        decreases set.len() - i,
    {
        if set[i] == hash {
            return true;
        }
        i += 1;
    }
    false
}

/// Puts `hash` into the ascending vector `set`, at its place; a set that
/// holds it already is left as it is.
pub fn put(set: &mut Vec<Digest>, hash: Digest)
    requires
        ascending(old(set)@),
    ensures
        ascending(final(set)@),
        forall|h: Digest| final(set)@.contains(h) <==> (old(set)@.contains(h) || h == hash),
        old(set)@.contains(hash) ==> final(set)@ == old(set)@,
{
    let mut at: usize = 0;
    while at < set.len() && set[at] < hash
        invariant
            at <= set.len(),
            ascending(set@),
            set@ == old(set)@,
            forall|j: int| 0 <= j < at ==> set[j] < hash,
        decreases set.len() - at,
    {
        at += 1;
    }
    if at < set.len() && set[at] == hash {
        return ;
    }
    proof {
        assert forall|j: int| 0 <= j < set.len() implies set[j] != hash by {
            if j >= at {
                assert(set[at as int] <= set[j]);
            }
        }
    }
    set.insert(at, hash);
    proof {
        let before = old(set)@;
        assert(set@ == before.insert(at as int, hash));
        assert forall|i: int, j: int| 0 <= i < j < set.len() implies set[i] < set[j] by {
            let oi = if i < at { i } else { i - 1 };
            let oj = if j < at { j } else { j - 1 };
            if i != at && j != at {
                assert(before[oi] < before[oj]);
            } else if i == at {
                assert(before[at as int] <= before[oj]);
            }
        }
        assert forall|h: Digest| set@.contains(h) <==> (before.contains(h) || h == hash) by {
            if set@.contains(h) {
                let k = choose|k: int| 0 <= k < set@.len() && set@[k] == h;
                if k < at {
                    assert(before[k] == h);
                } else if k > at {
                    assert(before[k - 1] == h);
                }
            }
            if before.contains(h) {
                let k = choose|k: int| 0 <= k < before.len() && before[k] == h;
                if k < at {
                    assert(set@[k] == h);
                } else {
                    assert(set@[k + 1] == h);
                }
            }
            if h == hash {
                assert(set@[at as int] == h);
            }
        }
    }
}

/// Takes `hash` out of the ascending vector `set`; a set that does not hold
/// it is left as it is. Tells whether the set held it.
pub fn take(set: &mut Vec<Digest>, hash: Digest) -> (held: bool)
    requires
        ascending(old(set)@),
    ensures
        ascending(final(set)@),
        held == old(set)@.contains(hash),
        forall|h: Digest| final(set)@.contains(h) <==> (old(set)@.contains(h) && h != hash),
        !held ==> final(set)@ == old(set)@,
{
    let mut at: usize = 0;
    while at < set.len() && set[at] != hash
        invariant
            at <= set.len(),
            set@ == old(set)@,
            forall|j: int| 0 <= j < at ==> set[j] != hash,
        decreases set.len() - at,
    {
        at += 1;
    }
    if at == set.len() {
        return false;
    }
    let _ = set.remove(at);
    proof {
        let before = old(set)@;
        assert(set@ == before.remove(at as int));
        assert forall|i: int, j: int| 0 <= i < j < set.len() implies set[i] < set[j] by {
            let oi = if i < at { i } else { i + 1 };
            let oj = if j < at { j } else { j + 1 };
            assert(before[oi] < before[oj]);
        }
        assert forall|h: Digest| set@.contains(h) <==> (before.contains(h) && h != hash) by {
            if set@.contains(h) {
                let k = choose|k: int| 0 <= k < set@.len() && set@[k] == h;
                let ok = if k < at { k } else { k + 1 };
                assert(before[ok] == h);
                if ok < at {
                    assert(before[ok] < before[at as int]);
                } else {
                    assert(before[at as int] < before[ok]);
                }
            }
            if before.contains(h) && h != hash {
                let k = choose|k: int| 0 <= k < before.len() && before[k] == h;
                if k < at {
                    assert(set@[k] == h);
                } else {
                    assert(set@[k - 1] == h);
                }
            }
        }
    }
    true
}

/// The union of two ascending vectors, ascending.
pub fn union(a: &Vec<Digest>, b: &Vec<Digest>) -> (out: Vec<Digest>)
    requires
        ascending(a@),
    ensures
        ascending(out@),
        forall|h: Digest| out@.contains(h) <==> (a@.contains(h) || b@.contains(h)),
{
    let mut out = a.clone();
    let mut i: usize = 0;
    while i < b.len()
        invariant
            i <= b.len(),
            ascending(out@),
            forall|h: Digest|
                out@.contains(h) <==> (a@.contains(h) || b@.take(i as int).contains(h)),
        decreases b.len() - i,
    {
        put(&mut out, b[i]);
        proof {
            let shorter = b@.take(i as int);
            let longer = b@.take(i + 1);
            assert forall|h: Digest| out@.contains(h) <==> (a@.contains(h) || longer.contains(
                h,
            )) by {
                if longer.contains(h) {
                    let k = choose|k: int| 0 <= k < longer.len() && longer[k] == h;
                    if k < i {
                        assert(shorter[k] == h);
                    }
                }
                if shorter.contains(h) {
                    let k = choose|k: int| 0 <= k < shorter.len() && shorter[k] == h;
                    assert(longer[k] == h);
                }
                if h == b[i as int] {
                    assert(longer[i as int] == h);
                }
            }
        }
        i += 1;
    }
    proof {
        assert(b@.take(i as int) =~= b@);
    }
    out
}

} // verus!
